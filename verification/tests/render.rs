use sbash::Script;

const SIMPLE: &str = "#^ A script with one function.\npub fn hello(name) {\n    echo \"Hello, $name\"\n}\n";

const ALL_FEATURES: &str = "#^ Everything the dialect offers.\n#^\n#^ Functions, arguments, doc comments.\n\n# An ordinary comment.\n\n#> Greets someone.\n#>\n#> The greeting goes to standard output.\npub fn greet(\n    #> Who is greeted.\n    name,\n    #> How often.\n    times, #< At least once.\n) {\n    for _ in $(seq \"$times\"); do\n        echo \"Hello, $name\"\n    done\n}\n\n#> Runs a command in the build directory.\npub fn in-build-dir($@) #< All arguments are the command.\n{ # the block\n\n\tcd build\n\n\t\"$@\"\n}\n\npub inline fn enter(dir,) {\n  cd \"$dir\"\n}\n\nfn helper() {\n}\n\ninline fn noop(a, b) {\n\n}\n";

fn rendered(source: &str) -> String {
    match Script::parse(source) {
        Ok(script) => script.render(),
        Err(e) => e.text().to_owned(),
    }
}

/// The one-based line of `rendered` on which `line` stands.
fn line_of(rendered: &str, line: &str) -> Option<usize> {
    rendered.lines().position(|l| l == line).map(|i| i + 1)
}

#[test]
fn simple() {
    assert_eq!(
        rendered(SIMPLE),
        "\nhello () { ( name=\"$1\"; shift; \necho \"Hello, $name\"\n) };"
    );
}

#[test]
fn all_features() {
    let expected = [
        "\n\n\n\n\n\n\n\n\n\n\n\n\n\n",
        "greet () { ( name=\"$1\"; shift; times=\"$1\"; shift; \n",
        "for _ in $(seq \"$times\"); do\n",
        "    echo \"Hello, $name\"\n",
        "done\n",
        ") };",
        "\n\n\n\n\n",
        "in-build-dir () { ( \n",
        "cd build\n",
        "\n",
        "\"$@\"\n",
        ") };",
        "\n\n",
        "enter () { dir=\"$1\"; shift; \n",
        "cd \"$dir\"\n",
        "};",
        "\n\n",
        "helper () { :; }",
        "\n\n\n\n",
        "noop () { :; }",
    ]
    .concat();
    assert_eq!(rendered(ALL_FEATURES), expected);
}

#[test]
fn all_features_bodies_stand_on_their_source_lines() {
    let text = rendered(ALL_FEATURES);
    assert_eq!(line_of(&text, "for _ in $(seq \"$times\"); do"), Some(16));
    assert_eq!(line_of(&text, "    echo \"Hello, $name\""), Some(17));
    assert_eq!(line_of(&text, "cd build"), Some(25));
    assert_eq!(line_of(&text, "\"$@\""), Some(27));
    assert_eq!(line_of(&text, "cd \"$dir\""), Some(31));
    let script = Script::parse(ALL_FEATURES).unwrap();
    let lines: Vec<usize> = script
        .items()
        .iter()
        .map(|item| item.body_line_number())
        .collect();
    assert_eq!(lines, vec![16, 25, 31, 35, 39]);
}

#[test]
fn bodies_keep_their_lines_across_gaps() {
    let source = "\n\n\nfn first() {\n  one\n  two\n}\n\n\n# between\n\nfn second()\n\n{\n\n\n    three\n}\nfn third() {\n\tfour\n}";
    let text = rendered(source);
    assert_eq!(line_of(&text, "one"), Some(5));
    assert_eq!(line_of(&text, "two"), Some(6));
    assert_eq!(line_of(&text, "three"), Some(17));
    assert_eq!(line_of(&text, "four"), Some(20));
    assert_eq!(
        text,
        "\n\n\nfirst () { ( \none\ntwo\n) };\n\n\n\n\n\n\n\n\nsecond () { ( \nthree\n) };\nthird () { ( \nfour\n) };"
    );
}

#[test]
fn functions_on_adjacent_lines_share_no_line() {
    assert_eq!(
        rendered("fn a() {\n  x\n}\nfn b() {\n  y\n}\n"),
        "a () { ( \nx\n) };\nb () { ( \ny\n) };"
    );
}

#[test]
fn empty_body_renders_the_noop_definition() {
    assert_eq!(rendered("fn f() {\n}\n"), "f () { :; }");
    assert_eq!(rendered("inline fn f() {\n}\n"), "f () { :; }");
    assert_eq!(rendered("pub fn f(a, b, $@) {\n}\n"), "f () { :; }");
    assert_eq!(rendered("fn f() {\n\n   \n\t\n}\n"), "\nf () { :; }");
}

#[test]
fn empty_source_renders_nothing() {
    assert_eq!(rendered(""), "");
    assert_eq!(rendered("  \n# nothing here\n\n"), "");
    assert_eq!(rendered("#^ Only a description.\n"), "");
}

#[test]
fn inline_body_runs_without_subshell() {
    assert_eq!(
        rendered("inline fn go(dir) {\n  cd \"$dir\"\n}\n"),
        "go () { dir=\"$1\"; shift; \ncd \"$dir\"\n};"
    );
    assert_eq!(
        rendered("fn go(dir) {\n  cd \"$dir\"\n}\n"),
        "go () { ( dir=\"$1\"; shift; \ncd \"$dir\"\n) };"
    );
}

#[test]
fn arguments_are_bound_in_declared_order() {
    assert_eq!(
        rendered("fn f(a, b, c) {\n  :\n}\n"),
        "f () { ( a=\"$1\"; shift; b=\"$1\"; shift; c=\"$1\"; shift; \n:\n) };"
    );
    let script = Script::parse("fn f(a, b, c) {\n  :\n}\n").unwrap();
    assert_eq!(
        script.items()[0].fn_signature().args(),
        "a=\"$1\"; shift; b=\"$1\"; shift; c=\"$1\"; shift; "
    );
}

#[test]
fn forward_marker_is_bound_to_nothing() {
    assert_eq!(
        rendered("fn f(a, $@) {\n  run \"$a\" \"$@\"\n}\n"),
        "f () { ( a=\"$1\"; shift; \nrun \"$a\" \"$@\"\n) };"
    );
    assert_eq!(
        rendered("fn f($@) {\n  run \"$@\"\n}\n"),
        "f () { ( \nrun \"$@\"\n) };"
    );
    let script = Script::parse("fn f($@) {\n  run \"$@\"\n}\n").unwrap();
    assert_eq!(script.items()[0].fn_signature().args(), "");
}

#[test]
fn item_script_pads_up_to_the_body_line() {
    let script = Script::parse("\n\n\n\nfn f(a) {\n  x\n}\n").unwrap();
    let item = &script.items()[0];
    assert_eq!(item.body_line_number(), 6);
    assert_eq!(
        item.script(0),
        "\n\n\n\nf () { ( a=\"$1\"; shift; \nx\n) };"
    );
    assert_eq!(item.script(3), "\nf () { ( a=\"$1\"; shift; \nx\n) };");
    assert_eq!(item.script(4), "f () { ( a=\"$1\"; shift; \nx\n) };");
}

#[test]
fn indent_is_stripped_and_deeper_indent_kept() {
    let script = Script::parse("fn f() {\n    if x; then\n        y\n    fi\n}\n").unwrap();
    assert_eq!(script.items()[0].body(), "if x; then\n    y\nfi\n");
}

#[test]
fn blank_lines_inside_a_body_are_kept() {
    let script = Script::parse("fn f() {\n  x\n\n    y\n \n  z\n}").unwrap();
    assert_eq!(script.items()[0].body(), "x\n\n  y\n \nz\n");
    assert_eq!(script.items()[0].body_line_number(), 2);
}

#[test]
fn blank_lines_before_the_first_body_line_are_kept() {
    let script = Script::parse("fn f() {\n \n\t\n  x\n}").unwrap();
    assert_eq!(script.items()[0].body(), " \n\t\nx\n");
    assert_eq!(script.items()[0].body_line_number(), 2);
    assert_eq!(script.render(), "f () { ( \n \n\t\nx\n) };");
}

#[test]
fn tab_indent_is_an_indent() {
    let script = Script::parse("fn f() {\n\tx\n\t\ty\n}").unwrap();
    assert_eq!(script.items()[0].body(), "x\n\ty\n");
}

#[test]
fn carriage_returns_stay_in_the_body() {
    let script = Script::parse("fn f() {\r\n  x\r\n}\r\n").unwrap();
    assert_eq!(script.items()[0].body(), "x\r\n");
    assert_eq!(script.items()[0].body_line_number(), 2);
}

#[test]
fn body_may_hold_any_text() {
    let script = Script::parse("fn f() {\n  echo 'héllo ✓' # fn g() {\n  }\n}\n").unwrap();
    assert_eq!(script.items()[0].body(), "echo 'héllo ✓' # fn g() {\n}\n");
    assert_eq!(
        script.render(),
        "f () { ( \necho 'héllo ✓' # fn g() {\n}\n) };"
    );
}

#[test]
fn newlines_of_wide_characters_are_counted_once() {
    let text = rendered("fn a() {\n  é\n  ✓\n  𝄞\n}\n\nfn b() {\n  x\n}\n");
    assert_eq!(line_of(&text, "x"), Some(8));
    assert_eq!(text, "a () { ( \né\n✓\n𝄞\n) };\n\nb () { ( \nx\n) };");
}

#[test]
fn count_newlines_counts_line_feeds() {
    assert_eq!(sbash::text::count_newlines(""), 0);
    assert_eq!(sbash::text::count_newlines("no line feed\r"), 0);
    assert_eq!(sbash::text::count_newlines("\n"), 1);
    assert_eq!(sbash::text::count_newlines("a\nb\r\n\nc"), 3);
    assert_eq!(sbash::text::count_newlines("é\n✓\n𝄞\nĊ\u{a0a}\u{10a0a}"), 3);
    let long = "0123456789abcdef\n".repeat(40);
    assert_eq!(sbash::text::count_newlines(&long), 40);
}
