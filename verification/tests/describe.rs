use sbash::{Description, Script};

fn lines(group: &[&str]) -> Vec<String> {
    group.iter().map(|line| line.to_string()).collect()
}

#[test]
fn description_of_nothing_is_empty() {
    let d = Description::new(&vec![]);
    assert_eq!(d.short(), "");
    assert_eq!(d.long(), "");
    let d = Description::new(&vec![lines(&[]), lines(&["", "  ", "\t"])]);
    assert_eq!(d.short(), "");
    assert_eq!(d.long(), "");
}

#[test]
fn lines_of_a_paragraph_are_joined_by_spaces() {
    let d = Description::new(&vec![lines(&["  one ", "two", "\tthree\r"])]);
    assert_eq!(d.short(), "one two three");
    assert_eq!(d.long(), "one two three");
}

#[test]
fn empty_lines_part_paragraphs() {
    let d = Description::new(&vec![lines(&["", "one", "two", "", " ", "three", "", "four", ""])]);
    assert_eq!(d.short(), "one two");
    assert_eq!(d.long(), "one two\n\nthree\n\nfour");
}

#[test]
fn groups_do_not_share_a_paragraph() {
    let d = Description::new(&vec![lines(&["before"]), lines(&["after", "more"])]);
    assert_eq!(d.short(), "before");
    assert_eq!(d.long(), "before\n\nafter more");
    let d = Description::new(&vec![lines(&[]), lines(&["after"])]);
    assert_eq!(d.short(), "after");
    assert_eq!(d.long(), "after");
}

#[test]
fn white_space_of_any_kind_is_trimmed() {
    let d = Description::new(&vec![lines(&["\u{a0}\u{2003}wide\u{3000}", "\u{85}", "next"])]);
    assert_eq!(d.short(), "wide");
    assert_eq!(d.long(), "wide\n\nnext");
}

#[test]
fn doc_comments_before_a_function_merge() {
    let script = Script::parse(
        "#> Builds the project.\n#> Takes a while.\n#>\n#> Needs a compiler.\n#>   \n#>\n#> See the manual.\nfn build() {\n}\n",
    )
    .unwrap();
    let d = script.items()[0].description();
    assert_eq!(d.short(), "Builds the project. Takes a while.");
    assert_eq!(
        d.long(),
        "Builds the project. Takes a while.\n\nNeeds a compiler.\n\nSee the manual."
    );
}

#[test]
fn doc_comments_after_the_signature_follow_those_before() {
    let script =
        Script::parse("#> Before.\nfn f() #< After one.\n  #< After two.\n{\n}\n").unwrap();
    let d = script.items()[0].description();
    assert_eq!(d.short(), "Before.");
    assert_eq!(d.long(), "Before.\n\nAfter one. After two.");
}

#[test]
fn ordinary_comments_do_not_part_doc_comments() {
    let script = Script::parse("#> One\n# not this\n\n#> two\nfn f() {\n}\n").unwrap();
    assert_eq!(script.items()[0].description().long(), "One two");
}

#[test]
fn script_description_comes_from_the_top() {
    let script = Script::parse("\n#^ The tool.\n#^\n#^ Does things.\n#> f\nfn f() {\n}\n").unwrap();
    assert_eq!(script.description().short(), "The tool.");
    assert_eq!(script.description().long(), "The tool.\n\nDoes things.");
    assert_eq!(script.items()[0].description().long(), "f");
}

#[test]
fn arguments_have_descriptions_of_their_own() {
    let script = Script::parse(
        "fn f(\n  #> First.\n  a, #< Of two.\n  #> Second.\n  #>\n  #> The last.\n  b\n  #< Really.\n) {\n}\nfn g(#> Rest.\n  $@) {\n}\n",
    )
    .unwrap();
    let f = script.items()[0].fn_signature();
    let a = f.arguments()[0].description();
    assert_eq!(a.short(), "First.");
    assert_eq!(a.long(), "First.\n\nOf two.");
    let b = f.arguments()[1].description();
    assert_eq!(b.short(), "Second.");
    assert_eq!(b.long(), "Second.\n\nThe last.\n\nReally.");
    let g = script.items()[1].fn_signature();
    assert_eq!(g.forward_extra_args().unwrap().long(), "Rest.");
}

#[test]
fn all_features_descriptions() {
    let script = Script::parse(
        "#^ Everything the dialect offers.\n#^\n#^ Functions, arguments, doc comments.\n\n#> Greets someone.\n#>\n#> The greeting goes to standard output.\npub fn greet(\n    #> Who is greeted.\n    name,\n    #> How often.\n    times, #< At least once.\n) {\n    echo\n}\n",
    )
    .unwrap();
    assert_eq!(script.description().short(), "Everything the dialect offers.");
    assert_eq!(
        script.description().long(),
        "Everything the dialect offers.\n\nFunctions, arguments, doc comments."
    );
    let greet = &script.items()[0];
    assert_eq!(greet.description().short(), "Greets someone.");
    assert_eq!(
        greet.description().long(),
        "Greets someone.\n\nThe greeting goes to standard output."
    );
    let arguments = greet.fn_signature().arguments();
    assert_eq!(arguments[0].description().long(), "Who is greeted.");
    assert_eq!(arguments[1].description().short(), "How often.");
    assert_eq!(arguments[1].description().long(), "How often.\n\nAt least once.");
}

#[test]
fn trim_drops_white_space_at_both_ends_only() {
    assert_eq!(sbash::description::trim(""), "");
    assert_eq!(sbash::description::trim(" \t\r\n"), "");
    assert_eq!(sbash::description::trim("  a  b \t"), "a  b");
    assert_eq!(sbash::description::trim("x"), "x");
    assert_eq!(sbash::description::trim("\u{2003}é é\u{a0}"), "é é");
}
