use sbash::{Cause, Expected, Script};

fn cause(source: &str) -> (Expected, usize, usize, usize) {
    let e = Script::parse(source).unwrap_err();
    match e.cause() {
        Cause::Syntax {
            expected,
            offset,
            line,
            column,
        } => (*expected, *offset, *line, *column),
        Cause::DuplicateName { name } => panic!("duplicate {}", name),
    }
}

#[test]
fn parse_reads_functions_in_source_order() {
    let script = Script::parse("fn b() {\n}\npub fn a() {\n}\ninline fn c-d_e() {\n}\n").unwrap();
    let names: Vec<&str> = script
        .items()
        .iter()
        .map(|item| item.fn_signature().name())
        .collect();
    assert_eq!(names, vec!["b", "a", "c-d_e"]);
    let public: Vec<bool> = script.items().iter().map(|item| item.is_pub()).collect();
    assert_eq!(public, vec![false, true, false]);
    let inline: Vec<bool> = script.items().iter().map(|item| item.is_inline()).collect();
    assert_eq!(inline, vec![false, false, true]);
}

#[test]
fn empty_source_is_an_empty_script() {
    let script = Script::parse("").unwrap();
    assert_eq!(script.items().len(), 0);
    assert_eq!(script.description().short(), "");
    assert_eq!(script.description().long(), "");
    assert_eq!(Script::parse(" \n\t\r\n# c\n").unwrap().items().len(), 0);
}

#[test]
fn duplicate_names_are_refused() {
    let e = Script::parse("fn f() {\n}\nfn g() {\n}\nfn f() {\n}\n").unwrap_err();
    assert_eq!(e.text(), "function declared more than once: f");
    match e.cause() {
        Cause::DuplicateName { name } => assert_eq!(name, "f"),
        other => panic!("{:?}", other),
    }
}

#[test]
fn duplicate_names_are_refused_when_only_one_is_public() {
    let e = Script::parse("pub fn run() {\n  x\n}\nfn other() {\n}\nfn run(a) {\n  y\n}\n")
        .unwrap_err();
    assert!(matches!(e.cause(), Cause::DuplicateName { name } if name == "run"));
    let e = Script::parse("fn run() {\n}\npub fn run() {\n}\n").unwrap_err();
    assert!(matches!(e.cause(), Cause::DuplicateName { name } if name == "run"));
}

#[test]
fn first_repeated_name_is_reported() {
    let e = Script::parse("fn a() {\n}\nfn b() {\n}\nfn b() {\n}\nfn a() {\n}\n").unwrap_err();
    assert!(matches!(e.cause(), Cause::DuplicateName { name } if name == "b"));
}

#[test]
fn syntax_error_comes_before_duplicate() {
    let e = Script::parse("fn a() {\n}\nfn a() {\n}\nfn").unwrap_err();
    assert!(matches!(e.cause(), Cause::Syntax { .. }));
}

#[test]
fn names_that_differ_are_no_duplicates() {
    assert!(Script::parse("fn a() {\n}\nfn a_() {\n}\nfn a-() {\n}\nfn A() {\n}\n").is_ok());
}

#[test]
fn duplicate_argument_names_are_accepted() {
    let script = Script::parse("fn f(a, a) {\n  x\n}\n").unwrap();
    assert_eq!(
        script.render(),
        "f () { ( a=\"$1\"; shift; a=\"$1\"; shift; \nx\n) };"
    );
}

#[test]
fn missing_keyword_is_reported() {
    assert_eq!(cause("hello"), (Expected::Keyword, 0, 1, 1));
    assert_eq!(cause("\n  pub inline\n nothing"), (Expected::Keyword, 15, 3, 2));
    assert_eq!(cause("fn f() {\n}\n}"), (Expected::Keyword, 11, 3, 1));
    assert_eq!(cause("#> doc\n"), (Expected::Keyword, 7, 2, 1));
    assert_eq!(cause("#< misplaced\nfn f() {\n}"), (Expected::Keyword, 0, 1, 1));
    assert_eq!(cause("inline pub fn f() {\n}"), (Expected::Keyword, 7, 1, 8));
}

#[test]
fn missing_name_is_reported() {
    assert_eq!(cause("fn"), (Expected::Name, 2, 1, 3));
    assert_eq!(cause("fn ()"), (Expected::Name, 3, 1, 4));
    assert_eq!(cause("fn 1st() {\n}"), (Expected::Name, 3, 1, 4));
    assert_eq!(cause("fn -x() {\n}"), (Expected::Name, 3, 1, 4));
    assert_eq!(cause("fn é() {\n}\n"), (Expected::Name, 3, 1, 4));
}

#[test]
fn missing_open_parenthesis_is_reported() {
    assert_eq!(cause("fn f {\n}"), (Expected::OpenParen, 5, 1, 6));
    assert_eq!(cause("fn f"), (Expected::OpenParen, 4, 1, 5));
    assert_eq!(cause("fn a.b() {\n}"), (Expected::OpenParen, 4, 1, 5));
}

#[test]
fn missing_close_parenthesis_is_reported() {
    assert_eq!(cause("fn f(a b) {\n}"), (Expected::CloseParen, 7, 1, 8));
    assert_eq!(cause("fn f(a ,) {\n}"), (Expected::CloseParen, 7, 1, 8));
    assert_eq!(cause("fn f(a-b) {\n}"), (Expected::CloseParen, 6, 1, 7));
    assert_eq!(cause("fn f(a, b"), (Expected::CloseParen, 9, 1, 10));
    assert_eq!(cause("fn f($@, a) {\n}"), (Expected::CloseParen, 9, 1, 10));
    assert_eq!(cause("fn f(a, $@, $@) {\n}"), (Expected::CloseParen, 12, 1, 13));
    assert_eq!(cause("fn f(,) {\n}"), (Expected::CloseParen, 5, 1, 6));
}

#[test]
fn missing_open_brace_is_reported() {
    assert_eq!(cause("fn f()"), (Expected::OpenBrace, 6, 1, 7));
    assert_eq!(cause("fn f()\n"), (Expected::OpenBrace, 7, 2, 1));
    assert_eq!(cause("fn f() #> wrong kind\n{\n}"), (Expected::OpenBrace, 7, 1, 8));
    assert_eq!(cause("fn f() x {\n}"), (Expected::OpenBrace, 7, 1, 8));
}

#[test]
fn missing_line_ending_is_reported() {
    assert_eq!(cause("fn f() { x }"), (Expected::LineBreak, 9, 1, 10));
    assert_eq!(cause("fn f() {}"), (Expected::LineBreak, 8, 1, 9));
    assert_eq!(cause("fn f() {"), (Expected::LineBreak, 8, 1, 9));
    assert_eq!(cause("fn f() { # comment"), (Expected::LineBreak, 18, 1, 19));
    assert_eq!(cause("fn f() { #< doc\n}"), (Expected::LineBreak, 9, 1, 10));
    assert_eq!(cause("fn f() {\r}"), (Expected::LineBreak, 8, 1, 9));
}

#[test]
fn missing_close_brace_is_reported() {
    assert_eq!(cause("fn f() {\n"), (Expected::CloseBrace, 9, 2, 1));
    assert_eq!(cause("fn f() {\n  x\n"), (Expected::CloseBrace, 13, 3, 1));
    assert_eq!(cause("fn f() {\nx\n}"), (Expected::CloseBrace, 9, 2, 1));
    assert_eq!(cause("fn f() {\n  x\n y\n}"), (Expected::CloseBrace, 14, 3, 2));
    assert_eq!(cause("fn f() {\n  x\n  }"), (Expected::CloseBrace, 16, 3, 4));
    assert_eq!(cause("fn f() {\n  x\n  }\n"), (Expected::CloseBrace, 17, 4, 1));
}

#[test]
fn diagnostic_shows_position_trail_and_excerpt() {
    let e = Script::parse("fn ok() {\n}\n\nfn broken(a b) {\n}\n").unwrap_err();
    assert_eq!(
        e.text(),
        [
            "0: at line 3, in closing parenthesis:\n",
            "fn broken(a b) {\n",
            "            ^\n",
            "\n",
            "1: at line 3, in function signature:\n",
            "fn broken(a b) {\n",
            "   ^\n",
            "\n",
            "2: at line 3, in function:\n",
            "fn broken(a b) {\n",
            "^\n",
            "\n",
            "3: at line 0, in script:\n",
            "fn ok() {\n",
            "^\n",
            "\n",
        ]
        .concat()
    );
    assert!(matches!(
        e.cause(),
        Cause::Syntax {
            expected: Expected::CloseParen,
            offset: 25,
            line: 4,
            column: 13
        }
    ));
}

#[test]
fn diagnostic_of_a_body_names_the_body() {
    let e = Script::parse("fn f() {\n  x\n y\n}").unwrap_err();
    assert_eq!(
        e.text(),
        [
            "0: at line 2, in closing brace:\n",
            " y\n",
            " ^\n",
            "\n",
            "1: at line 1, in body:\n",
            "  x\n",
            "^\n",
            "\n",
            "2: at line 0, in function:\n",
            "fn f() {\n",
            "^\n",
            "\n",
            "3: at line 0, in script:\n",
            "fn f() {\n",
            "^\n",
            "\n",
        ]
        .concat()
    );
}

#[test]
fn diagnostic_counts_characters_not_bytes() {
    let e = Script::parse("# é✓\nfn f() {\n  ✓✓\n}\nfn g(é) {\n}\n").unwrap_err();
    assert!(matches!(
        e.cause(),
        Cause::Syntax {
            expected: Expected::CloseParen,
            offset: 26,
            line: 5,
            column: 6
        }
    ));
    assert!(e.text().starts_with("0: at line 4, in closing parenthesis:\nfn g(é) {\n     ^\n"));
}

#[test]
fn diagnostics_are_never_empty() {
    let sources = [
        "x", "fn", "fn f", "fn f(", "fn f()", "fn f() {", "fn f() {\n", "fn f() {\n x", "pub",
        "inline", "#>", "#<", "fn f() {\n}\n#<", "$@", "fn $@() {\n}", "fn f(a, a", "}", "{",
        "fn f() {\n}\nfn f() {\n}",
    ];
    for source in sources {
        match Script::parse(source) {
            Ok(_) => panic!("{:?} was accepted", source),
            Err(e) => assert!(!e.text().is_empty(), "{:?}", source),
        }
    }
}

#[test]
fn parsing_twice_gives_the_same() {
    let bad = "fn f() {\n  x\n y\n}";
    assert_eq!(
        Script::parse(bad).unwrap_err().text(),
        Script::parse(bad).unwrap_err().text()
    );
    let good = "pub fn f(a) {\n  x\n}\n";
    assert_eq!(
        format!("{:?}", Script::parse(good).unwrap()),
        format!("{:?}", Script::parse(good).unwrap())
    );
}

#[test]
fn keywords_need_no_space_after_them() {
    let script = Script::parse("pubinlinefnf(){\n}").unwrap();
    let item = &script.items()[0];
    assert_eq!(item.fn_signature().name(), "f");
    assert!(item.is_pub());
    assert!(item.is_inline());
    let script = Script::parse("fn fn() {\n}\nfn pub_() {\n}").unwrap();
    assert_eq!(script.items()[0].fn_signature().name(), "fn");
    assert_eq!(script.items()[1].fn_signature().name(), "pub_");
}

#[test]
fn comments_stand_between_tokens() {
    let source = "# before\npub # after pub\n fn # after fn\n f # after name\n ( # in list\n a, # after a\n b # after b\n ) # after list\n {\n  x\n}\n# after\n";
    let script = Script::parse(source).unwrap();
    let item = &script.items()[0];
    assert_eq!(item.fn_signature().name(), "f");
    assert_eq!(item.fn_signature().arguments().len(), 2);
    assert_eq!(item.body(), "x\n");
    assert_eq!(item.body_line_number(), 10);
}

#[test]
fn names_may_hold_hyphens_only_in_functions() {
    let script = Script::parse("fn _a-b_9(c_1, _d) {\n}").unwrap();
    let signature = script.items()[0].fn_signature();
    assert_eq!(signature.name(), "_a-b_9");
    assert_eq!(signature.arguments()[0].name(), "c_1");
    assert_eq!(signature.arguments()[1].name(), "_d");
    assert!(Script::parse("fn f(a-b) {\n}").is_err());
}

#[test]
fn forward_marker_is_the_last_argument() {
    let script = Script::parse("fn f(a, b, $@) {\n}\nfn g($@,) {\n}\nfn h(a) {\n}").unwrap();
    let f = script.items()[0].fn_signature();
    assert_eq!(f.arguments().len(), 2);
    assert!(f.forward_extra_args().is_some());
    let g = script.items()[1].fn_signature();
    assert_eq!(g.arguments().len(), 0);
    assert!(g.forward_extra_args().is_some());
    let h = script.items()[2].fn_signature();
    assert_eq!(h.arguments().len(), 1);
    assert!(h.forward_extra_args().is_none());
    assert!(Script::parse("fn f($@, a) {\n}").is_err());
}

#[test]
fn closing_brace_may_be_indented_less_than_the_body() {
    let script = Script::parse("fn f() {\n    x\n  }").unwrap();
    assert_eq!(script.items()[0].body(), "x\n");
    let script = Script::parse("  fn f() {\n}").unwrap();
    assert_eq!(script.items()[0].body(), "");
}

#[test]
fn indented_brace_after_the_header_is_a_body_line() {
    assert_eq!(cause("fn f() {\n  }"), (Expected::CloseBrace, 12, 2, 4));
    let script = Script::parse("fn f() {\n  }\n}").unwrap();
    assert_eq!(script.items()[0].body(), "}\n");
}

#[test]
fn block_without_indented_line_has_no_body() {
    let script = Script::parse("fn f() { # nothing\n\n   \n}\nfn g() {\n  x\n}").unwrap();
    assert_eq!(script.items()[0].body(), "");
    assert_eq!(script.items()[0].body_line_number(), 3);
    assert_eq!(script.items()[1].body_line_number(), 6);
    assert_eq!(script.render(), "\nf () { :; }\n\n\ng () { ( \nx\n) };");
}

#[test]
fn functions_may_share_a_line() {
    let script = Script::parse("fn f() {\n} fn g() {\n  x\n}").unwrap();
    assert_eq!(script.items().len(), 2);
    assert_eq!(script.render(), "f () { :; }\ng () { ( \nx\n) };");
}

#[test]
fn script_doc_comment_belongs_to_the_top() {
    assert_eq!(cause("fn f() {\n}\n#^ late\n"), (Expected::Keyword, 11, 3, 1));
    assert_eq!(cause("#^ top\n#< stray\n"), (Expected::Keyword, 7, 2, 1));
}

#[test]
fn parser_alone_does_not_look_for_duplicates() {
    let (description, items) =
        match sbash::parser::parse("#^ Twice.\nfn f() {\n}\nfn f() {\n  x\n}\n") {
            Ok(parsed) => parsed,
            Err(e) => panic!("{}", e.text()),
        };
    assert_eq!(description.long(), "Twice.");
    assert_eq!(items.len(), 2);
    assert_eq!(items[0].fn_signature().name(), "f");
    assert_eq!(items[1].fn_signature().name(), "f");
    assert_eq!(items[1].body_line_number(), 5);
    assert!(sbash::parser::parse("fn f() {").is_err());
}
