use demonstrate::block::{Block, Root, Signature};
use demonstrate::generate::{generate, Item};
use demonstrate::parse::{parse, ErrorKind, ParseError};
use demonstrate::token::{Delim, Token};

/// Splits a source text on whitespace into tokens: brackets open and close
/// groups, words become identifiers (literals when they start with a digit
/// or a quote), a leading `'` makes a lifetime, and a run of other
/// characters becomes glued punctuation.
fn toks(src: &str) -> Vec<Token> {
    let mut out = Vec::new();
    for word in src.split_whitespace() {
        match word {
            "{" => out.push(Token::Open(Delim::Brace)),
            "}" => out.push(Token::Close(Delim::Brace)),
            "(" => out.push(Token::Open(Delim::Paren)),
            ")" => out.push(Token::Close(Delim::Paren)),
            "[" => out.push(Token::Open(Delim::Bracket)),
            "]" => out.push(Token::Close(Delim::Bracket)),
            _ => {
                let first = word.chars().next().unwrap();
                if first == '\'' && word.len() > 1 {
                    out.push(Token::Punct { ch: '\'', joint: true });
                    out.push(Token::Ident(word[1..].to_string()));
                } else if first.is_ascii_digit() || first == '"' {
                    out.push(Token::Literal(word.to_string()));
                } else if word.chars().all(|c| c.is_alphanumeric() || c == '_') {
                    out.push(Token::Ident(word.to_string()));
                } else {
                    let cs: Vec<char> = word.chars().collect();
                    for (i, c) in cs.iter().enumerate() {
                        out.push(Token::Punct { ch: *c, joint: i + 1 < cs.len() });
                    }
                }
            }
        }
    }
    out
}

fn expand_src(src: &str) -> Vec<Item> {
    let root = parse(&toks(src)).expect("the source parses");
    generate(&root)
}

fn test_item(name: &str, body: &str) -> Item {
    Item::Test { name: name.to_string(), attrs: vec![], sig: None, body: toks(body) }
}

fn module(name: &str, items: Vec<Item>) -> Item {
    Item::Module { name: name.to_string(), attrs: vec![], items }
}

fn parse_error(src: &str) -> ParseError {
    parse(&toks(src)).expect_err("the source is rejected")
}

#[test]
fn nested_setup_scenario() {
    let out = expand_src(
        "describe tests {
            before { let one = 1 ; }
            it one { assert ( one == 1 ) }
            it zero { assert ( one - 1 == 0 ) }
            describe nested {
                before { let two = 2 ; }
                it two { assert ( one + 1 == two ) }
            }
        }",
    );
    let expected = vec![module(
        "tests",
        vec![
            test_item("one", "let one = 1 ; assert ( one == 1 )"),
            test_item("zero", "let one = 1 ; assert ( one - 1 == 0 )"),
            module("nested", vec![test_item("two", "let one = 1 ; let two = 2 ; assert ( one + 1 == two )")]),
        ],
    )];
    assert_eq!(out, expected);
}

#[test]
fn single_scope_single_unit() {
    let out = expand_src("describe outer { it works { assert ( true ) } }");
    assert_eq!(out, vec![module("outer", vec![test_item("works", "assert ( true )")])]);
}

#[test]
fn three_levels_of_setup_in_order() {
    let out = expand_src(
        "describe a { before { x ; } describe b { before { y ; } describe c { before { z ; } it t { w } } } }",
    );
    let expected = vec![module(
        "a",
        vec![module("b", vec![module("c", vec![test_item("t", "x ; y ; z ; w")])])],
    )];
    assert_eq!(out, expected);
}

#[test]
fn teardown_runs_after_body_outer_first() {
    let out = expand_src("describe a { after { x ; } describe b { after { y ; } it t { w } } }");
    assert_eq!(out, vec![module("a", vec![module("b", vec![test_item("t", "w x ; y ;")])])]);
}

#[test]
fn hooks_apply_to_units_declared_before_them() {
    let out = expand_src("describe a { it t { w } before { s ; } after { d ; } }");
    assert_eq!(out, vec![module("a", vec![test_item("t", "s ; w d ;")])]);
}

#[test]
fn top_level_hooks_apply_to_everything() {
    let out = expand_src("before { s ; } it t { w } describe a { it u { v } }");
    let expected = vec![test_item("t", "s ; w"), module("a", vec![test_item("u", "s ; v")])];
    assert_eq!(out, expected);
}

#[test]
fn synonyms_give_the_same_tree() {
    let a = parse(&toks("describe s { it u { x } }")).unwrap();
    let b = parse(&toks("context s { test u { x } }")).unwrap();
    assert_eq!(a, b);
}

#[test]
fn second_setup_is_duplicate_hook() {
    let err = parse_error("describe s { before { a } it u { } before { b } }");
    assert_eq!(err, ParseError { kind: ErrorKind::DuplicateHook, at: 11 });
}

#[test]
fn second_teardown_is_duplicate_hook() {
    let err = parse_error("after { a } after { b }");
    assert_eq!(err, ParseError { kind: ErrorKind::DuplicateHook, at: 4 });
}

#[test]
fn hooks_of_sibling_scopes_are_not_duplicates() {
    let out = expand_src("describe a { before { x } it t { } } describe b { before { y } it u { } }");
    assert_eq!(out, vec![module("a", vec![test_item("t", "x")]), module("b", vec![test_item("u", "y")])]);
}

#[test]
fn scope_signature_reaches_nested_units() {
    let out = expand_src("describe r -> Result < ( ) , E > { it a { Ok ( ( ) ) } describe n { it b { } } }");
    let sig = Signature { ret: toks("Result < ( ) , E >"), is_async: false };
    match &out[0] {
        Item::Module { items, .. } => {
            match &items[0] {
                Item::Test { sig: s, .. } => assert_eq!(s.as_ref(), Some(&sig)),
                other => panic!("unexpected item {:?}", other),
            }
            match &items[1] {
                Item::Module { items: inner, .. } => match &inner[0] {
                    Item::Test { sig: s, .. } => assert_eq!(s.as_ref(), Some(&sig)),
                    other => panic!("unexpected item {:?}", other),
                },
                other => panic!("unexpected item {:?}", other),
            }
        }
        other => panic!("unexpected item {:?}", other),
    }
}

#[test]
fn unit_signature_overrides_scope_signature() {
    let out = expand_src("describe r -> u8 { it a -> u16 async { 1 } it b { 2 } }");
    let expected = vec![module(
        "r",
        vec![
            Item::Test {
                name: "a".to_string(),
                attrs: vec![],
                sig: Some(Signature { ret: toks("u16"), is_async: true }),
                body: toks("1"),
            },
            Item::Test {
                name: "b".to_string(),
                attrs: vec![],
                sig: Some(Signature { ret: toks("u8"), is_async: false }),
                body: toks("2"),
            },
        ],
    )];
    assert_eq!(out, expected);
}

#[test]
fn attributes_stay_on_their_own_node() {
    let out = expand_src("# [ ignore ] describe s { # [ should_panic ] it a { } it b { } }");
    let expected = vec![Item::Module {
        name: "s".to_string(),
        attrs: vec![toks("# [ ignore ]")],
        items: vec![
            Item::Test { name: "a".to_string(), attrs: vec![toks("# [ should_panic ]")], sig: None, body: vec![] },
            Item::Test { name: "b".to_string(), attrs: vec![], sig: None, body: vec![] },
        ],
    }];
    assert_eq!(out, expected);
}

#[test]
fn empty_scope_gives_empty_module() {
    let root = parse(&toks("describe outer { describe inner { } }")).unwrap();
    assert_eq!(
        root,
        Root {
            children: vec![Block::Scope {
                name: "outer".to_string(),
                attrs: vec![],
                sig: None,
                children: vec![Block::Scope { name: "inner".to_string(), attrs: vec![], sig: None, children: vec![] }],
            }],
        }
    );
    assert_eq!(generate(&root), vec![module("outer", vec![module("inner", vec![])])]);
}

#[test]
fn empty_input_gives_nothing() {
    assert_eq!(expand_src(""), vec![]);
}

#[test]
fn unknown_keyword_is_unexpected() {
    assert_eq!(parse_error("describe s { check u { } }"), ParseError { kind: ErrorKind::UnexpectedToken, at: 3 });
}

#[test]
fn missing_body_is_unexpected_at_end() {
    assert_eq!(parse_error("describe s"), ParseError { kind: ErrorKind::UnexpectedToken, at: 2 });
}

#[test]
fn unclosed_scope_is_unterminated() {
    assert_eq!(parse_error("describe s { it u { }"), ParseError { kind: ErrorKind::UnterminatedBlock, at: 2 });
}

#[test]
fn mismatched_close_is_unexpected() {
    assert_eq!(parse_error("it u { ( ] }"), ParseError { kind: ErrorKind::UnexpectedToken, at: 4 });
}

#[test]
fn missing_name_is_reported() {
    assert_eq!(parse_error("describe { }"), ParseError { kind: ErrorKind::MissingIdentifier, at: 1 });
    assert_eq!(parse_error("it"), ParseError { kind: ErrorKind::MissingIdentifier, at: 1 });
}

#[test]
fn empty_return_type_is_invalid_signature() {
    assert_eq!(parse_error("it u -> { }"), ParseError { kind: ErrorKind::InvalidSignature, at: 4 });
    assert_eq!(parse_error("it u -> async { }"), ParseError { kind: ErrorKind::InvalidSignature, at: 4 });
}

#[test]
fn attribute_on_hook_is_unexpected() {
    assert_eq!(parse_error("# [ x ] before { }"), ParseError { kind: ErrorKind::UnexpectedToken, at: 4 });
}

#[test]
fn hash_without_brackets_is_unexpected() {
    assert_eq!(parse_error("# it u { }"), ParseError { kind: ErrorKind::UnexpectedToken, at: 1 });
}

#[test]
fn type_with_groups_is_kept_whole() {
    let root = parse(&toks("it u -> [ u8 ; 4 ] { }")).unwrap();
    match &root.children[0] {
        Block::Unit { sig, .. } => {
            assert_eq!(sig.as_ref(), Some(&Signature { ret: toks("[ u8 ; 4 ]"), is_async: false }))
        }
        other => panic!("unexpected block {:?}", other),
    }
}

#[test]
fn nested_groups_in_body_are_kept() {
    let out = expand_src("it u { f ( { x } ) ; }");
    assert_eq!(out, vec![test_item("u", "f ( { x } ) ;")]);
}

#[test]
fn malformed_return_type_is_invalid_signature() {
    assert_eq!(parse_error("it u -> = { }"), ParseError { kind: ErrorKind::InvalidSignature, at: 4 });
    assert_eq!(parse_error("describe s -> Vec < { }"), ParseError { kind: ErrorKind::InvalidSignature, at: 4 });
}

#[test]
fn keyword_name_is_missing_identifier() {
    assert_eq!(parse_error("describe fn { }"), ParseError { kind: ErrorKind::MissingIdentifier, at: 1 });
    assert_eq!(parse_error("it _ { }"), ParseError { kind: ErrorKind::MissingIdentifier, at: 1 });
}

#[test]
fn reference_and_async_signature_is_accepted() {
    let root = parse(&toks("it u -> & 'static str async { }")).unwrap();
    match &root.children[0] {
        Block::Unit { sig, .. } => {
            assert_eq!(sig.as_ref(), Some(&Signature { ret: toks("& 'static str"), is_async: true }))
        }
        other => panic!("unexpected block {:?}", other),
    }
}
