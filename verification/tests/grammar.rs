use jasp::ast::Ast;
use jasp::grammar::{parse_module, parse_rule, ErrorKind, ParseError, Rule};
use jasp::jasp_parser::{parse, JaspParser};
use jasp::number::{is_float, parse_i64};
use jasp::util::hash_cyrb53;

#[test]
fn module_of_nothing_has_no_lines() {
    assert_eq!(parse(""), Ok(vec![]));
    assert_eq!(parse("  \n\t ; only a comment"), Ok(vec![]));
}

#[test]
fn literals_parse_to_their_nodes() {
    assert_eq!(
        parse("1234 -5 1234.1234 \"foo bar? foo.\""),
        Ok(vec![
            Ast::Int(1234),
            Ast::Int(-5),
            Ast::Float("1234.1234".to_string()),
            Ast::String("foo bar? foo.".to_string()),
        ])
    );
}

#[test]
fn symbol_is_an_identifier_with_the_hash_of_its_name() {
    assert_eq!(
        parse("foo-bar?"),
        Ok(vec![Ast::Identifier {
            name: "foo-bar?".to_string(),
            hash_code: 2610055659036,
        }])
    );
    assert_eq!(parse("==="), Ok(vec![Ast::identifier("===")]));
}

#[test]
fn keyword_has_no_module_and_the_hash_of_its_name() {
    assert_eq!(
        parse(":k"),
        Ok(vec![Ast::Keyword {
            module: "".to_string(),
            name: "k".to_string(),
            full_name: "k".to_string(),
            hash_code: hash_cyrb53("k"),
        }])
    );
}

#[test]
fn list_keeps_its_items_in_order() {
    assert_eq!(
        parse("(foo :bar \"baz\")"),
        Ok(vec![Ast::List(vec![
            Ast::identifier("foo"),
            Ast::keyword("", "bar"),
            Ast::String("baz".to_string()),
        ])])
    );
    assert_eq!(parse("()"), Ok(vec![Ast::List(vec![])]));
}

#[test]
fn vector_is_a_call_of_vec() {
    assert_eq!(
        parse("[1 2]"),
        Ok(vec![Ast::List(vec![
            Ast::identifier("vec"),
            Ast::Int(1),
            Ast::Int(2)
        ])])
    );
}

#[test]
fn object_is_a_call_of_object() {
    assert_eq!(
        parse("{:a 1}"),
        Ok(vec![Ast::List(vec![
            Ast::identifier("object"),
            Ast::keyword("", "a"),
            Ast::Int(1)
        ])])
    );
}

#[test]
fn quote_mark_is_a_call_of_quote() {
    assert_eq!(
        parse("'(a)"),
        Ok(vec![Ast::List(vec![
            Ast::identifier("quote"),
            Ast::List(vec![Ast::identifier("a")])
        ])])
    );
}

#[test]
fn nesting_and_comments() {
    let source = "(def a (+ 1 2)) ; first\n\n(def c\n  {:ab (if (=== a b) a b)})";
    let lines = parse(source).unwrap();
    assert_eq!(lines.len(), 2);
    assert_eq!(
        lines[0],
        Ast::List(vec![
            Ast::identifier("def"),
            Ast::identifier("a"),
            Ast::List(vec![Ast::identifier("+"), Ast::Int(1), Ast::Int(2)]),
        ])
    );
}

#[test]
fn alternatives_are_tried_in_order() {
    assert_eq!(
        parse("12abc"),
        Ok(vec![Ast::Int(12), Ast::identifier("abc")])
    );
    assert_eq!(parse("-"), Ok(vec![Ast::identifier("-")]));
    assert_eq!(parse("-x"), Ok(vec![Ast::identifier("-x")]));
    assert_eq!(
        parse("1.x"),
        Ok(vec![Ast::Int(1), Ast::identifier(".x")])
    );
}

#[test]
fn trailing_content_is_a_syntax_error() {
    assert_eq!(
        parse("(a b) )"),
        Err(ParseError {
            kind: ErrorKind::Syntax,
            start: 6,
            end: 7
        })
    );
}

#[test]
fn unclosed_list_is_a_syntax_error() {
    assert_eq!(
        parse("1 (a b"),
        Err(ParseError {
            kind: ErrorKind::Syntax,
            start: 2,
            end: 6
        })
    );
    assert_eq!(parse("\"abc").unwrap_err().kind, ErrorKind::Syntax);
}

#[test]
fn set_literal_is_not_in_this_dialect() {
    assert_eq!(
        parse("#{1}"),
        Err(ParseError {
            kind: ErrorKind::Syntax,
            start: 0,
            end: 4
        })
    );
    assert!(parse_module("#{1}", true).is_ok());
}

#[test]
fn integer_without_a_value_is_malformed_with_its_span() {
    assert_eq!(
        parse("(a 99999999999999999999)"),
        Err(ParseError {
            kind: ErrorKind::MalformedNumber,
            start: 3,
            end: 23
        })
    );
    assert_eq!(
        parse("-9223372036854775808"),
        Ok(vec![Ast::Int(i64::MIN)])
    );
    assert_eq!(
        parse("9223372036854775807"),
        Ok(vec![Ast::Int(i64::MAX)])
    );
}

#[test]
fn positions_count_characters() {
    let node = parse_module("\u{3a3}\u{3a3} )", false).unwrap_err();
    assert_eq!((node.start, node.end), (3, 4));
}

#[test]
fn parse_tree_of_a_module() {
    let module = parse_module("(a 1)", false).unwrap();
    assert_eq!(module.rule, Rule::Module);
    assert_eq!((module.start, module.end), (0, 5));
    assert_eq!(module.children.len(), 2);
    assert_eq!(module.children[1].rule, Rule::EOI);
    let expr = &module.children[0];
    assert_eq!(expr.rule, Rule::Expr);
    let list = &expr.children[0];
    assert_eq!(list.rule, Rule::List);
    assert_eq!((list.start, list.end), (0, 5));
    assert_eq!(list.children.len(), 2);
    let symbol = &list.children[0].children[0];
    assert_eq!(symbol.rule, Rule::Symbol);
    assert_eq!(symbol.text, "a");
    assert_eq!((symbol.start, symbol.end), (1, 2));
}

#[test]
fn rule_matches_a_prefix() {
    let node = parse_rule(Rule::Integer, "12 rest", false).unwrap();
    assert_eq!((node.start, node.end), (0, 2));
    assert_eq!(node.text, "12");
    assert!(parse_rule(Rule::Integer, "x", false).is_err());
    assert!(parse_rule(Rule::List, "[1]", false).is_err());
    assert!(parse_rule(Rule::Vector, "[1]", false).is_ok());
    assert!(parse_rule(Rule::EOI, "", false).is_ok());
    assert!(parse_rule(Rule::EOI, "x", false).is_err());
    assert_eq!(parse_rule(Rule::Inner, "ab\"c", false).unwrap().text, "ab");
    assert_eq!(parse_rule(Rule::Name, "ab:c", false).unwrap().text, "ab");
}

#[test]
fn reducers_take_nodes_of_their_rule() {
    let node = JaspParser::parse(Rule::Integer, "1234").unwrap();
    assert_eq!(JaspParser::integer(&node), Ok(Ast::Int(1234)));
    let node = JaspParser::parse(Rule::Float, "1234.1234").unwrap();
    assert_eq!(
        JaspParser::float(&node),
        Ok(Ast::Float("1234.1234".to_string()))
    );
    let node = JaspParser::parse(Rule::Symbol, "abc").unwrap();
    assert_eq!(
        JaspParser::float(&node).unwrap_err().kind,
        ErrorKind::MalformedNumber
    );
    assert_eq!(
        JaspParser::expr(&node).unwrap_err().kind,
        ErrorKind::UnexpectedNode
    );
    let node = JaspParser::parse(Rule::Module, "1 2").unwrap();
    assert_eq!(
        JaspParser::module(&node),
        Ok(vec![Ast::Int(1), Ast::Int(2)])
    );
}

#[test]
fn decimal_integers() {
    assert_eq!(parse_i64("0"), Some(0));
    assert_eq!(parse_i64("+17"), Some(17));
    assert_eq!(parse_i64("-17"), Some(-17));
    assert_eq!(parse_i64("0000000000000000000000012"), Some(12));
    assert_eq!(parse_i64(""), None);
    assert_eq!(parse_i64("-"), None);
    assert_eq!(parse_i64("1a"), None);
    assert_eq!(parse_i64("9223372036854775808"), None);
    assert_eq!(parse_i64("-9223372036854775809"), None);
    assert_eq!(parse_i64("340282366920938463463374607431768211456"), None);
}

#[test]
fn float_texts() {
    assert!(is_float("1.5"));
    assert!(is_float("-0.25"));
    assert!(!is_float("1."));
    assert!(!is_float(".5"));
    assert!(!is_float("1.5x"));
    assert!(!is_float("15"));
}

#[test]
fn written_out_tree_parses_to_the_tree() {
    let sugared = parse("[1 -2] {:a \"b\"} '(f 1.5)").unwrap();
    let written = "(vec 1 -2 ) (object :a \"b\" ) (quote (f 1.5 ) ) ";
    assert_eq!(parse(written), Ok(sugared));
    assert_eq!(parse("() "), Ok(vec![Ast::List(vec![])]));
}
