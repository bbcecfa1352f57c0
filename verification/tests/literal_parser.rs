use jasp::grammar::{ErrorKind, Rule};
use jasp::parser::{Ast, JaspParser};

#[test]
fn test_integer() {
    let node = JaspParser::parse(Rule::Integer, "1234").unwrap();
    let result = JaspParser::integer(&node);
    assert_eq!(result, Ok(Ast::Integer(1234)))
}

#[test]
fn test_float() {
    let node = JaspParser::parse(Rule::Float, "1234.1234").unwrap();
    let result = JaspParser::float(&node);
    assert_eq!(result, Ok(Ast::Float("1234.1234")));
    match result {
        Ok(Ast::Float(text)) => assert_eq!(text.parse::<f64>(), Ok(1234.1234)),
        _ => unreachable!(),
    }
}

#[test]
fn test_string() {
    let node = JaspParser::parse(Rule::String, "\"foo bar? foo.\"").unwrap();
    let result = JaspParser::string(&node);
    assert_eq!(result, Ok(Ast::String("foo bar? foo.")))
}

#[test]
fn test_symbol() {
    let node = JaspParser::parse(Rule::Symbol, "foo-bar?").unwrap();
    let result = JaspParser::symbol(&node);
    assert_eq!(result, Ok(Ast::Symbol("foo-bar?")))
}

#[test]
fn test_atom() {
    let node = JaspParser::parse(Rule::Keyword, ":foo-bar?").unwrap();
    let result = JaspParser::atom(&node);
    assert_eq!(result, Ok(Ast::Atom("foo-bar?")))
}

#[test]
fn test_expr() {
    let node = JaspParser::parse(Rule::Expr, ":foo-bar?").unwrap();
    let result = JaspParser::expr(&node);
    assert_eq!(result, Ok(Ast::Atom("foo-bar?")))
}

#[test]
fn test_list() {
    let node = JaspParser::parse(Rule::List, "(foo :bar \"baz\")").unwrap();
    let result = JaspParser::list(&node);
    assert_eq!(
        result,
        Ok(Ast::List(vec![
            Ast::Symbol("foo"),
            Ast::Atom("bar"),
            Ast::String("baz"),
        ]))
    )
}

#[test]
fn test_vector() {
    let node = JaspParser::parse(Rule::Vector, "[foo :bar \"baz\"]").unwrap();
    let result = JaspParser::vector(&node);
    assert_eq!(
        result,
        Ok(Ast::Vector(vec![
            Ast::Symbol("foo"),
            Ast::Atom("bar"),
            Ast::String("baz"),
        ]))
    )
}

#[test]
fn test_map() {
    let node = JaspParser::parse(Rule::Object, "{:foo :bar}").unwrap();
    let result = JaspParser::map(&node);
    assert_eq!(
        result,
        Ok(Ast::MapLiteral(vec![(Ast::Atom("foo"), Ast::Atom("bar"))]))
    )
}

#[test]
fn test_set() {
    let node = JaspParser::parse(Rule::SetLiteral, "#{:foo :bar}").unwrap();
    let result = JaspParser::set(&node);
    assert_eq!(
        result,
        Ok(Ast::SetLiteral(vec![Ast::Atom("foo"), Ast::Atom("bar")]))
    )
}

#[test]
fn map_drops_an_entry_without_a_value() {
    let node = JaspParser::parse(Rule::Object, "{:a 1 :b}").unwrap();
    assert_eq!(
        JaspParser::map(&node),
        Ok(Ast::MapLiteral(vec![(Ast::Atom("a"), Ast::Integer(1))]))
    );
}

#[test]
fn quoted_expression_is_a_node_of_its_own() {
    let node = JaspParser::parse(Rule::Quoted, "'(a 1)").unwrap();
    assert_eq!(
        JaspParser::quoted(&node),
        Ok(Ast::Quoted(Box::new(Ast::List(vec![
            Ast::Symbol("a"),
            Ast::Integer(1)
        ]))))
    );
}

#[test]
fn literal_module_holds_every_line() {
    let node = JaspParser::parse(Rule::Module, "(def a 1) ; one\n#{a} [1.5]").unwrap();
    let lines = JaspParser::module(&node).unwrap();
    assert_eq!(
        lines,
        vec![
            Ast::List(vec![Ast::Symbol("def"), Ast::Symbol("a"), Ast::Integer(1)]),
            Ast::SetLiteral(vec![Ast::Symbol("a")]),
            Ast::Vector(vec![Ast::Float("1.5")]),
        ]
    );
}

#[test]
fn integer_out_of_range_is_malformed() {
    let node = JaspParser::parse(Rule::Integer, "9223372036854775808").unwrap();
    let error = JaspParser::integer(&node).unwrap_err();
    assert_eq!(error.kind, ErrorKind::MalformedNumber);
    assert_eq!((error.start, error.end), (0, 19));
}

#[test]
fn node_of_another_shape_is_unexpected() {
    let node = JaspParser::parse(Rule::Symbol, "abc").unwrap();
    let error = JaspParser::expr(&node).unwrap_err();
    assert_eq!(error.kind, ErrorKind::UnexpectedNode);
    let error = JaspParser::module(&node).unwrap_err();
    assert_eq!(error.kind, ErrorKind::UnexpectedNode);
}
