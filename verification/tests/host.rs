use jasp::ast::{array_to_ast, Ast, Error, HostIdentifier, HostKeyword, HostValue};
use jasp::compiler::{self, Compiler};
use jasp::es::Es;

fn nothing() -> HostValue {
    HostValue {
        is_null: false,
        is_undefined: false,
        safe_integer: None,
        number: None,
        string: None,
        array: None,
        keyword: None,
        identifier: None,
    }
}

fn integer(n: i64) -> HostValue {
    HostValue {
        safe_integer: Some(n),
        number: Some(n.to_string()),
        ..nothing()
    }
}

fn array(items: Vec<HostValue>) -> HostValue {
    HostValue {
        array: Some(items),
        ..nothing()
    }
}

fn identifier(name: &str, hash_code: i64) -> HostValue {
    HostValue {
        identifier: Some(HostIdentifier {
            name: name.to_string(),
            hash_code,
        }),
        ..nothing()
    }
}

#[test]
fn each_shape_has_its_node() {
    let null = HostValue {
        is_null: true,
        ..nothing()
    };
    assert_eq!(Ast::try_from(&null), Ok(Ast::Null));
    let undefined = HostValue {
        is_undefined: true,
        ..nothing()
    };
    assert_eq!(Ast::try_from(&undefined), Ok(Ast::Undefined));
    assert_eq!(Ast::try_from(&integer(7)), Ok(Ast::Int(7)));
    let number = HostValue {
        number: Some("1.5".to_string()),
        ..nothing()
    };
    assert_eq!(Ast::try_from(&number), Ok(Ast::Float("1.5".to_string())));
    let string = HostValue {
        string: Some("abc".to_string()),
        ..nothing()
    };
    assert_eq!(Ast::try_from(&string), Ok(Ast::String("abc".to_string())));
    let keyword = HostValue {
        keyword: Some(HostKeyword {
            module: "m".to_string(),
            name: "k".to_string(),
            full_name: "m/k".to_string(),
            hash_code: 9,
        }),
        ..nothing()
    };
    assert_eq!(
        Ast::try_from(&keyword),
        Ok(Ast::Keyword {
            module: "m".to_string(),
            name: "k".to_string(),
            full_name: "m/k".to_string(),
            hash_code: 9,
        })
    );
    assert_eq!(
        Ast::try_from(&identifier("foo", 3)),
        Ok(Ast::Identifier {
            name: "foo".to_string(),
            hash_code: 3,
        })
    );
}

#[test]
fn probes_count_in_their_order() {
    let everything = HostValue {
        is_null: true,
        is_undefined: true,
        safe_integer: Some(1),
        number: Some("1".to_string()),
        string: Some("s".to_string()),
        array: Some(vec![]),
        keyword: Some(HostKeyword {
            module: "".to_string(),
            name: "k".to_string(),
            full_name: "k".to_string(),
            hash_code: 0,
        }),
        identifier: Some(HostIdentifier {
            name: "i".to_string(),
            hash_code: 0,
        }),
    };
    assert_eq!(Ast::try_from(&everything), Ok(Ast::Null));
    let mut value = everything;
    value.is_null = false;
    assert_eq!(Ast::try_from(&value), Ok(Ast::Undefined));
    value.is_undefined = false;
    assert_eq!(Ast::try_from(&value), Ok(Ast::Int(1)));
    value.safe_integer = None;
    assert_eq!(Ast::try_from(&value), Ok(Ast::Float("1".to_string())));
    value.number = None;
    assert_eq!(Ast::try_from(&value), Ok(Ast::String("s".to_string())));
    value.string = None;
    assert_eq!(Ast::try_from(&value), Ok(Ast::List(vec![])));
    value.array = None;
    assert!(matches!(Ast::try_from(&value), Ok(Ast::Keyword { .. })));
    value.keyword = None;
    assert!(matches!(Ast::try_from(&value), Ok(Ast::Identifier { .. })));
    value.identifier = None;
    assert_eq!(Ast::try_from(&value), Err(Error::UnknownData(nothing())));
}

#[test]
fn array_converts_item_by_item() {
    let value = array(vec![integer(1), array(vec![integer(2)]), identifier("a", 5)]);
    assert_eq!(
        Ast::try_from(&value),
        Ok(Ast::List(vec![
            Ast::Int(1),
            Ast::List(vec![Ast::Int(2)]),
            Ast::Identifier {
                name: "a".to_string(),
                hash_code: 5
            },
        ]))
    );
    assert_eq!(
        array_to_ast(&vec![integer(1), integer(2)]),
        Ok(vec![Ast::Int(1), Ast::Int(2)])
    );
    assert_eq!(array_to_ast(&vec![]), Ok(vec![]));
}

#[test]
fn first_unknown_item_fails_the_array() {
    let odd = HostValue {
        string: None,
        ..nothing()
    };
    let value = array(vec![integer(1), array(vec![odd]), nothing()]);
    assert_eq!(Ast::try_from(&value), Err(Error::UnknownData(nothing())));
    let marked = array(vec![array(vec![])]);
    let first = array(vec![integer(1), nothing(), marked]);
    assert_eq!(Ast::try_from(&first), Err(Error::UnknownData(nothing())));
}

#[test]
fn copy_is_equal_to_the_value() {
    let value = array(vec![integer(1), array(vec![identifier("a", 5)]), nothing()]);
    assert_eq!(value.duplicate(), value);
    assert_eq!(value.clone(), value);
}

#[test]
fn host_list_compiles_as_a_module() {
    let plus = identifier("+", 1230676765241);
    let module = array(vec![array(vec![plus, integer(1), integer(2)])]);
    let mut compiler = Compiler::new();
    let mut by_text = Compiler::new();
    let lines = jasp::jasp_parser::parse("(+ 1 2)").unwrap();
    assert_eq!(
        compiler.compile(&module).unwrap(),
        by_text.compile_ast(lines).unwrap()
    );
}

#[test]
fn host_value_that_is_no_list_is_a_syntax_error() {
    let mut compiler = Compiler::new();
    assert_eq!(
        compiler.compile(&integer(1)),
        Err(compiler::Error::SyntaxError {
            message: "a module is a list of forms".to_string()
        })
    );
}

#[test]
fn unknown_host_value_is_an_ast_error() {
    let mut compiler = Compiler::new();
    assert_eq!(
        compiler.compile(&array(vec![nothing()])),
        Err(compiler::Error::AstError(Error::UnknownData(nothing())))
    );
    assert_eq!(
        compiler::Error::from(Error::UnknownData(nothing())),
        compiler::Error::AstError(Error::UnknownData(nothing()))
    );
    assert!(matches!(
        compiler.compile(&array(vec![])),
        Ok(Es::Program { .. })
    ));
}
