use jasp::ast::Ast;
use jasp::compiler::{Compiler, Error};
use jasp::es::{BinaryOp, Es, ImportSpecifier, SourceType, UnaryOp, Value};
use jasp::jasp_parser::parse;

fn std_member(name: &str) -> Es {
    Es::member_expr(Es::identifier("std"), Es::identifier(name))
}

fn compile_one(ast: Ast) -> Result<Es, Error> {
    let mut compiler = Compiler::new();
    match compiler.compile_ast(vec![ast])? {
        Es::Program { mut body, .. } => {
            assert_eq!(body.len(), 2);
            match body.pop().unwrap() {
                Es::ExpressionStatement { expression } => Ok(*expression),
                other => panic!("a statement was expected, not {:?}", other),
            }
        }
        other => panic!("a program was expected, not {:?}", other),
    }
}

fn compile_text(source: &str) -> Result<Es, Error> {
    let mut lines = parse(source).unwrap();
    assert_eq!(lines.len(), 1);
    compile_one(lines.pop().unwrap())
}

#[test]
fn keyword_hands_its_fields_on() {
    let keyword = Ast::Keyword {
        module: "m".to_string(),
        name: "k".to_string(),
        full_name: "m/k".to_string(),
        hash_code: 42,
    };
    assert_eq!(
        compile_one(keyword),
        Ok(Es::new_expr(
            std_member("Keyword"),
            vec![
                Es::string_literal("m"),
                Es::string_literal("k"),
                Es::int_literal(42),
                Es::string_literal("m/k"),
            ]
        ))
    );
}

#[test]
fn keyword_of_a_module_has_its_hash() {
    assert_eq!(
        Ast::keyword("m", "k"),
        Ast::Keyword {
            module: "m".to_string(),
            name: "k".to_string(),
            full_name: "m/k".to_string(),
            hash_code: 626181472256,
        }
    );
    assert_eq!(
        Ast::keyword("", "k"),
        Ast::Keyword {
            module: "".to_string(),
            name: "k".to_string(),
            full_name: "k".to_string(),
            hash_code: 1917146946044,
        }
    );
}

#[test]
fn identifier_hands_its_fields_on() {
    let identifier = Ast::Identifier {
        name: "foo".to_string(),
        hash_code: 7,
    };
    assert_eq!(
        compile_one(identifier),
        Ok(Es::new_expr(
            Es::member_expr(Es::identifier("\u{3a3}"), Es::identifier("Identifier")),
            vec![Es::string_literal("foo"), Es::int_literal(7)]
        ))
    );
    assert_eq!(
        Ast::identifier("foo"),
        Ast::Identifier {
            name: "foo".to_string(),
            hash_code: 2983086168356,
        }
    );
}

#[test]
fn literals_lower_to_literals() {
    assert_eq!(compile_one(Ast::Int(5)), Ok(Es::int_literal(5)));
    assert_eq!(
        compile_one(Ast::Float("1.5".to_string())),
        Ok(Es::float_literal("1.5"))
    );
    assert_eq!(
        compile_one(Ast::String("abc".to_string())),
        Ok(Es::string_literal("abc"))
    );
    assert_eq!(compile_one(Ast::Null), Ok(std_member("NULL")));
    assert_eq!(compile_one(Ast::Null), Ok(Es::null()));
    assert_eq!(
        compile_one(Ast::Undefined),
        Ok(Es::unary_expr(UnaryOp::Void, Es::int_literal(0)))
    );
    assert_eq!(compile_one(Ast::Undefined), Ok(Es::undefined()));
}

#[test]
fn plus_without_operands_is_zero() {
    assert_eq!(compile_text("(+ )"), Ok(Es::int_literal(0)));
    assert_eq!(compile_text("(-)"), Ok(Es::int_literal(0)));
}

#[test]
fn minus_on_one_operand_is_unary() {
    assert_eq!(
        compile_text("(- 5)"),
        Ok(Es::unary_expr(UnaryOp::Minus, Es::int_literal(5)))
    );
    assert_eq!(
        compile_text("(+ 5)"),
        Ok(Es::unary_expr(UnaryOp::Plus, Es::int_literal(5)))
    );
}

#[test]
fn plus_folds_from_the_left() {
    assert_eq!(
        compile_text("(+ 1 2 3)"),
        Ok(Es::binary_expr(
            BinaryOp::Plus,
            Es::binary_expr(BinaryOp::Plus, Es::int_literal(1), Es::int_literal(2)),
            Es::int_literal(3)
        ))
    );
}

#[test]
fn minus_folds_from_the_left() {
    assert_eq!(
        compile_text("(- 10 1 2)"),
        Ok(Es::binary_expr(
            BinaryOp::Minus,
            Es::binary_expr(BinaryOp::Minus, Es::int_literal(10), Es::int_literal(1)),
            Es::int_literal(2)
        ))
    );
    assert_eq!(
        compile_text("(- 10 1)"),
        Ok(Es::binary_expr(
            BinaryOp::Minus,
            Es::int_literal(10),
            Es::int_literal(1)
        ))
    );
}

#[test]
fn empty_list_is_an_empty_array() {
    assert_eq!(
        compile_text("()"),
        Ok(Es::ArrayExpression { elements: vec![] })
    );
}

#[test]
fn unbound_identifier_is_not_defined() {
    assert_eq!(
        compile_text("(foo 1 2)"),
        Err(Error::NotDefined {
            identifier: "foo".to_string()
        })
    );
    assert_eq!(
        compile_text("(quote 1)"),
        Err(Error::NotDefined {
            identifier: "quote".to_string()
        })
    );
}

#[test]
fn error_inside_fails_the_whole_module() {
    let mut compiler = Compiler::new();
    let lines = parse("(vec 1) (vec (foo)) (bar)").unwrap();
    assert_eq!(
        compiler.compile_ast(lines),
        Err(Error::NotDefined {
            identifier: "foo".to_string()
        })
    );
}

#[test]
fn vec_without_arguments_is_a_bare_call() {
    assert_eq!(
        compile_text("(vec)"),
        Ok(Es::call_expr(std_member("vecLiteral"), vec![]))
    );
}

#[test]
fn vec_hands_its_arguments_over_as_one_array() {
    let expected = Es::call_expr(
        std_member("vecLiteral"),
        vec![Es::ArrayExpression {
            elements: vec![Es::int_literal(1), Es::int_literal(2)],
        }],
    );
    assert_eq!(compile_text("(vec 1 2)"), Ok(expected));
    let expected = Es::call_expr(
        std_member("vecLiteral"),
        vec![Es::ArrayExpression {
            elements: vec![Es::int_literal(1), Es::int_literal(2)],
        }],
    );
    assert_eq!(compile_text("[1 2]"), Ok(expected));
}

#[test]
fn other_names_of_the_standard_library_are_called_directly() {
    assert_eq!(
        compile_text("(str 1 \"a\")"),
        Ok(Es::call_expr(
            std_member("str"),
            vec![Es::int_literal(1), Es::string_literal("a")]
        ))
    );
}

#[test]
fn bound_name_is_called_in_its_module() {
    let mut compiler = Compiler::new();
    assert!(!compiler.env_contains("area"));
    compiler.add_env("geometry", "area");
    assert!(compiler.env_contains("area"));
    let lines = parse("(area 2)").unwrap();
    let program = compiler.compile_ast(lines).unwrap();
    let expected = Es::call_expr(
        Es::member_expr(Es::identifier("geometry"), Es::identifier("area")),
        vec![Es::int_literal(2)],
    );
    match program {
        Es::Program { body, .. } => assert_eq!(body[1], expected.into_statement()),
        _ => unreachable!(),
    }
}

#[test]
fn later_binding_overwrites() {
    let mut compiler = Compiler::new();
    compiler.add_env("first", "f");
    compiler.add_env("second", "f");
    assert_eq!(compiler.lookup("f"), Some(&"second".to_string()));
    compiler.add_env("mine", "vec");
    assert_eq!(compiler.lookup("vec"), Some(&"mine".to_string()));
    assert_eq!(compiler.lookup("str"), Some(&"std".to_string()));
    assert_eq!(compiler.lookup("nothing"), None);
}

#[test]
fn new_compiler_knows_the_standard_library() {
    let compiler = Compiler::new();
    assert!(compiler.env_contains("vec"));
    assert!(compiler.env_contains("str"));
    assert!(!compiler.env_contains("quote"));
    assert!(!compiler.env_contains("+"));
    assert!(compiler.is_special_form("vec"));
    assert!(compiler.is_special_form("quote"));
    assert!(!compiler.is_special_form("str"));
}

#[test]
fn list_headed_by_a_list_is_a_call_of_it() {
    assert_eq!(
        compile_text("((vec) 1)"),
        Ok(Es::call_expr(
            Es::call_expr(std_member("vecLiteral"), vec![]),
            vec![Es::int_literal(1)]
        ))
    );
    assert_eq!(
        compile_text("(1 2)"),
        Ok(Es::call_expr(Es::int_literal(1), vec![Es::int_literal(2)]))
    );
}

#[test]
fn program_opens_with_the_import_of_the_standard_library() {
    let mut compiler = Compiler::new();
    let program = compiler.compile_ast(parse("1 (vec)").unwrap()).unwrap();
    let import = Es::ImportDeclaration {
        specifiers: vec![ImportSpecifier::Named {
            local: Es::Identifier {
                name: "std".to_string(),
            },
        }],
        source: Box::new(Es::Literal {
            value: Value::String("../std/std.js".to_string()),
        }),
    };
    assert_eq!(import, Es::import_as("std", "../std/std.js"));
    assert_eq!(
        program,
        Es::Program {
            source_type: SourceType::Module,
            body: vec![
                import,
                Es::ExpressionStatement {
                    expression: Box::new(Es::int_literal(1))
                },
                Es::ExpressionStatement {
                    expression: Box::new(Es::call_expr(std_member("vecLiteral"), vec![]))
                },
            ],
        }
    );
}

#[test]
fn empty_module_is_the_import_alone() {
    let mut compiler = Compiler::new();
    match compiler.compile_ast(vec![]).unwrap() {
        Es::Program { body, .. } => assert_eq!(body, vec![Es::import_as("std", "../std/std.js")]),
        _ => unreachable!(),
    }
}

#[test]
fn expressions_and_statements() {
    assert!(Es::identifier("a").is_expression());
    assert!(Es::int_literal(1).is_expression());
    assert!(Es::null().is_expression());
    assert!(Es::undefined().is_expression());
    assert!(Es::new_expr(Es::identifier("a"), vec![]).is_expression());
    assert!(Es::call_expr(Es::identifier("a"), vec![]).is_expression());
    assert!(Es::binary_expr(BinaryOp::Plus, Es::int_literal(1), Es::int_literal(2)).is_expression());
    assert!(Es::ArrayExpression { elements: vec![] }.is_expression());
    let import = Es::import_as("std", "x");
    assert!(!import.is_expression());
    let statement = Es::int_literal(1).into_statement();
    assert!(!statement.is_expression());
    assert_eq!(
        statement,
        Es::ExpressionStatement {
            expression: Box::new(Es::int_literal(1))
        }
    );
    assert_eq!(
        Es::import_as("std", "x").into_statement(),
        Es::import_as("std", "x")
    );
    let program = Es::Program {
        source_type: SourceType::Module,
        body: vec![],
    };
    assert!(!program.is_expression());
}

#[test]
fn keyword_is_copied_even_where_its_fields_disagree() {
    let compiler = Compiler::new();
    let keyword = Ast::Keyword {
        module: "m".to_string(),
        name: "k".to_string(),
        full_name: "other".to_string(),
        hash_code: -7,
    };
    assert_eq!(
        compiler.expr(&keyword),
        Ok(Es::new_expr(
            std_member("Keyword"),
            vec![
                Es::string_literal("m"),
                Es::string_literal("k"),
                Es::int_literal(-7),
                Es::string_literal("other"),
            ]
        ))
    );
}
