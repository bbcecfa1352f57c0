use jasp::es::{BinaryOp, Es, UnaryOp};
use jasp::estree::{
    are_expressible, ast_to_js, is_expressible, lisp_to_js, BinaryOperator, Js, PropertyKind,
    SourceType, UnaryOperator, Value, VariableKind,
};
use jasp::grammar::Rule;
use jasp::parser::{Ast, JaspParser};

fn number(n: i64) -> Js {
    Js::Literal {
        value: Value::Int(n),
    }
}

fn name(text: &str) -> Js {
    Js::Identifier {
        name: text.to_string(),
    }
}

fn binary(operator: BinaryOperator, left: Js, right: Js) -> Js {
    Js::BinaryExpression {
        operator,
        left: Box::new(left),
        right: Box::new(right),
    }
}

fn statement(expression: Js) -> Js {
    Js::ExpressionStatement {
        expression: Box::new(expression),
    }
}

fn render(source: &str) -> Js {
    let node = JaspParser::parse(Rule::Expr, source).unwrap();
    let ast = JaspParser::expr(&node).unwrap();
    assert!(is_expressible(&ast));
    ast_to_js(&ast)
}

#[test]
fn unary_operators_by_their_spelling() {
    for spelling in ["void", "+", "-", "!", "~", "typeof", "delete"] {
        assert!(UnaryOperator::is(spelling));
    }
    for spelling in ["", "*", "voids", "not", "++"] {
        assert!(!UnaryOperator::is(spelling));
    }
    assert_eq!(UnaryOperator::from("void"), UnaryOperator::Void);
    assert_eq!(UnaryOperator::from("+"), UnaryOperator::Plus);
    assert_eq!(UnaryOperator::from("-"), UnaryOperator::Minus);
    assert_eq!(UnaryOperator::from("!"), UnaryOperator::Negation);
    assert_eq!(UnaryOperator::from("~"), UnaryOperator::BitwiseNot);
    assert_eq!(UnaryOperator::from("typeof"), UnaryOperator::Typeof);
    assert_eq!(UnaryOperator::from("delete"), UnaryOperator::Delete);
}

#[test]
fn binary_operators_by_their_spelling() {
    let all = [
        ("==", BinaryOperator::LegacyEquals),
        ("!=", BinaryOperator::LegacyNotEquals),
        ("===", BinaryOperator::Equals),
        ("!==", BinaryOperator::NotEquals),
        ("<", BinaryOperator::LessThan),
        ("<=", BinaryOperator::LessEq),
        (">", BinaryOperator::MoreThan),
        (">=", BinaryOperator::MoreEq),
        ("<<", BinaryOperator::LeftShift),
        (">>", BinaryOperator::SignedRightShift),
        (">>>", BinaryOperator::RightShift),
        ("+", BinaryOperator::Plus),
        ("-", BinaryOperator::Minus),
        ("*", BinaryOperator::Multiply),
        ("/", BinaryOperator::Divide),
        ("%", BinaryOperator::Modulus),
        ("|", BinaryOperator::Or),
        ("^", BinaryOperator::Xor),
        ("&", BinaryOperator::And),
    ];
    for (spelling, operator) in all {
        assert!(BinaryOperator::is(spelling));
        assert_eq!(BinaryOperator::from(spelling), operator);
    }
    assert!(!BinaryOperator::is("~"));
    assert_eq!(BinaryOperator::from("~"), BinaryOperator::Not);
    for spelling in ["", "in", "=", "&&", ">>>>"] {
        assert!(!BinaryOperator::is(spelling));
    }
}

#[test]
fn literals_and_names() {
    assert_eq!(render("12"), number(12));
    assert_eq!(
        render("1.5"),
        Js::Literal {
            value: Value::Float("1.5".to_string())
        }
    );
    assert_eq!(
        render("\"abc\""),
        Js::Literal {
            value: Value::String("abc".to_string())
        }
    );
    assert_eq!(
        render(":abc"),
        Js::Literal {
            value: Value::String("abc".to_string())
        }
    );
    assert_eq!(render("abc"), name("abc"));
}

#[test]
fn collections() {
    assert_eq!(
        render("[1 a]"),
        Js::ArrayExpression {
            elements: vec![number(1), name("a")]
        }
    );
    assert_eq!(
        render("#{1 2}"),
        Js::NewExpression {
            callee: Box::new(name("Set")),
            arguments: vec![Js::ArrayExpression {
                elements: vec![number(1), number(2)]
            }],
        }
    );
    assert_eq!(
        render("{:a 1}"),
        Js::ObjectExpression {
            properties: vec![Js::Property {
                method: false,
                shorthand: false,
                computed: false,
                key: Box::new(Js::Literal {
                    value: Value::String("a".to_string())
                }),
                value: Box::new(number(1)),
                kind: PropertyKind::Init,
            }]
        }
    );
}

#[test]
fn empty_list_is_void_zero() {
    assert_eq!(
        render("()"),
        statement(Js::UnaryExpression {
            operator: UnaryOperator::Void,
            prefix: true,
            argument: Box::new(number(0)),
        })
    );
}

#[test]
fn let_declares_a_constant() {
    assert_eq!(
        render("(let a 1)"),
        Js::VariableDeclaration {
            kind: VariableKind::Const,
            declarations: vec![Js::VariableDeclarator {
                id: Box::new(name("a")),
                init: Some(Box::new(number(1))),
            }],
        }
    );
    assert_eq!(
        render("(let 1 2)"),
        Js::CallExpression {
            callee: Box::new(name("let")),
            arguments: vec![number(1), number(2)],
            optional: false,
        }
    );
}

#[test]
fn if_is_a_conditional() {
    assert_eq!(
        render("(if t 1 2)"),
        Js::ConditionalExpression {
            test: Box::new(name("t")),
            consequent: Box::new(number(1)),
            alternate: Box::new(number(2)),
        }
    );
}

#[test]
fn named_function_returns_its_last_expression() {
    assert_eq!(
        render("(fn f [x y] (g x) y)"),
        Js::FunctionExpression {
            id: Some(Box::new(name("f"))),
            params: vec![name("x"), name("y")],
            body: Box::new(Js::BlockStatement {
                body: vec![
                    Js::CallExpression {
                        callee: Box::new(name("g")),
                        arguments: vec![name("x")],
                        optional: false,
                    },
                    Js::ReturnStatement {
                        argument: Box::new(name("y"))
                    },
                ]
            }),
            expression: false,
            generator: false,
            is_async: false,
        }
    );
}

#[test]
fn arrow_function_returns_its_last_expression() {
    assert_eq!(
        render("(fn [x] x)"),
        Js::ArrowFunctionExpression {
            id: None,
            params: vec![name("x")],
            body: Box::new(Js::BlockStatement {
                body: vec![Js::ReturnStatement {
                    argument: Box::new(name("x"))
                }]
            }),
            expression: false,
            generator: false,
            is_async: false,
        }
    );
    assert_eq!(
        render("(fn [x])"),
        Js::CallExpression {
            callee: Box::new(name("fn")),
            arguments: vec![Js::ArrayExpression {
                elements: vec![name("x")]
            }],
            optional: false,
        }
    );
}

#[test]
fn operator_on_one_operand() {
    assert_eq!(
        render("(- 5)"),
        Js::UnaryExpression {
            operator: UnaryOperator::Minus,
            prefix: true,
            argument: Box::new(number(5)),
        }
    );
    assert_eq!(
        render("(typeof a)"),
        Js::UnaryExpression {
            operator: UnaryOperator::Typeof,
            prefix: true,
            argument: Box::new(name("a")),
        }
    );
    assert_eq!(render("(* 5)"), number(5));
}

#[test]
fn operator_folds_from_the_left() {
    assert_eq!(
        render("(- 10 1 2)"),
        binary(
            BinaryOperator::Minus,
            binary(BinaryOperator::Minus, number(10), number(1)),
            number(2)
        )
    );
    assert_eq!(
        render("(=== a b)"),
        binary(BinaryOperator::Equals, name("a"), name("b"))
    );
}

#[test]
fn any_other_list_is_a_call() {
    assert_eq!(
        render("(f 1 (g))"),
        Js::CallExpression {
            callee: Box::new(name("f")),
            arguments: vec![
                number(1),
                Js::CallExpression {
                    callee: Box::new(name("g")),
                    arguments: vec![],
                    optional: false,
                }
            ],
            optional: false,
        }
    );
    assert_eq!(
        render("(+)"),
        Js::CallExpression {
            callee: Box::new(name("+")),
            arguments: vec![],
            optional: false,
        }
    );
}

#[test]
fn quoted_expression_has_no_tree() {
    let node = JaspParser::parse(Rule::Expr, "(a ['b])").unwrap();
    let ast = JaspParser::expr(&node).unwrap();
    assert!(!is_expressible(&ast));
    assert!(!are_expressible(&vec![Ast::Integer(1), ast]));
    assert!(are_expressible(&vec![]));
    assert!(is_expressible(&Ast::MapLiteral(vec![(
        Ast::Atom("a"),
        Ast::Integer(1)
    )])));
    assert!(!is_expressible(&Ast::MapLiteral(vec![(
        Ast::Atom("a"),
        Ast::Quoted(Box::new(Ast::Integer(1)))
    )])));
}

#[test]
fn lines_of_a_program() {
    let source = "(let a (+ 1 2)) (f a) (fn g [x] x) (fn [x] x) [a]";
    let node = JaspParser::parse(Rule::Module, source).unwrap();
    let module = JaspParser::module(&node).unwrap();
    assert!(are_expressible(&module));
    let program = lisp_to_js(module);
    let body = match program {
        Js::Program { body, source_type } => {
            assert_eq!(source_type, SourceType::Module);
            body
        }
        _ => unreachable!(),
    };
    assert_eq!(body.len(), 5);
    assert!(matches!(&body[0], Js::ExportNamedDeclaration { declaration, specifiers, source: None }
        if specifiers.is_empty() && matches!(**declaration, Js::VariableDeclaration { .. })));
    assert!(matches!(&body[1], Js::ExpressionStatement { expression }
        if matches!(**expression, Js::CallExpression { .. })));
    assert!(matches!(&body[2], Js::ExportNamedDeclaration { declaration, .. }
        if matches!(**declaration, Js::FunctionExpression { .. })));
    assert!(matches!(&body[3], Js::ArrowFunctionExpression { .. }));
    assert_eq!(
        body[4],
        statement(Js::ArrayExpression {
            elements: vec![name("a")]
        })
    );
}

#[test]
fn vector_as_a_line_is_wrapped_into_a_statement() {
    let node = JaspParser::parse(Rule::Module, "[]").unwrap();
    let module = JaspParser::module(&node).unwrap();
    assert_eq!(
        lisp_to_js(module),
        Js::Program {
            body: vec![statement(Js::ArrayExpression { elements: vec![] })],
            source_type: SourceType::Module,
        }
    );
}

#[test]
fn both_trees_class_their_kinds_alike() {
    let pairs = vec![
        (Es::identifier("a"), name("a")),
        (Es::int_literal(1), number(1)),
        (
            Es::new_expr(Es::identifier("a"), vec![]),
            Js::NewExpression {
                callee: Box::new(name("a")),
                arguments: vec![],
            },
        ),
        (
            Es::call_expr(Es::identifier("a"), vec![]),
            Js::CallExpression {
                callee: Box::new(name("a")),
                arguments: vec![],
                optional: false,
            },
        ),
        (
            Es::unary_expr(UnaryOp::Minus, Es::int_literal(1)),
            Js::UnaryExpression {
                operator: UnaryOperator::Minus,
                prefix: true,
                argument: Box::new(number(1)),
            },
        ),
        (
            Es::binary_expr(BinaryOp::Plus, Es::int_literal(1), Es::int_literal(2)),
            binary(BinaryOperator::Plus, number(1), number(2)),
        ),
        (
            Es::ArrayExpression { elements: vec![] },
            Js::ArrayExpression { elements: vec![] },
        ),
        (
            Es::int_literal(1).into_statement(),
            statement(number(1)),
        ),
        (
            Es::Program {
                source_type: jasp::es::SourceType::Module,
                body: vec![],
            },
            Js::Program {
                body: vec![],
                source_type: SourceType::Module,
            },
        ),
    ];
    for (es, js) in pairs {
        assert_eq!(es.is_expression(), js.is_expression());
    }
}

#[test]
fn kinds_taken_for_expressions() {
    assert!(name("a").is_expression());
    assert!(number(1).is_expression());
    assert!(binary(BinaryOperator::Plus, number(1), number(2)).is_expression());
    assert!(Js::ObjectExpression { properties: vec![] }.is_expression());
    assert!(Js::ArrayExpression { elements: vec![] }.is_expression());
    assert!(!statement(number(1)).is_expression());
    assert!(!Js::BlockStatement { body: vec![] }.is_expression());
}
