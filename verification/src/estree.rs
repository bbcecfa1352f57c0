//! The literal dialect as a JavaScript syntax tree, form by form.

use vstd::prelude::*;
use crate::es::EsView;
use crate::parser::{Ast, AstView, ast_views, lemma_ast_views, lemma_pair_views, pair_views};

verus! {

/// The one kind of program that is written.
#[derive(Clone, Copy, Debug, PartialEq, Eq)]
pub enum SourceType {
    Module,
}

/// The keyword of a variable declaration.
#[derive(Clone, Copy, Debug, PartialEq, Eq)]
pub enum VariableKind {
    Var,
    Let,
    Const,
}

/// The kind of a property of an object.
#[derive(Clone, Copy, Debug, PartialEq, Eq)]
pub enum PropertyKind {
    Init,
}

/// The unary operators of JavaScript.
#[derive(Clone, Copy, Debug, PartialEq, Eq)]
pub enum UnaryOperator {
    Void,
    Plus,
    Minus,
    Negation,
    BitwiseNot,
    Typeof,
    Delete,
}

/// The binary operators of JavaScript that a list may be headed by, and `~`.
#[derive(Clone, Copy, Debug, PartialEq, Eq)]
pub enum BinaryOperator {
    Plus,
    Minus,
    Multiply,
    Divide,
    Modulus,
    LegacyEquals,
    LegacyNotEquals,
    Equals,
    NotEquals,
    LessThan,
    MoreThan,
    LessEq,
    MoreEq,
    LeftShift,
    SignedRightShift,
    RightShift,
    And,
    Or,
    Xor,
    Not,
}

/// The unary operator that `s` spells.
pub open spec fn spec_unary_operator(s: Seq<char>) -> Option<UnaryOperator> {
    if s == "void"@ {
        Some(UnaryOperator::Void)
    } else if s == "+"@ {
        Some(UnaryOperator::Plus)
    } else if s == "-"@ {
        Some(UnaryOperator::Minus)
    } else if s == "!"@ {
        Some(UnaryOperator::Negation)
    } else if s == "~"@ {
        Some(UnaryOperator::BitwiseNot)
    } else if s == "typeof"@ {
        Some(UnaryOperator::Typeof)
    } else if s == "delete"@ {
        Some(UnaryOperator::Delete)
    } else {
        None
    }
}

/// The binary operator that `s` spells.
pub open spec fn spec_binary_operator(s: Seq<char>) -> Option<BinaryOperator> {
    if s == "=="@ {
        Some(BinaryOperator::LegacyEquals)
    } else if s == "!="@ {
        Some(BinaryOperator::LegacyNotEquals)
    } else if s == "==="@ {
        Some(BinaryOperator::Equals)
    } else if s == "!=="@ {
        Some(BinaryOperator::NotEquals)
    } else if s == "<"@ {
        Some(BinaryOperator::LessThan)
    } else if s == "<="@ {
        Some(BinaryOperator::LessEq)
    } else if s == ">"@ {
        Some(BinaryOperator::MoreThan)
    } else if s == ">="@ {
        Some(BinaryOperator::MoreEq)
    } else if s == "<<"@ {
        Some(BinaryOperator::LeftShift)
    } else if s == ">>"@ {
        Some(BinaryOperator::SignedRightShift)
    } else if s == ">>>"@ {
        Some(BinaryOperator::RightShift)
    } else if s == "+"@ {
        Some(BinaryOperator::Plus)
    } else if s == "-"@ {
        Some(BinaryOperator::Minus)
    } else if s == "*"@ {
        Some(BinaryOperator::Multiply)
    } else if s == "/"@ {
        Some(BinaryOperator::Divide)
    } else if s == "%"@ {
        Some(BinaryOperator::Modulus)
    } else if s == "|"@ {
        Some(BinaryOperator::Or)
    } else if s == "^"@ {
        Some(BinaryOperator::Xor)
    } else if s == "&"@ {
        Some(BinaryOperator::And)
    } else if s == "~"@ {
        Some(BinaryOperator::Not)
    } else {
        None
    }
}

/// Whether a list headed by `s` is taken for a binary operation: `s` spells a binary operator
/// other than `~`.
pub open spec fn spec_is_binary(s: Seq<char>) -> bool {
    spec_binary_operator(s) is Some && s != "~"@
}

impl UnaryOperator {
    /// Whether `s` spells a unary operator.
    pub fn is(s: &str) -> (b: bool)
        ensures
            b == spec_unary_operator(s@) is Some,
    {
        *s == *"void" || *s == *"+" || *s == *"-" || *s == *"!" || *s == *"~" || *s == *"typeof"
            || *s == *"delete"
    }

    /// The unary operator that `s` spells.
    pub fn from(s: &str) -> (op: UnaryOperator)
        requires
            spec_unary_operator(s@) is Some,
        ensures
            Some(op) == spec_unary_operator(s@),
    {
        if *s == *"void" {
            UnaryOperator::Void
        } else if *s == *"+" {
            UnaryOperator::Plus
        } else if *s == *"-" {
            UnaryOperator::Minus
        } else if *s == *"!" {
            UnaryOperator::Negation
        } else if *s == *"~" {
            UnaryOperator::BitwiseNot
        } else if *s == *"typeof" {
            UnaryOperator::Typeof
        } else {
            UnaryOperator::Delete
        }
    }
}

impl BinaryOperator {
    /// Whether a list headed by `s` is taken for a binary operation.
    pub fn is(s: &str) -> (b: bool)
        ensures
            b == spec_is_binary(s@),
    {
        proof {
            reveal_strlit("~");
            reveal_strlit("==");
            reveal_strlit("!=");
            reveal_strlit("===");
            reveal_strlit("!==");
            reveal_strlit("<");
            reveal_strlit("<=");
            reveal_strlit(">");
            reveal_strlit(">=");
            reveal_strlit("<<");
            reveal_strlit(">>");
            reveal_strlit(">>>");
            reveal_strlit("+");
            reveal_strlit("-");
            reveal_strlit("*");
            reveal_strlit("/");
            reveal_strlit("%");
            reveal_strlit("|");
            reveal_strlit("^");
            reveal_strlit("&");
            assert("~"@[0] == '~');
        }
        *s == *"==" || *s == *"!=" || *s == *"===" || *s == *"!==" || *s == *"<" || *s == *"<="
            || *s == *">" || *s == *">=" || *s == *"<<" || *s == *">>" || *s == *">>>" || *s
            == *"+" || *s == *"-" || *s == *"*" || *s == *"/" || *s == *"%" || *s == *"|" || *s
            == *"^" || *s == *"&"
    }

    /// The binary operator that `s` spells.
    pub fn from(s: &str) -> (op: BinaryOperator)
        requires
            spec_binary_operator(s@) is Some,
        ensures
            Some(op) == spec_binary_operator(s@),
    {
        if *s == *"==" {
            BinaryOperator::LegacyEquals
        } else if *s == *"!=" {
            BinaryOperator::LegacyNotEquals
        } else if *s == *"===" {
            BinaryOperator::Equals
        } else if *s == *"!==" {
            BinaryOperator::NotEquals
        } else if *s == *"<" {
            BinaryOperator::LessThan
        } else if *s == *"<=" {
            BinaryOperator::LessEq
        } else if *s == *">" {
            BinaryOperator::MoreThan
        } else if *s == *">=" {
            BinaryOperator::MoreEq
        } else if *s == *"<<" {
            BinaryOperator::LeftShift
        } else if *s == *">>" {
            BinaryOperator::SignedRightShift
        } else if *s == *">>>" {
            BinaryOperator::RightShift
        } else if *s == *"+" {
            BinaryOperator::Plus
        } else if *s == *"-" {
            BinaryOperator::Minus
        } else if *s == *"*" {
            BinaryOperator::Multiply
        } else if *s == *"/" {
            BinaryOperator::Divide
        } else if *s == *"%" {
            BinaryOperator::Modulus
        } else if *s == *"|" {
            BinaryOperator::Or
        } else if *s == *"^" {
            BinaryOperator::Xor
        } else if *s == *"&" {
            BinaryOperator::And
        } else {
            BinaryOperator::Not
        }
    }
}

/// What a literal node holds. A floating-point number is kept as its decimal text.
#[derive(Debug, PartialEq)]
pub enum Value {
    Int(i64),
    Float(String),
    String(String),
}

/// A node of the JavaScript syntax tree.
#[allow(inconsistent_fields)]
#[derive(Debug, PartialEq)]
pub enum Js {
    Program { body: Vec<Js>, source_type: SourceType },
    ExpressionStatement { expression: Box<Js> },
    Literal { value: Value },
    Identifier { name: String },
    UnaryExpression { operator: UnaryOperator, prefix: bool, argument: Box<Js> },
    BinaryExpression { operator: BinaryOperator, left: Box<Js>, right: Box<Js> },
    NewExpression { callee: Box<Js>, arguments: Vec<Js> },
    ArrayExpression { elements: Vec<Js> },
    ObjectExpression { properties: Vec<Js> },
    Property {
        method: bool,
        shorthand: bool,
        computed: bool,
        key: Box<Js>,
        value: Box<Js>,
        kind: PropertyKind,
    },
    VariableDeclaration { kind: VariableKind, declarations: Vec<Js> },
    VariableDeclarator { id: Box<Js>, init: Option<Box<Js>> },
    ConditionalExpression { test: Box<Js>, alternate: Box<Js>, consequent: Box<Js> },
    CallExpression { callee: Box<Js>, arguments: Vec<Js>, optional: bool },
    FunctionExpression {
        id: Option<Box<Js>>,
        params: Vec<Js>,
        body: Box<Js>,
        expression: bool,
        generator: bool,
        is_async: bool,
    },
    ArrowFunctionExpression {
        id: Option<Box<Js>>,
        params: Vec<Js>,
        body: Box<Js>,
        expression: bool,
        generator: bool,
        is_async: bool,
    },
    BlockStatement { body: Vec<Js> },
    ReturnStatement { argument: Box<Js> },
    ExportNamedDeclaration { declaration: Box<Js>, specifiers: Vec<Js>, source: Option<Box<Js>> },
}

/// What a literal holds, as a mathematical value.
pub ghost enum ValueView {
    Int(i64),
    Float(Seq<char>),
    String(Seq<char>),
}

/// A JavaScript syntax tree as a mathematical value.
#[allow(inconsistent_fields)]
pub ghost enum JsView {
    Program { body: Seq<JsView>, source_type: SourceType },
    ExpressionStatement { expression: Box<JsView> },
    Literal { value: ValueView },
    Identifier { name: Seq<char> },
    UnaryExpression { operator: UnaryOperator, prefix: bool, argument: Box<JsView> },
    BinaryExpression { operator: BinaryOperator, left: Box<JsView>, right: Box<JsView> },
    NewExpression { callee: Box<JsView>, arguments: Seq<JsView> },
    ArrayExpression { elements: Seq<JsView> },
    ObjectExpression { properties: Seq<JsView> },
    Property {
        method: bool,
        shorthand: bool,
        computed: bool,
        key: Box<JsView>,
        value: Box<JsView>,
        kind: PropertyKind,
    },
    VariableDeclaration { kind: VariableKind, declarations: Seq<JsView> },
    VariableDeclarator { id: Box<JsView>, init: Option<Box<JsView>> },
    ConditionalExpression { test: Box<JsView>, alternate: Box<JsView>, consequent: Box<JsView> },
    CallExpression { callee: Box<JsView>, arguments: Seq<JsView>, optional: bool },
    FunctionExpression {
        id: Option<Box<JsView>>,
        params: Seq<JsView>,
        body: Box<JsView>,
        expression: bool,
        generator: bool,
        is_async: bool,
    },
    ArrowFunctionExpression {
        id: Option<Box<JsView>>,
        params: Seq<JsView>,
        body: Box<JsView>,
        expression: bool,
        generator: bool,
        is_async: bool,
    },
    BlockStatement { body: Seq<JsView> },
    ReturnStatement { argument: Box<JsView> },
    ExportNamedDeclaration {
        declaration: Box<JsView>,
        specifiers: Seq<JsView>,
        source: Option<Box<JsView>>,
    },
}

impl View for Value {
    type V = ValueView;

    open spec fn view(&self) -> ValueView {
        match self {
            Value::Int(n) => ValueView::Int(*n),
            Value::Float(text) => ValueView::Float(text@),
            Value::String(text) => ValueView::String(text@),
        }
    }
}

/// The views of a sequence of nodes, element by element.
pub open spec fn js_views(nodes: Seq<Js>) -> Seq<JsView>
    decreases nodes,
{
    Seq::new(
        nodes.len(),
        |i: int|
            if 0 <= i < nodes.len() {
                nodes[i].model()
            } else {
                arbitrary()
            },
    )
}

impl Js {
    /// The tree as a mathematical value.
    pub open spec fn model(&self) -> JsView
        decreases self,
    {
        match self {
            Js::Program { body, source_type } => JsView::Program {
                body: js_views(body@),
                source_type: *source_type,
            },
            Js::ExpressionStatement { expression } => JsView::ExpressionStatement {
                expression: Box::new(expression.model()),
            },
            Js::Literal { value } => JsView::Literal { value: value@ },
            Js::Identifier { name } => JsView::Identifier { name: name@ },
            Js::UnaryExpression { operator, prefix, argument } => JsView::UnaryExpression {
                operator: *operator,
                prefix: *prefix,
                argument: Box::new(argument.model()),
            },
            Js::BinaryExpression { operator, left, right } => JsView::BinaryExpression {
                operator: *operator,
                left: Box::new(left.model()),
                right: Box::new(right.model()),
            },
            Js::NewExpression { callee, arguments } => JsView::NewExpression {
                callee: Box::new(callee.model()),
                arguments: js_views(arguments@),
            },
            Js::ArrayExpression { elements } => JsView::ArrayExpression {
                elements: js_views(elements@),
            },
            Js::ObjectExpression { properties } => JsView::ObjectExpression {
                properties: js_views(properties@),
            },
            Js::Property { method, shorthand, computed, key, value, kind } => JsView::Property {
                method: *method,
                shorthand: *shorthand,
                computed: *computed,
                key: Box::new(key.model()),
                value: Box::new(value.model()),
                kind: *kind,
            },
            Js::VariableDeclaration { kind, declarations } => JsView::VariableDeclaration {
                kind: *kind,
                declarations: js_views(declarations@),
            },
            Js::VariableDeclarator { id, init } => JsView::VariableDeclarator {
                id: Box::new(id.model()),
                init: match init {
                    Some(inner) => Some(Box::new(inner.model())),
                    None => None,
                },
            },
            Js::ConditionalExpression { test, alternate, consequent } => {
                JsView::ConditionalExpression {
                    test: Box::new(test.model()),
                    alternate: Box::new(alternate.model()),
                    consequent: Box::new(consequent.model()),
                }
            },
            Js::CallExpression { callee, arguments, optional } => JsView::CallExpression {
                callee: Box::new(callee.model()),
                arguments: js_views(arguments@),
                optional: *optional,
            },
            Js::FunctionExpression { id, params, body, expression, generator, is_async } => {
                JsView::FunctionExpression {
                    id: match id {
                    Some(inner) => Some(Box::new(inner.model())),
                    None => None,
                },
                    params: js_views(params@),
                    body: Box::new(body.model()),
                    expression: *expression,
                    generator: *generator,
                    is_async: *is_async,
                }
            },
            Js::ArrowFunctionExpression { id, params, body, expression, generator, is_async } => {
                JsView::ArrowFunctionExpression {
                    id: match id {
                    Some(inner) => Some(Box::new(inner.model())),
                    None => None,
                },
                    params: js_views(params@),
                    body: Box::new(body.model()),
                    expression: *expression,
                    generator: *generator,
                    is_async: *is_async,
                }
            },
            Js::BlockStatement { body } => JsView::BlockStatement { body: js_views(body@) },
            Js::ReturnStatement { argument } => JsView::ReturnStatement {
                argument: Box::new(argument.model()),
            },
            Js::ExportNamedDeclaration { declaration, specifiers, source } => {
                JsView::ExportNamedDeclaration {
                    declaration: Box::new(declaration.model()),
                    specifiers: js_views(specifiers@),
                    source: match source {
                    Some(inner) => Some(Box::new(inner.model())),
                    None => None,
                },
                }
            },
        }
    }
}

impl View for Js {
    type V = JsView;

    open spec fn view(&self) -> JsView {
        self.model()
    }
}

/// `js_views` keeps the length and views each element in place.
pub proof fn lemma_js_views(nodes: Seq<Js>)
    ensures
        js_views(nodes).len() == nodes.len(),
        forall|i: int| 0 <= i < nodes.len() ==> #[trigger] js_views(nodes)[i] == nodes[i]@,
{
}

/// Viewing commutes with appending a node.
pub proof fn lemma_js_views_push(nodes: Seq<Js>, node: Js)
    ensures
        js_views(nodes.push(node)) == js_views(nodes).push(node@),
{
    lemma_js_views(nodes);
    lemma_js_views(nodes.push(node));
}

impl JsView {
    /// Whether the node is an expression, to be wrapped into a statement where it stands as a
    /// line of a module. Every kind that the output tree of the compiler holds too is classed
    /// here as it is classed there.
    pub open spec fn is_expression(self) -> bool {
        self is Identifier || self is Literal || self is ObjectExpression || self is UnaryExpression
            || self is BinaryExpression || self is ConditionalExpression || self is NewExpression
            || self is CallExpression || self is ArrayExpression
    }

    pub open spec fn identifier(name: Seq<char>) -> JsView {
        JsView::Identifier { name }
    }

    /// `void 0`, as a statement.
    pub open spec fn undefined() -> JsView {
        JsView::ExpressionStatement {
            expression: Box::new(
                JsView::UnaryExpression {
                    operator: UnaryOperator::Void,
                    prefix: true,
                    argument: Box::new(JsView::Literal { value: ValueView::Int(0) }),
                },
            ),
        }
    }

    /// An expression wrapped into an expression statement; any other node as it is.
    pub open spec fn to_statement(self) -> JsView {
        if self.is_expression() {
            JsView::ExpressionStatement { expression: Box::new(self) }
        } else {
            self
        }
    }

    /// A variable declaration or a function expression wrapped into an export; any other node as
    /// it is.
    pub open spec fn export_declaration(self) -> JsView {
        if self is VariableDeclaration || self is FunctionExpression {
            JsView::ExportNamedDeclaration {
                declaration: Box::new(self),
                specifiers: Seq::empty(),
                source: None,
            }
        } else {
            self
        }
    }
}

/// Whether the tree holds no quoted expression, which has no JavaScript tree.
pub open spec fn expressible(ast: AstView) -> bool
    decreases ast,
{
    match ast {
        AstView::Quoted(_) => false,
        AstView::List(items) => all_expressible(items),
        AstView::Vector(items) => all_expressible(items),
        AstView::SetLiteral(items) => all_expressible(items),
        AstView::MapLiteral(pairs) => pairs_expressible(pairs),
        _ => true,
    }
}

/// Whether every tree of the sequence is expressible.
pub open spec fn all_expressible(items: Seq<AstView>) -> bool
    decreases items,
{
    forall|i: int| 0 <= i < items.len() ==> expressible(#[trigger] items[i])
}

/// Whether both trees of every pair of the sequence are expressible.
pub open spec fn pairs_expressible(pairs: Seq<(AstView, AstView)>) -> bool
    decreases pairs,
{
    forall|i: int|
        0 <= i < pairs.len() ==> expressible((#[trigger] pairs[i]).0) && expressible(pairs[i].1)
}

/// The name of the symbol that heads `values`, if a symbol heads it.
pub open spec fn head_symbol(values: Seq<AstView>) -> Option<Seq<char>> {
    if values.len() > 0 && values[0] is Symbol {
        Some(values[0]->Symbol_0)
    } else {
        None
    }
}

/// The block of a function: its statements, then the return of its last expression.
pub open spec fn spec_function_body(body: Seq<JsView>, last: JsView) -> JsView {
    JsView::BlockStatement {
        body: body.push(JsView::ReturnStatement { argument: Box::new(last) }),
    }
}

/// The operands folded from the left: `left`, then `left op a`, then `(left op a) op b`.
pub open spec fn spec_binary_expr(operator: BinaryOperator, left: JsView, rest: Seq<JsView>)
    -> JsView
    decreases rest.len(),
{
    if rest.len() == 0 {
        left
    } else {
        JsView::BinaryExpression {
            operator,
            left: Box::new(spec_binary_expr(operator, left, rest.drop_last())),
            right: Box::new(rest.last()),
        }
    }
}

/// The property `key: value` of an object.
pub open spec fn spec_property(key: JsView, value: JsView) -> JsView {
    JsView::Property {
        method: false,
        shorthand: false,
        computed: false,
        key: Box::new(key),
        value: Box::new(value),
        kind: PropertyKind::Init,
    }
}

/// The JavaScript tree of one node.
pub open spec fn spec_ast_to_js(ast: AstView) -> JsView
    decreases ast,
{
    match ast {
        AstView::Integer(n) => JsView::Literal { value: ValueView::Int(n) },
        AstView::Float(text) => JsView::Literal { value: ValueView::Float(text) },
        AstView::String(text) => JsView::Literal { value: ValueView::String(text) },
        AstView::Atom(name) => JsView::Literal { value: ValueView::String(name) },
        AstView::Symbol(name) => JsView::identifier(name),
        AstView::Vector(values) => JsView::ArrayExpression { elements: spec_all_to_js(values) },
        AstView::MapLiteral(pairs) => JsView::ObjectExpression {
            properties: spec_properties(pairs),
        },
        AstView::SetLiteral(values) => JsView::NewExpression {
            callee: Box::new(JsView::identifier("Set"@)),
            arguments: seq![JsView::ArrayExpression { elements: spec_all_to_js(values) }],
        },
        AstView::Quoted(_) => arbitrary(),
        AstView::List(values) => spec_list_to_js(values),
    }
}

/// The JavaScript trees of a sequence of nodes, in order.
pub open spec fn spec_all_to_js(values: Seq<AstView>) -> Seq<JsView>
    decreases values,
{
    Seq::new(
        values.len(),
        |i: int|
            if 0 <= i < values.len() {
                spec_ast_to_js(values[i])
            } else {
                arbitrary()
            },
    )
}

/// The properties that the entries of a map become, in order.
pub open spec fn spec_properties(pairs: Seq<(AstView, AstView)>) -> Seq<JsView>
    decreases pairs,
{
    Seq::new(
        pairs.len(),
        |i: int|
            if 0 <= i < pairs.len() {
                spec_property(spec_ast_to_js(pairs[i].0), spec_ast_to_js(pairs[i].1))
            } else {
                arbitrary()
            },
    )
}

/// The JavaScript tree of a list, by the first of these that applies: the empty list is `void 0`;
/// `(let name expr)` declares a constant; `(if test then otherwise)` is a conditional;
/// `(fn name [params] body.. last)` is a named function and `(fn [params] body.. last)` an arrow
/// function, each returning its last expression; a unary operator on one operand and a binary
/// operator on one or more are operations; any other list is a call of its first item on the
/// rest.
pub open spec fn spec_list_to_js(values: Seq<AstView>) -> JsView
    decreases values,
{
    let n = values.len() as int;
    let head = head_symbol(values);
    if n == 0 {
        JsView::undefined()
    } else if n == 3 && head == Some("let"@) && values[1] is Symbol {
        JsView::VariableDeclaration {
            kind: VariableKind::Const,
            declarations: seq![
                JsView::VariableDeclarator {
                    id: Box::new(JsView::identifier(values[1]->Symbol_0)),
                    init: Some(Box::new(spec_ast_to_js(values[2]))),
                },
            ],
        }
    } else if n == 4 && head == Some("if"@) {
        JsView::ConditionalExpression {
            test: Box::new(spec_ast_to_js(values[1])),
            consequent: Box::new(spec_ast_to_js(values[2])),
            alternate: Box::new(spec_ast_to_js(values[3])),
        }
    } else if n >= 4 && head == Some("fn"@) && values[1] is Symbol && values[2] is Vector {
        JsView::FunctionExpression {
            id: Some(Box::new(JsView::identifier(values[1]->Symbol_0))),
            params: spec_all_to_js(values[2]->Vector_0),
            body: Box::new(
                spec_function_body(
                    spec_all_to_js(values.subrange(3, n - 1)),
                    spec_ast_to_js(values[n - 1]),
                ),
            ),
            expression: false,
            generator: false,
            is_async: false,
        }
    } else if n >= 3 && head == Some("fn"@) && values[1] is Vector {
        JsView::ArrowFunctionExpression {
            id: None,
            params: spec_all_to_js(values[1]->Vector_0),
            body: Box::new(
                spec_function_body(
                    spec_all_to_js(values.subrange(2, n - 1)),
                    spec_ast_to_js(values[n - 1]),
                ),
            ),
            expression: false,
            generator: false,
            is_async: false,
        }
    } else if n == 2 && head is Some && spec_unary_operator(head->Some_0) is Some {
        JsView::UnaryExpression {
            operator: spec_unary_operator(head->Some_0)->Some_0,
            prefix: true,
            argument: Box::new(spec_ast_to_js(values[1])),
        }
    } else if n >= 2 && head is Some && spec_is_binary(head->Some_0) {
        spec_binary_expr(
            spec_binary_operator(head->Some_0)->Some_0,
            spec_ast_to_js(values[1]),
            spec_all_to_js(values.subrange(2, n)),
        )
    } else {
        JsView::CallExpression {
            callee: Box::new(spec_ast_to_js(values[0])),
            arguments: spec_all_to_js(values.subrange(1, n)),
            optional: false,
        }
    }
}

/// The line of a program that a node of a module becomes.
pub open spec fn spec_line(ast: AstView) -> JsView {
    spec_ast_to_js(ast).export_declaration().to_statement()
}

/// The program of a module: one line for each of its nodes, in order.
pub open spec fn spec_lisp_to_js(module: Seq<AstView>) -> JsView {
    JsView::Program {
        body: Seq::new(module.len(), |i: int| spec_line(module[i])),
        source_type: SourceType::Module,
    }
}

impl Js {
    /// Whether the node is an expression, to be wrapped into a statement where it stands as a
    /// line of a module.
    pub fn is_expression(&self) -> (b: bool)
        ensures
            b == self@.is_expression(),
    {
        matches!(
            self,
            Js::Identifier { .. } | Js::Literal { .. } | Js::ObjectExpression { .. }
                | Js::UnaryExpression { .. } | Js::BinaryExpression { .. }
                | Js::ConditionalExpression { .. } | Js::NewExpression { .. }
                | Js::CallExpression { .. } | Js::ArrayExpression { .. }
        )
    }
}

/// The name of `ast`, if it is a symbol.
fn symbol_of<'a>(ast: &Ast<'a>) -> (name: Option<&'a str>)
    ensures
        name is Some <==> ast@ is Symbol,
        name matches Some(text) ==> text@ == ast@->Symbol_0,
{
    match ast {
        Ast::Symbol(name) => Some(*name),
        _ => None,
    }
}

/// Whether a symbol called `name` heads the list.
fn headed_by(head: Option<&str>, name: &str) -> (b: bool)
    ensures
        b == (head matches Some(text) && text@ == name@),
{
    match head {
        Some(text) => *text == *name,
        None => false,
    }
}

fn unary(operator: UnaryOperator, argument: Js) -> (js: Js)
    ensures
        js@ == (JsView::UnaryExpression { operator, prefix: true, argument: Box::new(argument@) }),
{
    Js::UnaryExpression { operator, prefix: true, argument: Box::new(argument) }
}

fn statement_of(expression: Js) -> (js: Js)
    ensures
        js@ == (JsView::ExpressionStatement { expression: Box::new(expression@) }),
{
    Js::ExpressionStatement { expression: Box::new(expression) }
}

fn undefined() -> (js: Js)
    ensures
        js@ == JsView::undefined(),
{
    let zero = Js::Literal { value: Value::Int(0) };
    statement_of(unary(UnaryOperator::Void, zero))
}

fn declarator(name: &str, init: Js) -> (js: Js)
    ensures
        js@ == (JsView::VariableDeclarator {
            id: Box::new(JsView::identifier(name@)),
            init: Some(Box::new(init@)),
        }),
{
    Js::VariableDeclarator { id: Box::new(identifier(name)), init: Some(Box::new(init)) }
}

fn export_of(declaration: Js) -> (js: Js)
    ensures
        js@ == (JsView::ExportNamedDeclaration {
            declaration: Box::new(declaration@),
            specifiers: Seq::empty(),
            source: None,
        }),
{
    let specifiers: Vec<Js> = Vec::new();
    assert(js_views(specifiers@) =~= Seq::<JsView>::empty());
    Js::ExportNamedDeclaration { declaration: Box::new(declaration), source: None, specifiers }
}

fn identifier(name: &str) -> (js: Js)
    ensures
        js@ == JsView::identifier(name@),
{
    Js::Identifier { name: name.to_owned() }
}

fn to_statement(js: Js) -> (statement: Js)
    ensures
        statement@ == js@.to_statement(),
{
    if js.is_expression() {
        statement_of(js)
    } else {
        js
    }
}

fn export_declaration(js: Js) -> (exported: Js)
    ensures
        exported@ == js@.export_declaration(),
{
    let declares = matches!(&js, Js::VariableDeclaration { .. } | Js::FunctionExpression { .. });
    if declares {
        export_of(js)
    } else {
        js
    }
}

/// Whether the tree holds no quoted expression.
pub fn is_expressible(ast: &Ast) -> (b: bool)
    ensures
        b == expressible(ast@),
    decreases ast,
{
    match ast {
        Ast::Quoted(_) => false,
        Ast::List(items) => are_expressible(items),
        Ast::Vector(items) => are_expressible(items),
        Ast::SetLiteral(items) => are_expressible(items),
        Ast::MapLiteral(pairs) => {
            let mut i: usize = 0;
            while i < pairs.len()
                invariant
                    i <= pairs.len(),
                    *ast is MapLiteral,
                    ast->MapLiteral_0 == *pairs,
                    forall|j: int|
                        0 <= j < i ==> expressible((#[trigger] pair_views(pairs@)[j]).0)
                            && expressible(pair_views(pairs@)[j].1),
                decreases pairs.len() - i,
            {
                proof {
                    lemma_pair_views(pairs@);
                }
                if !is_expressible(&pairs[i].0) || !is_expressible(&pairs[i].1) {
                    assert(!(expressible(pair_views(pairs@)[i as int].0) && expressible(
                        pair_views(pairs@)[i as int].1,
                    )));
                    return false;
                }
                i += 1;
            }
            proof {
                lemma_pair_views(pairs@);
            }
            true
        },
        _ => true,
    }
}

/// Whether none of the trees holds a quoted expression.
pub fn are_expressible(items: &Vec<Ast>) -> (b: bool)
    ensures
        b == all_expressible(ast_views(items@)),
    decreases items,
{
    proof {
        lemma_ast_views(items@);
    }
    let mut i: usize = 0;
    while i < items.len()
        invariant
            i <= items.len(),
            forall|j: int| 0 <= j < i ==> expressible(#[trigger] ast_views(items@)[j]),
        decreases items.len() - i,
    {
        proof {
            lemma_ast_views(items@);
        }
        if !is_expressible(&items[i]) {
            assert(!expressible(ast_views(items@)[i as int]));
            return false;
        }
        i += 1;
    }
    true
}

/// Renders one node as a JavaScript tree.
pub fn ast_to_js(ast: &Ast) -> (js: Js)
    requires
        expressible(ast@),
    ensures
        js@ == spec_ast_to_js(ast@),
    decreases ast, 0nat,
{
    match ast {
        Ast::Integer(n) => Js::Literal { value: Value::Int(*n) },
        Ast::Float(text) => Js::Literal { value: Value::Float((*text).to_owned()) },
        Ast::String(text) => Js::Literal { value: Value::String((*text).to_owned()) },
        Ast::Atom(name) => Js::Literal { value: Value::String((*name).to_owned()) },
        Ast::Symbol(name) => identifier(*name),
        Ast::Vector(values) => {
            proof {
                full_range(ast_views(values@));
            }
            Js::ArrayExpression { elements: all_to_js(values, 0, values.len()) }
        },
        Ast::MapLiteral(pairs) => Js::ObjectExpression { properties: properties(pairs) },
        Ast::SetLiteral(values) => {
            proof {
                full_range(ast_views(values@));
            }
            let mut arguments: Vec<Js> = Vec::new();
            arguments.push(Js::ArrayExpression { elements: all_to_js(values, 0, values.len()) });
            proof {
                lemma_js_views(arguments@);
                assert(js_views(arguments@) =~= seq![
                    JsView::ArrayExpression { elements: spec_all_to_js(ast_views(values@)) },
                ]);
            }
            Js::NewExpression { callee: Box::new(identifier("Set")), arguments }
        },
        Ast::Quoted(_) => vstd::pervasive::unreached(),
        Ast::List(values) => list_to_js(values),
    }
}

/// A sequence is the range of all of its items.
proof fn full_range(items: Seq<AstView>)
    ensures
        items.subrange(0, items.len() as int) == items,
{
}

/// Renders the entries of a map.
fn properties(pairs: &Vec<(Ast, Ast)>) -> (rendered: Vec<Js>)
    requires
        pairs_expressible(pair_views(pairs@)),
    ensures
        js_views(rendered@) == spec_properties(pair_views(pairs@)),
    decreases pairs, 0nat,
{
    let mut rendered: Vec<Js> = Vec::new();
    let mut i: usize = 0;
    while i < pairs.len()
        invariant
            i <= pairs.len(),
            rendered.len() == i,
            pairs_expressible(pair_views(pairs@)),
            forall|j: int|
                0 <= j < i ==> #[trigger] rendered[j]@ == spec_properties(pair_views(pairs@))[j],
        decreases pairs.len() - i,
    {
        proof {
            lemma_pair_views(pairs@);
            assert(expressible(pair_views(pairs@)[i as int].0));
        }
        let key = ast_to_js(&pairs[i].0);
        let value = ast_to_js(&pairs[i].1);
        rendered.push(
            Js::Property {
                kind: PropertyKind::Init,
                key: Box::new(key),
                value: Box::new(value),
                shorthand: false,
                method: false,
                computed: false,
            },
        );
        i += 1;
    }
    proof {
        lemma_pair_views(pairs@);
        lemma_js_views(rendered@);
    }
    rendered
}

/// Renders the nodes of `items` from `from` up to `to`, in order.
fn all_to_js(items: &Vec<Ast>, from: usize, to: usize) -> (rendered: Vec<Js>)
    requires
        from <= to <= items.len(),
        all_expressible(ast_views(items@)),
    ensures
        js_views(rendered@) == spec_all_to_js(ast_views(items@).subrange(from as int, to as int)),
    decreases items, 0nat,
{
    let mut rendered: Vec<Js> = Vec::new();
    let mut i: usize = from;
    let ghost range = ast_views(items@).subrange(from as int, to as int);
    while i < to
        invariant
            from <= i <= to <= items.len(),
            rendered.len() == i - from,
            range == ast_views(items@).subrange(from as int, to as int),
            all_expressible(ast_views(items@)),
            forall|j: int|
                0 <= j < i - from ==> #[trigger] rendered[j]@ == spec_ast_to_js(range[j]),
        decreases to - i,
    {
        proof {
            lemma_ast_views(items@);
            assert(expressible(ast_views(items@)[i as int]));
        }
        rendered.push(ast_to_js(&items[i]));
        i += 1;
    }
    proof {
        lemma_js_views(rendered@);
    }
    rendered
}

/// The block of a function whose statements are the nodes of `values` from `from` up to the
/// last, and whose result is the last.
fn function_body(values: &Vec<Ast>, from: usize) -> (block: Js)
    requires
        from < values.len(),
        all_expressible(ast_views(values@)),
    ensures
        block@ == spec_function_body(
            spec_all_to_js(ast_views(values@).subrange(from as int, values.len() - 1)),
            spec_ast_to_js(ast_views(values@)[values.len() - 1]),
        ),
    decreases values, 1nat,
{
    let last = values.len() - 1;
    proof {
        lemma_ast_views(values@);
    }
    let mut body = all_to_js(values, from, last);
    let result = Js::ReturnStatement { argument: Box::new(ast_to_js(&values[last])) };
    proof {
        lemma_js_views_push(body@, result);
    }
    body.push(result);
    Js::BlockStatement { body }
}

/// The operation of `operator` on the node at `from` and those behind it, folded from the left.
fn binary_expr(operator: BinaryOperator, values: &Vec<Ast>, from: usize) -> (js: Js)
    requires
        from < values.len(),
        all_expressible(ast_views(values@)),
    ensures
        js@ == spec_binary_expr(
            operator,
            spec_ast_to_js(ast_views(values@)[from as int]),
            spec_all_to_js(ast_views(values@).subrange(from + 1, values.len() as int)),
        ),
    decreases values, 1nat,
{
    let ghost rest = spec_all_to_js(ast_views(values@).subrange(from + 1, values.len() as int));
    proof {
        lemma_ast_views(values@);
    }
    let mut left = ast_to_js(&values[from]);
    let mut i: usize = from + 1;
    while i < values.len()
        invariant
            from < i <= values.len(),
            all_expressible(ast_views(values@)),
            rest == spec_all_to_js(ast_views(values@).subrange(from + 1, values.len() as int)),
            left@ == spec_binary_expr(
                operator,
                spec_ast_to_js(ast_views(values@)[from as int]),
                rest.take(i - from - 1),
            ),
        decreases values.len() - i,
    {
        proof {
            lemma_ast_views(values@);
            let next = rest.take(i - from);
            assert(next.drop_last() =~= rest.take(i - from - 1));
            assert(next.last() == spec_ast_to_js(values[i as int]@));
        }
        let right = ast_to_js(&values[i]);
        left = Js::BinaryExpression { operator, left: Box::new(left), right: Box::new(right) };
        i += 1;
    }
    assert(rest.take(i - from - 1) =~= rest);
    left
}

/// Renders a list.
fn list_to_js(values: &Vec<Ast>) -> (js: Js)
    requires
        all_expressible(ast_views(values@)),
    ensures
        js@ == spec_list_to_js(ast_views(values@)),
    decreases values, 2nat,
{
    let n = values.len();
    proof {
        lemma_ast_views(values@);
    }
    if n == 0 {
        return undefined();
    }
    let head = symbol_of(&values[0]);
    if n == 3 && headed_by(head, "let") {
        if let Some(name) = symbol_of(&values[1]) {
            let mut declarations: Vec<Js> = Vec::new();
            declarations.push(declarator(name, ast_to_js(&values[2])));
            proof {
                lemma_js_views(declarations@);
                assert(js_views(declarations@) =~= seq![
                    JsView::VariableDeclarator {
                        id: Box::new(JsView::identifier(name@)),
                        init: Some(Box::new(spec_ast_to_js(values[2]@))),
                    },
                ]);
            }
            return Js::VariableDeclaration { kind: VariableKind::Const, declarations };
        }
    }
    if n == 4 && headed_by(head, "if") {
        return Js::ConditionalExpression {
            test: Box::new(ast_to_js(&values[1])),
            consequent: Box::new(ast_to_js(&values[2])),
            alternate: Box::new(ast_to_js(&values[3])),
        };
    }
    if n >= 4 && headed_by(head, "fn") {
        if let Some(name) = symbol_of(&values[1]) {
            if let Ast::Vector(params) = &values[2] {
                proof {
                    full_range(ast_views(params@));
                    lemma_ast_views(params@);
                }
                return Js::FunctionExpression {
                    id: Some(Box::new(identifier(name))),
                    params: all_to_js(params, 0, params.len()),
                    body: Box::new(function_body(values, 3)),
                    expression: false,
                    generator: false,
                    is_async: false,
                };
            }
        }
    }
    if n >= 3 && headed_by(head, "fn") {
        if let Ast::Vector(params) = &values[1] {
            proof {
                full_range(ast_views(params@));
                lemma_ast_views(params@);
            }
            return Js::ArrowFunctionExpression {
                id: None,
                params: all_to_js(params, 0, params.len()),
                body: Box::new(function_body(values, 2)),
                expression: false,
                generator: false,
                is_async: false,
            };
        }
    }
    if let Some(op) = head {
        if n == 2 && UnaryOperator::is(op) {
            return unary(UnaryOperator::from(op), ast_to_js(&values[1]));
        }
        if n >= 2 && BinaryOperator::is(op) {
            return binary_expr(BinaryOperator::from(op), values, 1);
        }
    }
    Js::CallExpression {
        callee: Box::new(ast_to_js(&values[0])),
        arguments: all_to_js(values, 1, n),
        optional: false,
    }
}

/// Renders a module as a program.
pub fn lisp_to_js(module: Vec<Ast>) -> (program: Js)
    requires
        all_expressible(ast_views(module@)),
    ensures
        program@ == spec_lisp_to_js(ast_views(module@)),
{
    let mut body: Vec<Js> = Vec::new();
    let mut i: usize = 0;
    while i < module.len()
        invariant
            i <= module.len(),
            body.len() == i,
            all_expressible(ast_views(module@)),
            forall|j: int| 0 <= j < i ==> #[trigger] body[j]@ == spec_line(ast_views(module@)[j]),
        decreases module.len() - i,
    {
        proof {
            lemma_ast_views(module@);
            assert(expressible(ast_views(module@)[i as int]));
        }
        body.push(to_statement(export_declaration(ast_to_js(&module[i]))));
        i += 1;
    }
    proof {
        lemma_js_views(body@);
        assert(js_views(body@) =~= Seq::new(
            ast_views(module@).len(),
            |i: int| spec_line(ast_views(module@)[i]),
        ));
    }
    Js::Program { body, source_type: SourceType::Module }
}

/// Whether the two nodes are of one kind, of those that both trees hold.
pub open spec fn same_kind(es: EsView, js: JsView) -> bool {
    ||| es is Program && js is Program
    ||| es is ExpressionStatement && js is ExpressionStatement
    ||| es is Identifier && js is Identifier
    ||| es is Literal && js is Literal
    ||| es is NewExpression && js is NewExpression
    ||| es is CallExpression && js is CallExpression
    ||| es is UnaryExpression && js is UnaryExpression
    ||| es is BinaryExpression && js is BinaryExpression
    ||| es is ArrayExpression && js is ArrayExpression
}

/// The two trees class their nodes alike: a node of a kind that both hold is an expression in
/// the one exactly when it is an expression in the other.
pub proof fn lemma_one_classification(es: EsView, js: JsView)
    requires
        same_kind(es, js),
    ensures
        es.is_expression() == js.is_expression(),
{
}

/// No expression stands bare in a program: every line of a module is a statement, a
/// declaration or a function, and a line that would be an expression is wrapped into an
/// expression statement.
pub proof fn lemma_lines_are_wrapped(module: Seq<AstView>)
    ensures
        spec_lisp_to_js(module) is Program,
        spec_lisp_to_js(module)->Program_body.len() == module.len(),
        forall|i: int|
            0 <= i < module.len() ==> !(#[trigger] spec_lisp_to_js(
                module,
            )->Program_body[i]).is_expression(),
        forall|i: int|
            0 <= i < module.len() && spec_ast_to_js(module[i]).is_expression()
                ==> #[trigger] spec_lisp_to_js(module)->Program_body[i]
                == (JsView::ExpressionStatement {
                expression: Box::new(spec_ast_to_js(module[i])),
            }),
{
}

} // verus!
