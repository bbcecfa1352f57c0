//! The output tree: the catalogue of JavaScript syntax nodes that compilation produces.
//!
//! Every node type has a mathematical view (`EsView` and its companions) in which strings are
//! sequences of characters and vectors are sequences. Contracts speak of the views.

use vstd::prelude::*;

verus! {

/// The one kind of program the compiler emits.
#[derive(Clone, Copy, Debug, PartialEq, Eq)]
pub enum SourceType {
    Module,
}

/// The unary operators of the output tree.
#[derive(Clone, Copy, Debug, PartialEq, Eq)]
pub enum UnaryOp {
    Plus,
    Minus,
    Void,
}

/// The binary operators of the output tree.
#[derive(Clone, Copy, Debug, PartialEq, Eq)]
pub enum BinaryOp {
    Plus,
    Minus,
}

/// What a literal node holds. A floating-point number is kept as its decimal text, so that the
/// tree carries it unchanged from the source to the consumer.
#[derive(Debug, PartialEq)]
pub enum Value {
    Float(String),
    Integer(i64),
    String(String),
}

/// A node of the output tree.
#[allow(inconsistent_fields)]
#[derive(Debug, PartialEq)]
pub enum Es {
    Program { source_type: SourceType, body: Vec<Es> },
    ImportDeclaration { specifiers: Vec<ImportSpecifier>, source: Box<Es> },
    ExpressionStatement { expression: Box<Es> },
    Identifier { name: String },
    Literal { value: Value },
    NewExpression { callee: Box<Es>, arguments: Vec<Es> },
    CallExpression { callee: Box<Es>, arguments: Vec<Es> },
    MemberExpression { object: Box<Es>, property: Box<Es>, computed: bool, optional: bool },
    UnaryExpression { operator: UnaryOp, argument: Box<Es> },
    BinaryExpression { operator: BinaryOp, left: Box<Es>, right: Box<Es> },
    ArrayExpression { elements: Vec<Es> },
}

/// What an import declaration brings in.
#[derive(Debug, PartialEq)]
pub enum ImportSpecifier {
    Named { local: Es },
}

/// What a literal holds, as a mathematical value.
pub ghost enum ValueView {
    Float(Seq<char>),
    Integer(i64),
    String(Seq<char>),
}

/// An output tree as a mathematical value.
#[allow(inconsistent_fields)]
pub ghost enum EsView {
    Program { source_type: SourceType, body: Seq<EsView> },
    ImportDeclaration { specifiers: Seq<ImportSpecifierView>, source: Box<EsView> },
    ExpressionStatement { expression: Box<EsView> },
    Identifier { name: Seq<char> },
    Literal { value: ValueView },
    NewExpression { callee: Box<EsView>, arguments: Seq<EsView> },
    CallExpression { callee: Box<EsView>, arguments: Seq<EsView> },
    MemberExpression { object: Box<EsView>, property: Box<EsView>, computed: bool, optional: bool },
    UnaryExpression { operator: UnaryOp, argument: Box<EsView> },
    BinaryExpression { operator: BinaryOp, left: Box<EsView>, right: Box<EsView> },
    ArrayExpression { elements: Seq<EsView> },
}

/// An import specifier as a mathematical value.
pub ghost enum ImportSpecifierView {
    Named { local: EsView },
}

impl View for Value {
    type V = ValueView;

    open spec fn view(&self) -> ValueView {
        match self {
            Value::Float(text) => ValueView::Float(text@),
            Value::Integer(n) => ValueView::Integer(*n),
            Value::String(s) => ValueView::String(s@),
        }
    }
}

/// The views of a sequence of nodes, element by element.
pub open spec fn es_views(nodes: Seq<Es>) -> Seq<EsView>
    decreases nodes,
{
    Seq::new(
        nodes.len(),
        |i: int|
            if 0 <= i < nodes.len() {
                nodes[i].model()
            } else {
                arbitrary()
            },
    )
}

/// The views of a sequence of import specifiers, element by element.
pub open spec fn specifier_views(specifiers: Seq<ImportSpecifier>) -> Seq<ImportSpecifierView>
    decreases specifiers,
{
    Seq::new(
        specifiers.len(),
        |i: int|
            if 0 <= i < specifiers.len() {
                specifiers[i].model()
            } else {
                arbitrary()
            },
    )
}

impl Es {
    /// The tree as a mathematical value.
    pub open spec fn model(&self) -> EsView
        decreases self,
    {
        match self {
            Es::Program { source_type, body } => EsView::Program {
                source_type: *source_type,
                body: es_views(body@),
            },
            Es::ImportDeclaration { specifiers, source } => EsView::ImportDeclaration {
                specifiers: specifier_views(specifiers@),
                source: Box::new(source.model()),
            },
            Es::ExpressionStatement { expression } => EsView::ExpressionStatement {
                expression: Box::new(expression.model()),
            },
            Es::Identifier { name } => EsView::Identifier { name: name@ },
            Es::Literal { value } => EsView::Literal { value: value@ },
            Es::NewExpression { callee, arguments } => EsView::NewExpression {
                callee: Box::new(callee.model()),
                arguments: es_views(arguments@),
            },
            Es::CallExpression { callee, arguments } => EsView::CallExpression {
                callee: Box::new(callee.model()),
                arguments: es_views(arguments@),
            },
            Es::MemberExpression { object, property, computed, optional } => {
                EsView::MemberExpression {
                    object: Box::new(object.model()),
                    property: Box::new(property.model()),
                    computed: *computed,
                    optional: *optional,
                }
            },
            Es::UnaryExpression { operator, argument } => EsView::UnaryExpression {
                operator: *operator,
                argument: Box::new(argument.model()),
            },
            Es::BinaryExpression { operator, left, right } => EsView::BinaryExpression {
                operator: *operator,
                left: Box::new(left.model()),
                right: Box::new(right.model()),
            },
            Es::ArrayExpression { elements } => EsView::ArrayExpression {
                elements: es_views(elements@),
            },
        }
    }
}

impl ImportSpecifier {
    /// The specifier as a mathematical value.
    pub open spec fn model(&self) -> ImportSpecifierView
        decreases self,
    {
        match self {
            ImportSpecifier::Named { local } => ImportSpecifierView::Named { local: local.model() },
        }
    }
}

impl View for Es {
    type V = EsView;

    open spec fn view(&self) -> EsView {
        self.model()
    }
}

impl View for ImportSpecifier {
    type V = ImportSpecifierView;

    open spec fn view(&self) -> ImportSpecifierView {
        self.model()
    }
}

/// `es_views` keeps the length and views each element in place.
pub proof fn lemma_es_views(nodes: Seq<Es>)
    ensures
        es_views(nodes).len() == nodes.len(),
        forall|i: int| 0 <= i < nodes.len() ==> #[trigger] es_views(nodes)[i] == nodes[i]@,
{
}

/// Viewing commutes with appending a node.
pub proof fn lemma_es_views_push(nodes: Seq<Es>, node: Es)
    ensures
        es_views(nodes.push(node)) == es_views(nodes).push(node@),
{
    lemma_es_views(nodes);
    lemma_es_views(nodes.push(node));
}

/// `specifier_views` keeps the length and views each element in place.
pub proof fn lemma_specifier_views(specifiers: Seq<ImportSpecifier>)
    ensures
        specifier_views(specifiers).len() == specifiers.len(),
        forall|i: int|
            0 <= i < specifiers.len() ==> #[trigger] specifier_views(specifiers)[i]
                == specifiers[i]@,
{
}

impl EsView {
    pub open spec fn identifier(name: Seq<char>) -> EsView {
        EsView::Identifier { name }
    }

    pub open spec fn float_literal(text: Seq<char>) -> EsView {
        EsView::Literal { value: ValueView::Float(text) }
    }

    pub open spec fn int_literal(n: i64) -> EsView {
        EsView::Literal { value: ValueView::Integer(n) }
    }

    pub open spec fn string_literal(text: Seq<char>) -> EsView {
        EsView::Literal { value: ValueView::String(text) }
    }

    pub open spec fn new_expr(callee: EsView, arguments: Seq<EsView>) -> EsView {
        EsView::NewExpression { callee: Box::new(callee), arguments }
    }

    pub open spec fn call_expr(callee: EsView, arguments: Seq<EsView>) -> EsView {
        EsView::CallExpression { callee: Box::new(callee), arguments }
    }

    /// `object.property`, neither computed nor optional.
    pub open spec fn member_expr(object: EsView, property: EsView) -> EsView {
        EsView::MemberExpression {
            object: Box::new(object),
            property: Box::new(property),
            computed: false,
            optional: false,
        }
    }

    pub open spec fn unary_expr(operator: UnaryOp, argument: EsView) -> EsView {
        EsView::UnaryExpression { operator, argument: Box::new(argument) }
    }

    pub open spec fn binary_expr(operator: BinaryOp, left: EsView, right: EsView) -> EsView {
        EsView::BinaryExpression { operator, left: Box::new(left), right: Box::new(right) }
    }

    pub open spec fn array_expr(elements: Seq<EsView>) -> EsView {
        EsView::ArrayExpression { elements }
    }

    /// The member access `std.NULL`, which stands for the null value.
    pub open spec fn null() -> EsView {
        EsView::member_expr(EsView::identifier("std"@), EsView::identifier("NULL"@))
    }

    /// `void 0`.
    pub open spec fn undefined() -> EsView {
        EsView::unary_expr(UnaryOp::Void, EsView::int_literal(0))
    }

    /// An import of the whole of `source` under the one name `name`.
    pub open spec fn import_as(name: Seq<char>, source: Seq<char>) -> EsView {
        EsView::ImportDeclaration {
            specifiers: seq![ImportSpecifierView::Named { local: EsView::identifier(name) }],
            source: Box::new(EsView::string_literal(source)),
        }
    }

    /// Whether the node is an expression; the other kinds are statements.
    pub open spec fn is_expression(self) -> bool {
        match self {
            EsView::Program { .. } => false,
            EsView::ImportDeclaration { .. } => false,
            EsView::ExpressionStatement { .. } => false,
            EsView::Identifier { .. } => true,
            EsView::Literal { .. } => true,
            EsView::NewExpression { .. } => true,
            EsView::CallExpression { .. } => true,
            EsView::MemberExpression { .. } => true,
            EsView::UnaryExpression { .. } => true,
            EsView::BinaryExpression { .. } => true,
            EsView::ArrayExpression { .. } => true,
        }
    }

    /// An expression wrapped into an expression statement; a statement as it is.
    pub open spec fn into_statement(self) -> EsView {
        if self.is_expression() {
            EsView::ExpressionStatement { expression: Box::new(self) }
        } else {
            self
        }
    }
}

impl Es {
    /// Whether the node is an expression; the other kinds are statements.
    pub fn is_expression(&self) -> (b: bool)
        ensures
            b == self@.is_expression(),
    {
        match self {
            Es::Identifier { .. }
            | Es::Literal { .. }
            | Es::NewExpression { .. }
            | Es::MemberExpression { .. }
            | Es::ArrayExpression { .. }
            | Es::CallExpression { .. }
            | Es::BinaryExpression { .. }
            | Es::UnaryExpression { .. } => true,
            Es::Program { .. } | Es::ImportDeclaration { .. } | Es::ExpressionStatement { .. } => {
                false
            },
        }
    }

    /// The node as a statement: an expression is wrapped, a statement stays as it is.
    pub fn into_statement(self) -> (es: Es)
        ensures
            es@ == self@.into_statement(),
            !es@.is_expression(),
    {
        if self.is_expression() {
            Es::ExpressionStatement { expression: Box::new(self) }
        } else {
            self
        }
    }

    /// The member access `std.NULL`, which stands for the null value.
    pub fn null() -> (es: Es)
        ensures
            es@ == EsView::null(),
    {
        Es::member_expr(Es::identifier("std"), Es::identifier("NULL"))
    }

    /// `void 0`.
    pub fn undefined() -> (es: Es)
        ensures
            es@ == EsView::undefined(),
    {
        Es::UnaryExpression { operator: UnaryOp::Void, argument: Box::new(Es::int_literal(0)) }
    }

    pub fn identifier(name: &str) -> (es: Es)
        ensures
            es@ == EsView::identifier(name@),
    {
        Es::Identifier { name: name.to_owned() }
    }

    /// A numeric literal for the floating-point number that `text` writes.
    pub fn float_literal(text: &str) -> (es: Es)
        ensures
            es@ == EsView::float_literal(text@),
    {
        Es::Literal { value: Value::Float(text.to_owned()) }
    }

    pub fn int_literal(n: i64) -> (es: Es)
        ensures
            es@ == EsView::int_literal(n),
    {
        Es::Literal { value: Value::Integer(n) }
    }

    pub fn string_literal(text: &str) -> (es: Es)
        ensures
            es@ == EsView::string_literal(text@),
    {
        Es::Literal { value: Value::String(text.to_owned()) }
    }

    pub fn new_expr(callee: Es, arguments: Vec<Es>) -> (es: Es)
        ensures
            es@ == EsView::new_expr(callee@, es_views(arguments@)),
    {
        Es::NewExpression { callee: Box::new(callee), arguments }
    }

    pub fn call_expr(callee: Es, arguments: Vec<Es>) -> (es: Es)
        ensures
            es@ == EsView::call_expr(callee@, es_views(arguments@)),
    {
        Es::CallExpression { callee: Box::new(callee), arguments }
    }

    /// `object.property`, neither computed nor optional.
    pub fn member_expr(object: Es, property: Es) -> (es: Es)
        ensures
            es@ == EsView::member_expr(object@, property@),
    {
        Es::MemberExpression {
            object: Box::new(object),
            property: Box::new(property),
            computed: false,
            optional: false,
        }
    }

    pub fn unary_expr(operator: UnaryOp, argument: Es) -> (es: Es)
        ensures
            es@ == EsView::unary_expr(operator, argument@),
    {
        Es::UnaryExpression { operator, argument: Box::new(argument) }
    }

    pub fn binary_expr(operator: BinaryOp, left: Es, right: Es) -> (es: Es)
        ensures
            es@ == EsView::binary_expr(operator, left@, right@),
    {
        Es::BinaryExpression { operator, left: Box::new(left), right: Box::new(right) }
    }

    /// An import of the whole of `source` under the one name `name`.
    pub fn import_as(name: &str, source: &str) -> (es: Es)
        ensures
            es@ == EsView::import_as(name@, source@),
    {
        let mut specifiers: Vec<ImportSpecifier> = Vec::new();
        specifiers.push(ImportSpecifier::Named { local: Es::identifier(name) });
        let es = Es::ImportDeclaration {
            specifiers,
            source: Box::new(Es::string_literal(source)),
        };
        proof {
            lemma_specifier_views(specifiers@);
            assert(specifier_views(specifiers@) =~= seq![
                ImportSpecifierView::Named { local: EsView::identifier(name@) },
            ]);
        }
        es
    }
}

} // verus!
