//! From text to the syntax tree of the literal dialect, in which vectors, maps, sets and quoted
//! expressions are nodes of their own and every name borrows its text from the parse tree.

use vstd::prelude::*;
use crate::grammar::{
    ErrorKind,
    Node,
    NodeView,
    ParseError,
    Rule,
    are_expr_nodes,
    failure,
    is_expr_node,
    is_float_text,
    lemma_exprs_shape,
    match_exprs,
    match_module,
    lemma_node_views,
    match_rule,
    node_views,
    parse_rule,
};
use crate::number::{i64_value, is_float, parse_i64};

verus! {

/// A node of the syntax tree. A floating-point number is kept as its decimal text.
#[derive(Debug, PartialEq)]
pub enum Ast<'a> {
    Integer(i64),
    Float(&'a str),
    String(&'a str),
    Atom(&'a str),
    Symbol(&'a str),
    List(Vec<Ast<'a>>),
    Vector(Vec<Ast<'a>>),
    MapLiteral(Vec<(Ast<'a>, Ast<'a>)>),
    SetLiteral(Vec<Ast<'a>>),
    Quoted(Box<Ast<'a>>),
}

/// A syntax tree as a mathematical value.
pub ghost enum AstView {
    Integer(i64),
    Float(Seq<char>),
    String(Seq<char>),
    Atom(Seq<char>),
    Symbol(Seq<char>),
    List(Seq<AstView>),
    Vector(Seq<AstView>),
    MapLiteral(Seq<(AstView, AstView)>),
    SetLiteral(Seq<AstView>),
    Quoted(Box<AstView>),
}

/// The views of a sequence of nodes, element by element.
pub open spec fn ast_views(nodes: Seq<Ast>) -> Seq<AstView>
    decreases nodes,
{
    Seq::new(
        nodes.len(),
        |i: int|
            if 0 <= i < nodes.len() {
                nodes[i].model()
            } else {
                arbitrary()
            },
    )
}

/// The views of a sequence of pairs of nodes, element by element.
pub open spec fn pair_views(pairs: Seq<(Ast, Ast)>) -> Seq<(AstView, AstView)>
    decreases pairs,
{
    Seq::new(
        pairs.len(),
        |i: int|
            if 0 <= i < pairs.len() {
                (pairs[i].0.model(), pairs[i].1.model())
            } else {
                arbitrary()
            },
    )
}

impl<'a> Ast<'a> {
    /// The tree as a mathematical value.
    pub open spec fn model(&self) -> AstView
        decreases self,
    {
        match self {
            Ast::Integer(n) => AstView::Integer(*n),
            Ast::Float(text) => AstView::Float(text@),
            Ast::String(text) => AstView::String(text@),
            Ast::Atom(name) => AstView::Atom(name@),
            Ast::Symbol(name) => AstView::Symbol(name@),
            Ast::List(items) => AstView::List(ast_views(items@)),
            Ast::Vector(items) => AstView::Vector(ast_views(items@)),
            Ast::MapLiteral(pairs) => AstView::MapLiteral(pair_views(pairs@)),
            Ast::SetLiteral(items) => AstView::SetLiteral(ast_views(items@)),
            Ast::Quoted(inner) => AstView::Quoted(Box::new(inner.model())),
        }
    }
}

impl<'a> View for Ast<'a> {
    type V = AstView;

    open spec fn view(&self) -> AstView {
        self.model()
    }
}

/// `ast_views` keeps the length and views each element in place.
pub proof fn lemma_ast_views(nodes: Seq<Ast>)
    ensures
        ast_views(nodes).len() == nodes.len(),
        forall|i: int| 0 <= i < nodes.len() ==> #[trigger] ast_views(nodes)[i] == nodes[i]@,
{
}

/// Viewing commutes with appending a node.
pub proof fn lemma_ast_views_push(nodes: Seq<Ast>, node: Ast)
    ensures
        ast_views(nodes.push(node)) == ast_views(nodes).push(node@),
{
    lemma_ast_views(nodes);
    lemma_ast_views(nodes.push(node));
}

/// `pair_views` keeps the length and views each pair in place.
pub proof fn lemma_pair_views(pairs: Seq<(Ast, Ast)>)
    ensures
        pair_views(pairs).len() == pairs.len(),
        forall|i: int|
            0 <= i < pairs.len() ==> #[trigger] pair_views(pairs)[i] == (pairs[i].0@, pairs[i].1@),
{
}

/// The parser of the literal dialect.
pub struct JaspParser;

/// The failure of kind `kind` about the text of `node`.
pub open spec fn error_at(kind: ErrorKind, node: NodeView) -> ParseError {
    failure(kind, node.start, node.end)
}

/// The items of a sequence two by two; an item left over at the end is dropped.
pub open spec fn pairs_of(items: Seq<AstView>) -> Seq<(AstView, AstView)> {
    Seq::new((items.len() / 2) as nat, |i: int| (items[2 * i], items[2 * i + 1]))
}

/// An integer node is the integer that its text writes, where that is a 64-bit integer.
pub open spec fn reduce_integer(node: NodeView) -> Result<AstView, ParseError> {
    match i64_value(node.text) {
        Some(n) => Ok(AstView::Integer(n)),
        None => Err(error_at(ErrorKind::MalformedNumber, node)),
    }
}

/// A float node is the float that its text writes; the tree keeps the text.
pub open spec fn reduce_float(node: NodeView) -> Result<AstView, ParseError> {
    if is_float_text(node.text) {
        Ok(AstView::Float(node.text))
    } else {
        Err(error_at(ErrorKind::MalformedNumber, node))
    }
}

/// A string node is the text of its one child, as it is written.
pub open spec fn reduce_string(node: NodeView) -> Result<AstView, ParseError> {
    if node.children.len() == 1 {
        Ok(AstView::String(node.children[0].text))
    } else {
        Err(error_at(ErrorKind::UnexpectedNode, node))
    }
}

/// A symbol node is the symbol of that name.
pub open spec fn reduce_symbol(node: NodeView) -> Result<AstView, ParseError> {
    Ok(AstView::Symbol(node.text))
}

/// A keyword node is the atom that its one child names.
pub open spec fn reduce_atom(node: NodeView) -> Result<AstView, ParseError> {
    if node.children.len() == 1 {
        Ok(AstView::Atom(node.children[0].text))
    } else {
        Err(error_at(ErrorKind::UnexpectedNode, node))
    }
}

/// A list node is the list of the trees of its items.
pub open spec fn reduce_list(node: NodeView) -> Result<AstView, ParseError>
    decreases node, 1nat,
{
    match reduce_exprs(node.children) {
        Ok(items) => Ok(AstView::List(items)),
        Err(e) => Err(e),
    }
}

/// A vector node is the vector of the trees of its items.
pub open spec fn reduce_vector(node: NodeView) -> Result<AstView, ParseError>
    decreases node, 1nat,
{
    match reduce_exprs(node.children) {
        Ok(items) => Ok(AstView::Vector(items)),
        Err(e) => Err(e),
    }
}

/// An object node is the map whose entries are the trees of its items, two by two.
pub open spec fn reduce_map(node: NodeView) -> Result<AstView, ParseError>
    decreases node, 1nat,
{
    match reduce_exprs(node.children) {
        Ok(items) => Ok(AstView::MapLiteral(pairs_of(items))),
        Err(e) => Err(e),
    }
}

/// A set node is the set of the trees of its items, in the order written.
pub open spec fn reduce_set(node: NodeView) -> Result<AstView, ParseError>
    decreases node, 1nat,
{
    match reduce_exprs(node.children) {
        Ok(items) => Ok(AstView::SetLiteral(items)),
        Err(e) => Err(e),
    }
}

/// A quoted node is the tree of its one child, quoted.
pub open spec fn reduce_quoted(node: NodeView) -> Result<AstView, ParseError>
    decreases node, 1nat,
{
    if node.children.len() == 1 {
        match reduce_expr(node.children[0]) {
            Ok(quoted) => Ok(AstView::Quoted(Box::new(quoted))),
            Err(e) => Err(e),
        }
    } else {
        Err(error_at(ErrorKind::UnexpectedNode, node))
    }
}

/// The tree of an `expr` node: that of its one child, by the child's rule.
#[verifier::opaque]
pub open spec fn reduce_expr(node: NodeView) -> Result<AstView, ParseError>
    decreases node, 2nat,
{
    if node.rule == Rule::Expr && node.children.len() == 1 {
        let child = node.children[0];
        match child.rule {
            Rule::Float => reduce_float(child),
            Rule::Integer => reduce_integer(child),
            Rule::String => reduce_string(child),
            Rule::Keyword => reduce_atom(child),
            Rule::Symbol => reduce_symbol(child),
            Rule::List => reduce_list(child),
            Rule::Vector => reduce_vector(child),
            Rule::SetLiteral => reduce_set(child),
            Rule::Object => reduce_map(child),
            Rule::Quoted => reduce_quoted(child),
            _ => Err(error_at(ErrorKind::UnexpectedNode, child)),
        }
    } else {
        Err(error_at(ErrorKind::UnexpectedNode, node))
    }
}

/// The trees of a sequence of `expr` nodes, in order; the failure of the first that has one.
pub open spec fn reduce_exprs(nodes: Seq<NodeView>) -> Result<Seq<AstView>, ParseError>
    decreases nodes, 0nat,
{
    if nodes.len() == 0 {
        Ok(Seq::empty())
    } else {
        match reduce_exprs(nodes.drop_last()) {
            Ok(front) => match reduce_expr(nodes.last()) {
                Ok(ast) => Ok(front.push(ast)),
                Err(e) => Err(e),
            },
            Err(e) => Err(e),
        }
    }
}

/// The trees of the expressions of a module node, whose last child marks the end of the text.
pub open spec fn reduce_module(node: NodeView) -> Result<Seq<AstView>, ParseError> {
    if node.children.len() > 0 && node.children.last().rule == Rule::EOI {
        reduce_exprs(node.children.drop_last())
    } else {
        Err(error_at(ErrorKind::UnexpectedNode, node))
    }
}

/// The view of the result of reducing one node.
pub open spec fn result_view(result: Result<Ast, ParseError>) -> Result<AstView, ParseError> {
    match result {
        Ok(ast) => Ok(ast@),
        Err(e) => Err(e),
    }
}

/// The view of the result of reducing a sequence of nodes.
pub open spec fn results_view(result: Result<Vec<Ast>, ParseError>) -> Result<
    Seq<AstView>,
    ParseError,
> {
    match result {
        Ok(items) => Ok(ast_views(items@)),
        Err(e) => Err(e),
    }
}

/// One more node: the trees so far and its own, or the first failure.
proof fn lemma_reduce_step(front: Seq<NodeView>, node: NodeView)
    ensures
        reduce_exprs(front.push(node)) == match reduce_exprs(front) {
            Ok(trees) => match reduce_expr(node) {
                Ok(ast) => Ok::<Seq<AstView>, ParseError>(trees.push(ast)),
                Err(e) => Err(e),
            },
            Err(e) => Err(e),
        },
{
    reveal(reduce_expr);
    let all = front.push(node);
    assert(all.drop_last() =~= front);
}

/// A failure among the first `upto` nodes is the failure of the whole sequence.
proof fn lemma_reduce_failure(nodes: Seq<NodeView>, upto: int)
    requires
        0 <= upto <= nodes.len(),
        reduce_exprs(nodes.take(upto)) is Err,
    ensures
        reduce_exprs(nodes) == reduce_exprs(nodes.take(upto)),
    decreases nodes.len() - upto,
{
    reveal(reduce_expr);
    if upto == nodes.len() {
        assert(nodes.take(upto) =~= nodes);
    } else {
        assert(nodes.take(upto + 1).drop_last() =~= nodes.take(upto));
        lemma_reduce_failure(nodes, upto + 1);
    }
}

fn fail(kind: ErrorKind, node: &Node) -> (e: ParseError)
    ensures
        e == error_at(kind, node@),
{
    ParseError { kind, start: node.start, end: node.end }
}

impl JaspParser {
    /// Parses the start of `source` by `rule`.
    pub fn parse(rule: Rule, source: &str) -> (result: Result<Node, ParseError>)
        ensures
            crate::grammar::result_view(result) == match_rule(rule, source@, true),
    {
        parse_rule(rule, source, true)
    }

    /// Reduces a module node to the lines of the module.
    pub fn module<'a>(input: &'a Node) -> (result: Result<Vec<Ast<'a>>, ParseError>)
        ensures
            results_view(result) == reduce_module(input@),
    {
        let n = input.children.len();
        proof {
            lemma_node_views(input.children@);
        }
        if n > 0 && matches!(input.children[n - 1].rule, Rule::EOI) {
            proof {
                assert(node_views(input.children@).drop_last() =~= node_views(
                    input.children@,
                ).take(n - 1));
            }
            Self::exprs(&input.children, n - 1)
        } else {
            Err(fail(ErrorKind::UnexpectedNode, input))
        }
    }

    /// Reduces an integer node.
    pub fn integer<'a>(input: &'a Node) -> (result: Result<Ast<'a>, ParseError>)
        ensures
            result_view(result) == reduce_integer(input@),
    {
        match parse_i64(input.text.as_str()) {
            Some(n) => Ok(Ast::Integer(n)),
            None => Err(fail(ErrorKind::MalformedNumber, input)),
        }
    }

    /// Reduces a float node.
    pub fn float<'a>(input: &'a Node) -> (result: Result<Ast<'a>, ParseError>)
        ensures
            result_view(result) == reduce_float(input@),
    {
        if is_float(input.text.as_str()) {
            Ok(Ast::Float(input.text.as_str()))
        } else {
            Err(fail(ErrorKind::MalformedNumber, input))
        }
    }

    /// Reduces a string node.
    pub fn string<'a>(input: &'a Node) -> (result: Result<Ast<'a>, ParseError>)
        ensures
            result_view(result) == reduce_string(input@),
    {
        proof {
            lemma_node_views(input.children@);
        }
        if input.children.len() == 1 {
            Ok(Ast::String(input.children[0].text.as_str()))
        } else {
            Err(fail(ErrorKind::UnexpectedNode, input))
        }
    }

    /// Reduces a symbol node.
    pub fn symbol<'a>(input: &'a Node) -> (result: Result<Ast<'a>, ParseError>)
        ensures
            result_view(result) == reduce_symbol(input@),
    {
        Ok(Ast::Symbol(input.text.as_str()))
    }

    /// Reduces a keyword node to an atom.
    pub fn atom<'a>(input: &'a Node) -> (result: Result<Ast<'a>, ParseError>)
        ensures
            result_view(result) == reduce_atom(input@),
    {
        proof {
            lemma_node_views(input.children@);
        }
        if input.children.len() == 1 {
            Ok(Ast::Atom(input.children[0].text.as_str()))
        } else {
            Err(fail(ErrorKind::UnexpectedNode, input))
        }
    }

    /// Reduces an `expr` node.
    pub fn expr<'a>(input: &'a Node) -> (result: Result<Ast<'a>, ParseError>)
        ensures
            result_view(result) == reduce_expr(input@),
        decreases input, 2nat,
    {
        proof {
            reveal(reduce_expr);
            lemma_node_views(input.children@);
        }
        if !matches!(input.rule, Rule::Expr) || input.children.len() != 1 {
            return Err(fail(ErrorKind::UnexpectedNode, input));
        }
        let child = &input.children[0];
        match child.rule {
            Rule::Float => Self::float(child),
            Rule::Integer => Self::integer(child),
            Rule::String => Self::string(child),
            Rule::Keyword => Self::atom(child),
            Rule::Symbol => Self::symbol(child),
            Rule::List => Self::list(child),
            Rule::Vector => Self::vector(child),
            Rule::SetLiteral => Self::set(child),
            Rule::Object => Self::map(child),
            Rule::Quoted => Self::quoted(child),
            _ => Err(fail(ErrorKind::UnexpectedNode, child)),
        }
    }

    /// Reduces a list node.
    pub fn list<'a>(input: &'a Node) -> (result: Result<Ast<'a>, ParseError>)
        ensures
            result_view(result) == reduce_list(input@),
        decreases input, 1nat,
    {
        proof {
            reveal(reduce_expr);
        }
        match Self::exprs(&input.children, input.children.len()) {
            Ok(items) => Ok(Ast::List(items)),
            Err(e) => Err(e),
        }
    }

    /// Reduces a vector node.
    pub fn vector<'a>(input: &'a Node) -> (result: Result<Ast<'a>, ParseError>)
        ensures
            result_view(result) == reduce_vector(input@),
        decreases input, 1nat,
    {
        proof {
            reveal(reduce_expr);
        }
        match Self::exprs(&input.children, input.children.len()) {
            Ok(items) => Ok(Ast::Vector(items)),
            Err(e) => Err(e),
        }
    }

    /// Reduces an object node to a map.
    pub fn map<'a>(input: &'a Node) -> (result: Result<Ast<'a>, ParseError>)
        ensures
            result_view(result) == reduce_map(input@),
        decreases input, 1nat,
    {
        let ghost views = node_views(input.children@);
        let ghost mut trees: Seq<AstView> = Seq::empty();
        let mut kvs: Vec<(Ast<'a>, Ast<'a>)> = Vec::new();
        let mut pending: Option<Ast<'a>> = None;
        let n = input.children.len();
        let mut i: usize = 0;
        proof {
            reveal(reduce_expr);
            lemma_node_views(input.children@);
        }
        while i < n
            invariant
                i <= n,
                n == input.children.len(),
                views == node_views(input.children@),
                reduce_exprs(views.take(i as int)) == Ok::<Seq<AstView>, ParseError>(trees),
                trees.len() == i,
                pair_views(kvs@) == pairs_of(trees),
                pending is Some <==> i % 2 == 1,
                pending matches Some(key) ==> key@ == trees[i - 1],
            decreases n - i,
        {
            proof {
                lemma_node_views(input.children@);
                assert(views.take(i + 1) =~= views.take(i as int).push(input.children[i as int]@));
                lemma_reduce_step(views.take(i as int), input.children[i as int]@);
            }
            match Self::expr(&input.children[i]) {
                Ok(ast) => {
                    let ghost before = trees;
                    proof {
                        trees = trees.push(ast@);
                    }
                    match pending {
                        Some(key) => {
                            proof {
                                lemma_pair_views(kvs@);
                                lemma_pair_views(kvs@.push((key, ast)));
                                let grown = pair_views(kvs@.push((key, ast)));
                                let half = before.len() / 2;
                                assert forall|j: int| 0 <= j < half + 1 implies grown[j]
                                    == pairs_of(trees)[j] by {
                                    if j < half {
                                        assert(pairs_of(before)[j] == (
                                            before[2 * j],
                                            before[2 * j + 1],
                                        ));
                                    }
                                }
                            }
                            kvs.push((key, ast));
                            pending = None;
                        },
                        None => {
                            pending = Some(ast);
                        },
                    }
                },
                Err(e) => {
                    proof {
                        lemma_reduce_failure(views, i + 1);
                    }
                    return Err(e);
                },
            }
            i += 1;
        }
        assert(views.take(i as int) =~= views);
        Ok(Ast::MapLiteral(kvs))
    }

    /// Reduces a set node.
    pub fn set<'a>(input: &'a Node) -> (result: Result<Ast<'a>, ParseError>)
        ensures
            result_view(result) == reduce_set(input@),
        decreases input, 1nat,
    {
        proof {
            reveal(reduce_expr);
        }
        match Self::exprs(&input.children, input.children.len()) {
            Ok(items) => Ok(Ast::SetLiteral(items)),
            Err(e) => Err(e),
        }
    }

    /// Reduces a quoted node.
    pub fn quoted<'a>(input: &'a Node) -> (result: Result<Ast<'a>, ParseError>)
        ensures
            result_view(result) == reduce_quoted(input@),
        decreases input, 1nat,
    {
        proof {
            reveal(reduce_expr);
            lemma_node_views(input.children@);
        }
        if input.children.len() == 1 {
            match Self::expr(&input.children[0]) {
                Ok(quoted) => Ok(Ast::Quoted(Box::new(quoted))),
                Err(e) => Err(e),
            }
        } else {
            Err(fail(ErrorKind::UnexpectedNode, input))
        }
    }

    /// Reduces the first `count` of `nodes`, in order.
    fn exprs<'a>(nodes: &'a Vec<Node>, count: usize) -> (result: Result<Vec<Ast<'a>>, ParseError>)
        requires
            count <= nodes.len(),
        ensures
            results_view(result) == reduce_exprs(node_views(nodes@).take(count as int)),
            count == nodes.len() ==> results_view(result) == reduce_exprs(node_views(nodes@)),
        decreases nodes, 0nat,
    {
        assert(count == nodes.len() ==> node_views(nodes@).take(count as int) =~= node_views(
            nodes@,
        ));
        let ghost views = node_views(nodes@).take(count as int);
        let mut items: Vec<Ast<'a>> = Vec::new();
        let mut i: usize = 0;
        proof {
            lemma_node_views(nodes@);
            assert(ast_views(items@) =~= Seq::<AstView>::empty());
        }
        while i < count
            invariant
                i <= count <= nodes.len(),
                views == node_views(nodes@).take(count as int),
                reduce_exprs(views.take(i as int)) == Ok::<Seq<AstView>, ParseError>(
                    ast_views(items@),
                ),
            decreases count - i,
        {
            proof {
                lemma_node_views(nodes@);
                assert(views.take(i + 1) =~= views.take(i as int).push(nodes[i as int]@));
                lemma_reduce_step(views.take(i as int), nodes[i as int]@);
            }
            match Self::expr(&nodes[i]) {
                Ok(ast) => {
                    proof {
                        lemma_ast_views_push(items@, ast);
                    }
                    items.push(ast);
                },
                Err(e) => {
                    proof {
                        lemma_reduce_failure(views, i + 1);
                        if count == nodes.len() {
                            assert(views =~= node_views(nodes@));
                        }
                    }
                    return Err(e);
                },
            }
            i += 1;
        }
        assert(views.take(i as int) =~= views);
        Ok(items)
    }
}

/// The lines of the module that `source` writes in the literal dialect.
pub open spec fn spec_parse(source: Seq<char>) -> Result<Seq<AstView>, ParseError> {
    match match_module(source, true) {
        Ok(node) => reduce_module(node),
        Err(e) => Err(e),
    }
}

/// Reducing a node of the shape of an `expr` fails only on a number without a value.
pub proof fn lemma_expr_errors(node: NodeView)
    requires
        is_expr_node(node, true),
    ensures
        reduce_expr(node) matches Err(e) ==> e.kind == ErrorKind::MalformedNumber,
    decreases node, 1nat,
{
    reveal(reduce_expr);
    let child = node.children[0];
    match child.rule {
        Rule::List => {
            lemma_exprs_errors(child.children);
        },
        Rule::Vector => {
            lemma_exprs_errors(child.children);
        },
        Rule::Object => {
            lemma_exprs_errors(child.children);
        },
        Rule::SetLiteral => {
            lemma_exprs_errors(child.children);
        },
        Rule::Quoted => {
            lemma_expr_errors(child.children[0]);
        },
        _ => {},
    }
}

/// Reducing nodes of the shape of an `expr` fails only on a number without a value.
pub proof fn lemma_exprs_errors(nodes: Seq<NodeView>)
    requires
        are_expr_nodes(nodes, true),
    ensures
        reduce_exprs(nodes) matches Err(e) ==> e.kind == ErrorKind::MalformedNumber,
    decreases nodes, 0nat,
{
    reveal(reduce_expr);
    if nodes.len() > 0 {
        assert forall|i: int| 0 <= i < nodes.drop_last().len() implies is_expr_node(
            #[trigger] nodes.drop_last()[i],
            true,
        ) by {
        }
        lemma_exprs_errors(nodes.drop_last());
        lemma_expr_errors(nodes.last());
    }
}

/// A text fails to parse either because it does not follow the grammar, and then from the
/// grammar's own error, or because it writes an integer that has no 64-bit value.
pub proof fn lemma_parse_errors(source: Seq<char>)
    ensures
        match_module(source, true) matches Err(e) ==> spec_parse(source) == Err::<
            Seq<AstView>,
            ParseError,
        >(e) && e.kind == ErrorKind::Syntax,
        match_module(source, true) is Ok ==> (spec_parse(source) matches Err(e) ==> e.kind
            == ErrorKind::MalformedNumber),
{
    if let Ok(node) = match_module(source, true) {
        let items = match_exprs(source, 0, true).0;
        lemma_exprs_shape(source, 0, true);
        assert(node.children.drop_last() =~= items);
        lemma_exprs_errors(items);
    }
}

} // verus!
