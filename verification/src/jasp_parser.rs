//! From text to the Lisp syntax tree: the parse tree of the grammar, reduced node by node.

use vstd::prelude::*;
use crate::ast::{Ast, AstView, ast_views, lemma_ast_views, lemma_ast_views_push};
use crate::grammar::{
    ErrorKind,
    Node,
    NodeView,
    ParseError,
    Rule,
    are_expr_nodes,
    failure,
    is_expr_node,
    is_float_text,
    lemma_exprs_shape,
    match_exprs,
    lemma_node_views,
    match_module,
    match_rule,
    node_views,
    parse_module,
    parse_rule,
};
use crate::number::{i64_value, is_float, parse_i64};
use crate::util::lemma_hash_range;

verus! {

/// The parser of the language.
pub struct JaspParser;

/// The failure of kind `kind` about the text of `node`.
pub open spec fn error_at(kind: ErrorKind, node: NodeView) -> ParseError {
    failure(kind, node.start, node.end)
}

/// The call of `identifier` on `children`, as a list.
pub open spec fn spec_to_call(identifier: Seq<char>, children: Seq<AstView>) -> AstView {
    AstView::List(seq![AstView::identifier(identifier)] + children)
}

/// An integer node is the integer that its text writes, where that is a 64-bit integer.
pub open spec fn reduce_integer(node: NodeView) -> Result<AstView, ParseError> {
    match i64_value(node.text) {
        Some(n) => Ok(AstView::Int(n)),
        None => Err(error_at(ErrorKind::MalformedNumber, node)),
    }
}

/// A float node is the float that its text writes; the tree keeps the text.
pub open spec fn reduce_float(node: NodeView) -> Result<AstView, ParseError> {
    if is_float_text(node.text) {
        Ok(AstView::Float(node.text))
    } else {
        Err(error_at(ErrorKind::MalformedNumber, node))
    }
}

/// A string node is the text of its one child, as it is written.
pub open spec fn reduce_string(node: NodeView) -> Result<AstView, ParseError> {
    if node.children.len() == 1 {
        Ok(AstView::String(node.children[0].text))
    } else {
        Err(error_at(ErrorKind::UnexpectedNode, node))
    }
}

/// A symbol node is the identifier of that name.
pub open spec fn reduce_symbol(node: NodeView) -> Result<AstView, ParseError> {
    Ok(AstView::identifier(node.text))
}

/// A keyword node is the keyword that its one child names, of no module.
pub open spec fn reduce_keyword(node: NodeView) -> Result<AstView, ParseError> {
    if node.children.len() == 1 {
        Ok(AstView::keyword(Seq::empty(), node.children[0].text))
    } else {
        Err(error_at(ErrorKind::UnexpectedNode, node))
    }
}

/// A list node is the list of the trees of its items.
pub open spec fn reduce_list(node: NodeView) -> Result<AstView, ParseError>
    decreases node, 1nat,
{
    match reduce_exprs(node.children) {
        Ok(items) => Ok(AstView::List(items)),
        Err(e) => Err(e),
    }
}

/// A vector node is a call of `vec` on the trees of its items.
pub open spec fn reduce_vector(node: NodeView) -> Result<AstView, ParseError>
    decreases node, 1nat,
{
    match reduce_exprs(node.children) {
        Ok(items) => Ok(spec_to_call("vec"@, items)),
        Err(e) => Err(e),
    }
}

/// An object node is a call of `object` on the trees of its items.
pub open spec fn reduce_object(node: NodeView) -> Result<AstView, ParseError>
    decreases node, 1nat,
{
    match reduce_exprs(node.children) {
        Ok(items) => Ok(spec_to_call("object"@, items)),
        Err(e) => Err(e),
    }
}

/// A quoted node is a call of `quote` on the tree of its one child.
pub open spec fn reduce_quoted(node: NodeView) -> Result<AstView, ParseError>
    decreases node, 1nat,
{
    if node.children.len() == 1 {
        match reduce_expr(node.children[0]) {
            Ok(quoted) => Ok(spec_to_call("quote"@, seq![quoted])),
            Err(e) => Err(e),
        }
    } else {
        Err(error_at(ErrorKind::UnexpectedNode, node))
    }
}

/// The tree of an `expr` node: that of its one child, by the child's rule.
#[verifier::opaque]
pub open spec fn reduce_expr(node: NodeView) -> Result<AstView, ParseError>
    decreases node, 2nat,
{
    if node.rule == Rule::Expr && node.children.len() == 1 {
        let child = node.children[0];
        match child.rule {
            Rule::Float => reduce_float(child),
            Rule::Integer => reduce_integer(child),
            Rule::String => reduce_string(child),
            Rule::Keyword => reduce_keyword(child),
            Rule::Symbol => reduce_symbol(child),
            Rule::List => reduce_list(child),
            Rule::Vector => reduce_vector(child),
            Rule::Object => reduce_object(child),
            Rule::Quoted => reduce_quoted(child),
            _ => Err(error_at(ErrorKind::UnexpectedNode, child)),
        }
    } else {
        Err(error_at(ErrorKind::UnexpectedNode, node))
    }
}

/// The trees of a sequence of `expr` nodes, in order; the failure of the first that has one.
pub open spec fn reduce_exprs(nodes: Seq<NodeView>) -> Result<Seq<AstView>, ParseError>
    decreases nodes, 0nat,
{
    if nodes.len() == 0 {
        Ok(Seq::empty())
    } else {
        match reduce_exprs(nodes.drop_last()) {
            Ok(front) => match reduce_expr(nodes.last()) {
                Ok(ast) => Ok(front.push(ast)),
                Err(e) => Err(e),
            },
            Err(e) => Err(e),
        }
    }
}

/// The trees of the expressions of a module node, whose last child marks the end of the text.
pub open spec fn reduce_module(node: NodeView) -> Result<Seq<AstView>, ParseError> {
    if node.children.len() > 0 && node.children.last().rule == Rule::EOI {
        reduce_exprs(node.children.drop_last())
    } else {
        Err(error_at(ErrorKind::UnexpectedNode, node))
    }
}

/// The lines of the module that `source` writes.
pub open spec fn spec_parse(source: Seq<char>) -> Result<Seq<AstView>, ParseError> {
    match match_module(source, false) {
        Ok(node) => reduce_module(node),
        Err(e) => Err(e),
    }
}

/// The view of the result of reducing one node.
pub open spec fn result_view(result: Result<Ast, ParseError>) -> Result<AstView, ParseError> {
    match result {
        Ok(ast) => Ok(ast@),
        Err(e) => Err(e),
    }
}

/// The view of the result of reducing a sequence of nodes.
pub open spec fn results_view(result: Result<Vec<Ast>, ParseError>) -> Result<
    Seq<AstView>,
    ParseError,
> {
    match result {
        Ok(items) => Ok(ast_views(items@)),
        Err(e) => Err(e),
    }
}

/// No nodes, no trees.
pub proof fn lemma_reduce_none()
    ensures
        reduce_exprs(Seq::empty()) == Ok::<Seq<AstView>, ParseError>(Seq::empty()),
{
    reveal(reduce_expr);
}

/// The tree of the `expr` node around a node is the tree of that node, by its rule.
pub proof fn lemma_reduce_wrapped(inner: NodeView)
    ensures
        reduce_expr(crate::grammar::wrap(inner)) == match inner.rule {
            Rule::Float => reduce_float(inner),
            Rule::Integer => reduce_integer(inner),
            Rule::String => reduce_string(inner),
            Rule::Keyword => reduce_keyword(inner),
            Rule::Symbol => reduce_symbol(inner),
            Rule::List => match reduce_exprs(inner.children) {
                Ok(items) => Ok(AstView::List(items)),
                Err(e) => Err(e),
            },
            Rule::Vector => reduce_vector(inner),
            Rule::Object => reduce_object(inner),
            Rule::Quoted => reduce_quoted(inner),
            _ => Err(error_at(ErrorKind::UnexpectedNode, inner)),
        },
{
    reveal(reduce_expr);
}

/// One more node: the trees so far and its own, or the first failure.
pub proof fn lemma_reduce_step(front: Seq<NodeView>, node: NodeView)
    ensures
        reduce_exprs(front.push(node)) == match reduce_exprs(front) {
            Ok(trees) => match reduce_expr(node) {
                Ok(ast) => Ok::<Seq<AstView>, ParseError>(trees.push(ast)),
                Err(e) => Err(e),
            },
            Err(e) => Err(e),
        },
{
    reveal(reduce_expr);
    let all = front.push(node);
    assert(all.drop_last() =~= front);
}

/// A failure among the first `upto` nodes is the failure of the whole sequence.
proof fn lemma_reduce_failure(nodes: Seq<NodeView>, upto: int)
    requires
        0 <= upto <= nodes.len(),
        reduce_exprs(nodes.take(upto)) is Err,
    ensures
        reduce_exprs(nodes) == reduce_exprs(nodes.take(upto)),
    decreases nodes.len() - upto,
{
    if upto == nodes.len() {
        assert(nodes.take(upto) =~= nodes);
    } else {
        assert(nodes.take(upto + 1).drop_last() =~= nodes.take(upto));
        lemma_reduce_failure(nodes, upto + 1);
    }
}

fn fail(kind: ErrorKind, node: &Node) -> (e: ParseError)
    ensures
        e == error_at(kind, node@),
{
    ParseError { kind, start: node.start, end: node.end }
}

/// The call of `identifier` on `children`, as a list.
fn to_call(identifier: &str, children: Vec<Ast>) -> (call: Ast)
    ensures
        call@ == spec_to_call(identifier@, ast_views(children@)),
{
    let mut children = children;
    let ghost given = children@;
    let mut list: Vec<Ast> = Vec::new();
    list.push(Ast::identifier(identifier));
    list.append(&mut children);
    proof {
        lemma_ast_views(list@);
        lemma_ast_views(given);
        assert(ast_views(list@) =~= seq![AstView::identifier(identifier@)] + ast_views(given));
    }
    Ast::List(list)
}

impl JaspParser {
    /// Parses the start of `source` by `rule`.
    pub fn parse(rule: Rule, source: &str) -> (result: Result<Node, ParseError>)
        ensures
            crate::grammar::result_view(result) == match_rule(rule, source@, false),
    {
        parse_rule(rule, source, false)
    }

    /// Reduces a module node to the lines of the module.
    pub fn module(input: &Node) -> (result: Result<Vec<Ast>, ParseError>)
        ensures
            results_view(result) == reduce_module(input@),
    {
        let n = input.children.len();
        proof {
            lemma_node_views(input.children@);
        }
        if n > 0 && matches!(input.children[n - 1].rule, Rule::EOI) {
            proof {
                assert(node_views(input.children@).drop_last() =~= node_views(
                    input.children@,
                ).take(n - 1));
            }
            Self::exprs(&input.children, n - 1)
        } else {
            Err(fail(ErrorKind::UnexpectedNode, input))
        }
    }

    /// Reduces an integer node.
    pub fn integer(input: &Node) -> (result: Result<Ast, ParseError>)
        ensures
            result_view(result) == reduce_integer(input@),
    {
        match parse_i64(input.text.as_str()) {
            Some(n) => Ok(Ast::Int(n)),
            None => Err(fail(ErrorKind::MalformedNumber, input)),
        }
    }

    /// Reduces a float node.
    pub fn float(input: &Node) -> (result: Result<Ast, ParseError>)
        ensures
            result_view(result) == reduce_float(input@),
    {
        if is_float(input.text.as_str()) {
            Ok(Ast::Float(input.text.clone()))
        } else {
            Err(fail(ErrorKind::MalformedNumber, input))
        }
    }

    /// Reduces a string node.
    pub fn string(input: &Node) -> (result: Result<Ast, ParseError>)
        ensures
            result_view(result) == reduce_string(input@),
    {
        proof {
            lemma_node_views(input.children@);
        }
        if input.children.len() == 1 {
            Ok(Ast::String(input.children[0].text.clone()))
        } else {
            Err(fail(ErrorKind::UnexpectedNode, input))
        }
    }

    /// Reduces a symbol node.
    pub fn symbol(input: &Node) -> (result: Result<Ast, ParseError>)
        ensures
            result_view(result) == reduce_symbol(input@),
    {
        Ok(Ast::identifier(input.text.as_str()))
    }

    /// Reduces a keyword node.
    pub fn keyword(input: &Node) -> (result: Result<Ast, ParseError>)
        ensures
            result_view(result) == reduce_keyword(input@),
    {
        proof {
            lemma_node_views(input.children@);
        }
        if input.children.len() == 1 {
            proof {
                reveal_strlit("");
                assert(""@ =~= Seq::<char>::empty());
            }
            Ok(Ast::keyword("", input.children[0].text.as_str()))
        } else {
            Err(fail(ErrorKind::UnexpectedNode, input))
        }
    }

    /// Reduces a list node.
    pub fn list(input: &Node) -> (result: Result<Ast, ParseError>)
        ensures
            result_view(result) == reduce_list(input@),
        decreases input, 1nat,
    {
        match Self::exprs(&input.children, input.children.len()) {
            Ok(items) => Ok(Ast::List(items)),
            Err(e) => Err(e),
        }
    }

    /// Reduces a vector node.
    pub fn vector(input: &Node) -> (result: Result<Ast, ParseError>)
        ensures
            result_view(result) == reduce_vector(input@),
        decreases input, 1nat,
    {
        match Self::exprs(&input.children, input.children.len()) {
            Ok(items) => Ok(to_call("vec", items)),
            Err(e) => Err(e),
        }
    }

    /// Reduces an object node.
    pub fn object(input: &Node) -> (result: Result<Ast, ParseError>)
        ensures
            result_view(result) == reduce_object(input@),
        decreases input, 1nat,
    {
        match Self::exprs(&input.children, input.children.len()) {
            Ok(items) => Ok(to_call("object", items)),
            Err(e) => Err(e),
        }
    }

    /// Reduces a quoted node.
    pub fn quoted(input: &Node) -> (result: Result<Ast, ParseError>)
        ensures
            result_view(result) == reduce_quoted(input@),
        decreases input, 1nat,
    {
        proof {
            lemma_node_views(input.children@);
        }
        if input.children.len() == 1 {
            proof {
                reveal(reduce_expr);
            }
            match Self::expr(&input.children[0]) {
                Ok(quoted) => {
                    let mut items: Vec<Ast> = Vec::new();
                    items.push(quoted);
                    proof {
                        lemma_ast_views(items@);
                        assert(ast_views(items@) =~= seq![quoted@]);
                    }
                    Ok(to_call("quote", items))
                },
                Err(e) => Err(e),
            }
        } else {
            Err(fail(ErrorKind::UnexpectedNode, input))
        }
    }

    /// Reduces an `expr` node.
    pub fn expr(input: &Node) -> (result: Result<Ast, ParseError>)
        ensures
            result_view(result) == reduce_expr(input@),
        decreases input, 2nat,
    {
        proof {
            reveal(reduce_expr);
            lemma_node_views(input.children@);
        }
        if !matches!(input.rule, Rule::Expr) || input.children.len() != 1 {
            return Err(fail(ErrorKind::UnexpectedNode, input));
        }
        let child = &input.children[0];
        match child.rule {
            Rule::Float => Self::float(child),
            Rule::Integer => Self::integer(child),
            Rule::String => Self::string(child),
            Rule::Keyword => Self::keyword(child),
            Rule::Symbol => Self::symbol(child),
            Rule::List => Self::list(child),
            Rule::Vector => Self::vector(child),
            Rule::Object => Self::object(child),
            Rule::Quoted => Self::quoted(child),
            _ => Err(fail(ErrorKind::UnexpectedNode, child)),
        }
    }

    /// Reduces the first `count` of `nodes`, in order.
    fn exprs(nodes: &Vec<Node>, count: usize) -> (result: Result<Vec<Ast>, ParseError>)
        requires
            count <= nodes.len(),
        ensures
            results_view(result) == reduce_exprs(node_views(nodes@).take(count as int)),
            count == nodes.len() ==> results_view(result) == reduce_exprs(node_views(nodes@)),
        decreases nodes, 0nat,
    {
        assert(count == nodes.len() ==> node_views(nodes@).take(count as int) =~= node_views(
            nodes@,
        ));
        let ghost views = node_views(nodes@).take(count as int);
        let mut items: Vec<Ast> = Vec::new();
        let mut i: usize = 0;
        proof {
            lemma_node_views(nodes@);
            assert(ast_views(items@) =~= Seq::<AstView>::empty());
        }
        while i < count
            invariant
                i <= count <= nodes.len(),
                views == node_views(nodes@).take(count as int),
                reduce_exprs(views.take(i as int)) == Ok::<Seq<AstView>, ParseError>(
                    ast_views(items@),
                ),
            decreases count - i,
        {
            proof {
                lemma_node_views(nodes@);
                assert(views.take(i + 1) =~= views.take(i as int).push(nodes[i as int]@));
                lemma_reduce_step(views.take(i as int), nodes[i as int]@);
            }
            match Self::expr(&nodes[i]) {
                Ok(ast) => {
                    proof {
                        lemma_ast_views_push(items@, ast);
                    }
                    items.push(ast);
                },
                Err(e) => {
                    proof {
                        lemma_reduce_failure(views, i + 1);
                        if count == nodes.len() {
                            assert(views =~= node_views(nodes@));
                        }
                    }
                    return Err(e);
                },
            }
            i += 1;
        }
        assert(views.take(i as int) =~= views);
        Ok(items)
    }
}

/// Parses `source` as a module and gives its lines.
pub fn parse(source: &str) -> (result: Result<Vec<Ast>, ParseError>)
    ensures
        results_view(result) == spec_parse(source@),
        result matches Ok(lines) ==> forall|i: int|
            0 <= i < lines.len() ==> (#[trigger] lines[i]@).well_formed(),
{
    let result = match parse_module(source, false) {
        Ok(module) => JaspParser::module(&module),
        Err(e) => Err(e),
    };
    proof {
        lemma_parse_well_formed(source@);
        if result is Ok {
            let lines = result->Ok_0;
            lemma_ast_views(lines@);
            let trees = spec_parse(source@)->Ok_0;
            assert forall|i: int| 0 <= i < lines.len() implies (#[trigger] lines[i]@).well_formed() by {
                assert(trees[i].well_formed());
            }
        }
    }
    result
}

/// The identifier of a name carries the hash of that name.
pub proof fn lemma_identifier_well_formed(name: Seq<char>)
    ensures
        AstView::identifier(name).well_formed(),
{
    lemma_hash_range(name);
}

/// The keyword of a module and a name carries its full name and the hash of it.
pub proof fn lemma_keyword_well_formed(module: Seq<char>, name: Seq<char>)
    ensures
        AstView::keyword(module, name).well_formed(),
{
    lemma_hash_range(crate::ast::full_name_of(module, name));
}

/// The tree of an `expr` node is well formed: the hash of every identifier and keyword in it
/// is the hash of its name.
pub proof fn lemma_expr_well_formed(node: NodeView)
    ensures
        reduce_expr(node) matches Ok(ast) ==> ast.well_formed(),
    decreases node, 1nat,
{
    reveal(reduce_expr);
    if reduce_expr(node) is Ok {
        let child = node.children[0];
        match child.rule {
            Rule::Keyword => {
                lemma_keyword_well_formed(Seq::empty(), child.children[0].text);
            },
            Rule::Symbol => {
                lemma_identifier_well_formed(child.text);
            },
            Rule::List => {
                lemma_exprs_well_formed(child.children);
            },
            Rule::Vector => {
                lemma_exprs_well_formed(child.children);
                lemma_identifier_well_formed("vec"@);
            },
            Rule::Object => {
                lemma_exprs_well_formed(child.children);
                lemma_identifier_well_formed("object"@);
            },
            Rule::Quoted => {
                lemma_expr_well_formed(child.children[0]);
                lemma_identifier_well_formed("quote"@);
            },
            _ => {},
        }
    }
}

/// The trees of a sequence of `expr` nodes are well formed.
pub proof fn lemma_exprs_well_formed(nodes: Seq<NodeView>)
    ensures
        reduce_exprs(nodes) matches Ok(items) ==> forall|i: int|
            0 <= i < items.len() ==> (#[trigger] items[i]).well_formed(),
    decreases nodes, 0nat,
{
    reveal(reduce_expr);
    if nodes.len() > 0 && reduce_exprs(nodes) is Ok {
        lemma_exprs_well_formed(nodes.drop_last());
        lemma_expr_well_formed(nodes.last());
    }
}

/// Every line that a text parses to is well formed.
pub proof fn lemma_parse_well_formed(source: Seq<char>)
    ensures
        spec_parse(source) matches Ok(lines) ==> forall|i: int|
            0 <= i < lines.len() ==> (#[trigger] lines[i]).well_formed(),
{
    if let Ok(node) = match_module(source, false) {
        if reduce_module(node) is Ok {
            lemma_exprs_well_formed(node.children.drop_last());
        }
    }
}

/// Reducing a node of the shape of an `expr` fails only on a number without a value.
pub proof fn lemma_expr_errors(node: NodeView)
    requires
        is_expr_node(node, false),
    ensures
        reduce_expr(node) matches Err(e) ==> e.kind == ErrorKind::MalformedNumber,
    decreases node, 1nat,
{
    reveal(reduce_expr);
    let child = node.children[0];
    match child.rule {
        Rule::List => {
            lemma_exprs_errors(child.children);
        },
        Rule::Vector => {
            lemma_exprs_errors(child.children);
        },
        Rule::Object => {
            lemma_exprs_errors(child.children);
        },
        Rule::Quoted => {
            lemma_expr_errors(child.children[0]);
        },
        _ => {},
    }
}

/// Reducing nodes of the shape of an `expr` fails only on a number without a value.
pub proof fn lemma_exprs_errors(nodes: Seq<NodeView>)
    requires
        are_expr_nodes(nodes, false),
    ensures
        reduce_exprs(nodes) matches Err(e) ==> e.kind == ErrorKind::MalformedNumber,
    decreases nodes, 0nat,
{
    reveal(reduce_expr);
    if nodes.len() > 0 {
        assert forall|i: int| 0 <= i < nodes.drop_last().len() implies is_expr_node(
            #[trigger] nodes.drop_last()[i],
            false,
        ) by {
        }
        lemma_exprs_errors(nodes.drop_last());
        lemma_expr_errors(nodes.last());
    }
}

/// A text fails to parse either because it does not follow the grammar, and then from the
/// grammar's own error, or because it writes an integer that has no 64-bit value.
pub proof fn lemma_parse_errors(source: Seq<char>)
    ensures
        match_module(source, false) matches Err(e) ==> spec_parse(source) == Err::<
            Seq<AstView>,
            ParseError,
        >(e) && e.kind == ErrorKind::Syntax,
        match_module(source, false) is Ok ==> (spec_parse(source) matches Err(e) ==> e.kind
            == ErrorKind::MalformedNumber),
{
    if let Ok(node) = match_module(source, false) {
        let items = match_exprs(source, 0, false).0;
        lemma_exprs_shape(source, 0, false);
        assert(node.children.drop_last() =~= items);
        lemma_exprs_errors(items);
    }
}

} // verus!
