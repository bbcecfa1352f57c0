//! The surface grammar, and the parse tree of a text that follows it.
//!
//! ```text
//! module  = expr* end-of-input
//! expr    = float | integer | string | keyword | symbol
//!         | list | vector | object | set | quoted
//! float   = "-"? digit+ "." digit+
//! integer = "-"? digit+
//! string  = '"' inner '"'          inner: every character up to the next '"'
//! keyword = ":" name               name: one or more symbol characters
//! symbol  = one or more symbol characters
//! list    = "(" expr* ")"
//! vector  = "[" expr* "]"
//! object  = "{" expr* "}"
//! set     = "#{" expr* "}"
//! quoted  = "'" expr
//! ```
//!
//! The alternatives of `expr` are tried in the order given and the first that matches is taken;
//! a repetition takes as much as it can. The rule `set` belongs to the literal dialect only:
//! the functions take a flag `sets` that says whether it is part of the grammar. Blanks, tabs,
//! line ends and comments (from `;` to the end of the line) may stand before and after every
//! `expr` and are skipped. A symbol character is any character that is neither skipped as a
//! blank nor one of `( ) [ ] { } " ' ; : #`. Positions count characters, not bytes.

use vstd::prelude::*;
use crate::text::string_of;

verus! {

/// The rules of the grammar, by which the nodes of a parse tree are labelled.
#[derive(Clone, Copy, Debug, PartialEq, Eq)]
pub enum Rule {
    Module,
    Expr,
    Float,
    Integer,
    String,
    Inner,
    Keyword,
    Name,
    Symbol,
    List,
    Vector,
    Object,
    SetLiteral,
    Quoted,
    EOI,
}

/// A node of the parse tree: the rule that matched, the characters from `start` up to `end`
/// that it matched, and the nodes of the rules that matched inside it. A node of `Float`,
/// `Integer`, `Inner`, `Name`, `Symbol` or `EOI` is a token: it carries its text and has no
/// children. Every other node leaves `text` empty.
#[derive(Debug, PartialEq)]
pub struct Node {
    pub rule: Rule,
    pub start: usize,
    pub end: usize,
    pub text: String,
    pub children: Vec<Node>,
}

/// A parse tree as a mathematical value.
pub ghost struct NodeView {
    pub rule: Rule,
    pub start: int,
    pub end: int,
    pub text: Seq<char>,
    pub children: Seq<NodeView>,
}

/// The views of a sequence of nodes, element by element.
pub open spec fn node_views(nodes: Seq<Node>) -> Seq<NodeView>
    decreases nodes,
{
    Seq::new(
        nodes.len(),
        |i: int|
            if 0 <= i < nodes.len() {
                nodes[i].model()
            } else {
                arbitrary()
            },
    )
}

impl Node {
    /// The tree as a mathematical value.
    pub open spec fn model(&self) -> NodeView
        decreases self,
    {
        NodeView {
            rule: self.rule,
            start: self.start as int,
            end: self.end as int,
            text: self.text@,
            children: node_views(self.children@),
        }
    }
}

impl View for Node {
    type V = NodeView;

    open spec fn view(&self) -> NodeView {
        self.model()
    }
}

/// `node_views` keeps the length and views each element in place.
pub proof fn lemma_node_views(nodes: Seq<Node>)
    ensures
        node_views(nodes).len() == nodes.len(),
        forall|i: int| 0 <= i < nodes.len() ==> #[trigger] node_views(nodes)[i] == nodes[i]@,
{
}

/// Viewing commutes with appending a node.
pub proof fn lemma_node_views_push(nodes: Seq<Node>, node: Node)
    ensures
        node_views(nodes.push(node)) == node_views(nodes).push(node@),
{
    lemma_node_views(nodes);
    lemma_node_views(nodes.push(node));
}

/// What went wrong with a text or a parse tree.
#[derive(Clone, Copy, Debug, PartialEq, Eq)]
pub enum ErrorKind {
    /// The text does not follow the grammar.
    Syntax,
    /// A number is written as the grammar asks, but has no value of its type.
    MalformedNumber,
    /// A node of a parse tree is not of the shape that its place calls for.
    UnexpectedNode,
}

/// A failure, with the characters from `start` up to `end` that it is about.
#[derive(Clone, Copy, Debug, PartialEq, Eq)]
pub struct ParseError {
    pub kind: ErrorKind,
    pub start: usize,
    pub end: usize,
}

/// Whether `c` is skipped as a blank.
pub open spec fn is_space(c: char) -> bool {
    c == ' ' || c == '\t' || c == '\n' || c == '\r'
}

/// Whether `c` is one of the digits `0` to `9`.
pub open spec fn is_digit(c: char) -> bool {
    '0' <= c <= '9'
}

/// Whether `c` is one of the characters that end a symbol.
pub open spec fn is_delimiter(c: char) -> bool {
    c == '(' || c == ')' || c == '[' || c == ']' || c == '{' || c == '}' || c == '"' || c == '\''
        || c == ';' || c == ':' || c == '#'
}

/// Whether `c` may stand in a symbol.
pub open spec fn is_symbol_char(c: char) -> bool {
    !is_space(c) && !is_delimiter(c)
}

/// Where the blanks and comments that start at `pos` end. `in_comment` says whether `pos` lies
/// inside a comment.
pub open spec fn skip_trivia(s: Seq<char>, pos: int, in_comment: bool) -> int
    decreases s.len() - pos,
{
    if pos < 0 || pos >= s.len() {
        pos
    } else if in_comment {
        skip_trivia(s, pos + 1, s[pos] != '\n')
    } else if is_space(s[pos]) {
        skip_trivia(s, pos + 1, false)
    } else if s[pos] == ';' {
        skip_trivia(s, pos + 1, true)
    } else {
        pos
    }
}

/// Where the digits that start at `pos` end.
pub open spec fn digits_end(s: Seq<char>, pos: int) -> int
    decreases s.len() - pos,
{
    if 0 <= pos < s.len() && is_digit(s[pos]) {
        digits_end(s, pos + 1)
    } else {
        pos
    }
}

/// Where the symbol characters that start at `pos` end.
pub open spec fn symbol_end(s: Seq<char>, pos: int) -> int
    decreases s.len() - pos,
{
    if 0 <= pos < s.len() && is_symbol_char(s[pos]) {
        symbol_end(s, pos + 1)
    } else {
        pos
    }
}

/// Where the characters other than `"` that start at `pos` end.
pub open spec fn inner_end(s: Seq<char>, pos: int) -> int
    decreases s.len() - pos,
{
    if 0 <= pos < s.len() && s[pos] != '"' {
        inner_end(s, pos + 1)
    } else {
        pos
    }
}

/// The position behind a minus sign at `pos`, or `pos` where none stands there.
pub open spec fn after_sign(s: Seq<char>, pos: int) -> int {
    if 0 <= pos < s.len() && s[pos] == '-' {
        pos + 1
    } else {
        pos
    }
}

/// A node that carries its text.
pub open spec fn token(rule: Rule, s: Seq<char>, start: int, end: int) -> NodeView {
    NodeView { rule, start, end, text: s.subrange(start, end), children: Seq::empty() }
}

/// A node that carries other nodes.
pub open spec fn branch(rule: Rule, start: int, end: int, children: Seq<NodeView>) -> NodeView {
    NodeView { rule, start, end, text: Seq::empty(), children }
}

/// The `expr` node around the node of one of its alternatives.
pub open spec fn wrap(inner: NodeView) -> NodeView {
    branch(Rule::Expr, inner.start, inner.end, seq![inner])
}

/// Where a float that starts at `pos` ends, if one starts there.
pub open spec fn float_end(s: Seq<char>, pos: int) -> Option<int> {
    let whole = digits_end(s, after_sign(s, pos));
    let end = digits_end(s, whole + 1);
    if 0 <= pos && whole > after_sign(s, pos) && whole < s.len() && s[whole] == '.' && end > whole
        + 1 {
        Some(end)
    } else {
        None
    }
}

/// Where an integer that starts at `pos` ends, if one starts there.
pub open spec fn integer_end(s: Seq<char>, pos: int) -> Option<int> {
    let end = digits_end(s, after_sign(s, pos));
    if 0 <= pos && end > after_sign(s, pos) {
        Some(end)
    } else {
        None
    }
}

/// `float` at `pos`.
pub open spec fn match_float(s: Seq<char>, pos: int) -> Option<NodeView> {
    match float_end(s, pos) {
        Some(end) => Some(token(Rule::Float, s, pos, end)),
        None => None,
    }
}

/// `integer` at `pos`.
pub open spec fn match_integer(s: Seq<char>, pos: int) -> Option<NodeView> {
    match integer_end(s, pos) {
        Some(end) => Some(token(Rule::Integer, s, pos, end)),
        None => None,
    }
}

/// The characters of a string from `pos` on.
pub open spec fn match_inner(s: Seq<char>, pos: int) -> Option<NodeView> {
    if 0 <= pos <= s.len() {
        Some(token(Rule::Inner, s, pos, inner_end(s, pos)))
    } else {
        None
    }
}

/// `string` at `pos`.
pub open spec fn match_string(s: Seq<char>, pos: int) -> Option<NodeView> {
    let close = inner_end(s, pos + 1);
    if 0 <= pos < s.len() && s[pos] == '"' && close < s.len() {
        Some(branch(Rule::String, pos, close + 1, seq![token(Rule::Inner, s, pos + 1, close)]))
    } else {
        None
    }
}

/// The name of a keyword at `pos`.
pub open spec fn match_name(s: Seq<char>, pos: int) -> Option<NodeView> {
    let end = symbol_end(s, pos);
    if 0 <= pos && end > pos {
        Some(token(Rule::Name, s, pos, end))
    } else {
        None
    }
}

/// `keyword` at `pos`.
pub open spec fn match_keyword(s: Seq<char>, pos: int) -> Option<NodeView> {
    let end = symbol_end(s, pos + 1);
    if 0 <= pos < s.len() && s[pos] == ':' && end > pos + 1 {
        Some(branch(Rule::Keyword, pos, end, seq![token(Rule::Name, s, pos + 1, end)]))
    } else {
        None
    }
}

/// `symbol` at `pos`.
pub open spec fn match_symbol(s: Seq<char>, pos: int) -> Option<NodeView> {
    let end = symbol_end(s, pos);
    if 0 <= pos && end > pos {
        Some(token(Rule::Symbol, s, pos, end))
    } else {
        None
    }
}

/// The first of the alternatives of `expr` without an `expr` inside that matches at `pos`.
pub open spec fn match_atom(s: Seq<char>, pos: int) -> Option<NodeView> {
    if match_float(s, pos) is Some {
        match_float(s, pos)
    } else if match_integer(s, pos) is Some {
        match_integer(s, pos)
    } else if match_string(s, pos) is Some {
        match_string(s, pos)
    } else if match_keyword(s, pos) is Some {
        match_keyword(s, pos)
    } else {
        match_symbol(s, pos)
    }
}

/// `expr` at `pos`.
pub open spec fn match_expr(s: Seq<char>, pos: int, sets: bool) -> Option<NodeView>
    decreases s.len() - pos, 2nat,
{
    if pos < 0 || pos >= s.len() {
        None
    } else if let Some(atom) = match_atom(s, pos) {
        Some(wrap(atom))
    } else if let Some(inner) = match_compound(s, pos, sets) {
        Some(wrap(inner))
    } else {
        None
    }
}

/// The first of the alternatives of `expr` with an `expr` inside that matches at `pos`.
pub open spec fn match_compound(s: Seq<char>, pos: int, sets: bool) -> Option<NodeView>
    decreases s.len() - pos, 1nat,
{
    if pos < 0 || pos >= s.len() {
        None
    } else if s[pos] == '(' {
        match_group(s, pos, Rule::List, 1, ')', sets)
    } else if s[pos] == '[' {
        match_group(s, pos, Rule::Vector, 1, ']', sets)
    } else if s[pos] == '{' {
        match_group(s, pos, Rule::Object, 1, '}', sets)
    } else if sets && s[pos] == '#' && pos + 1 < s.len() && s[pos + 1] == '{' {
        match_group(s, pos, Rule::SetLiteral, 2, '}', sets)
    } else if s[pos] == '\'' {
        let at = skip_trivia(s, pos + 1, false);
        if pos < at <= s.len() {
            match match_expr(s, at, sets) {
                Some(inner) => Some(branch(Rule::Quoted, pos, inner.end, seq![inner])),
                None => None,
            }
        } else {
            None
        }
    } else {
        None
    }
}

/// A bracketed sequence at `pos`: an opening of `width` characters, `expr*`, then `close`.
pub open spec fn match_group(
    s: Seq<char>,
    pos: int,
    rule: Rule,
    width: int,
    close: char,
    sets: bool,
) -> Option<NodeView>
    decreases s.len() - pos, 0nat,
{
    if width < 1 || pos < 0 || pos + width > s.len() {
        None
    } else {
        let (items, end) = match_exprs(s, pos + width, sets);
        if 0 <= end < s.len() && s[end] == close {
            Some(branch(rule, pos, end + 1, items))
        } else {
            None
        }
    }
}

/// `expr*` from `pos` on: the nodes that match, and where the blanks and comments behind the
/// last of them end.
pub open spec fn match_exprs(s: Seq<char>, pos: int, sets: bool) -> (Seq<NodeView>, int)
    decreases s.len() - pos, 3nat,
{
    let at = skip_trivia(s, pos, false);
    if pos <= at <= s.len() {
        match match_expr(s, at, sets) {
            Some(first) => if at < first.end <= s.len() {
                let (rest, end) = match_exprs(s, first.end, sets);
                (seq![first] + rest, end)
            } else {
                (Seq::empty(), at)
            },
            None => (Seq::empty(), at),
        }
    } else {
        (Seq::empty(), at)
    }
}

/// A failure of kind `kind` about the characters from `start` up to `end`.
pub open spec fn failure(kind: ErrorKind, start: int, end: int) -> ParseError {
    ParseError { kind, start: start as usize, end: end as usize }
}

/// The node that marks the end of the text.
pub open spec fn end_of_input(s: Seq<char>) -> NodeView {
    token(Rule::EOI, s, s.len() as int, s.len() as int)
}

/// `module` on the whole of `s`: the nodes of its expressions and the end mark, or a syntax
/// error from the first character that no expression covers up to the end.
pub open spec fn match_module(s: Seq<char>, sets: bool) -> Result<NodeView, ParseError> {
    let (items, end) = match_exprs(s, 0, sets);
    if end == s.len() {
        Ok(branch(Rule::Module, 0, s.len() as int, items.push(end_of_input(s))))
    } else {
        Err(failure(ErrorKind::Syntax, end, s.len() as int))
    }
}

/// The node of `rule` at the start of `s`, for every rule but `module`.
pub open spec fn match_start(rule: Rule, s: Seq<char>, sets: bool) -> Option<NodeView> {
    match rule {
        Rule::Module => None,
        Rule::Expr => match_expr(s, 0, sets),
        Rule::Float => match_float(s, 0),
        Rule::Integer => match_integer(s, 0),
        Rule::String => match_string(s, 0),
        Rule::Inner => match_inner(s, 0),
        Rule::Keyword => match_keyword(s, 0),
        Rule::Name => match_name(s, 0),
        Rule::Symbol => match_symbol(s, 0),
        Rule::EOI => if s.len() == 0 {
            Some(end_of_input(s))
        } else {
            None
        },
        _ => match match_compound(s, 0, sets) {
            Some(node) => if node.rule == rule {
                Some(node)
            } else {
                None
            },
            None => None,
        },
    }
}

/// `rule` at the start of `s`. Every rule but `module` may leave a rest of `s` unread; where
/// it does not match, the error is about the whole of `s`.
pub open spec fn match_rule(rule: Rule, s: Seq<char>, sets: bool) -> Result<NodeView, ParseError> {
    if rule == Rule::Module {
        match_module(s, sets)
    } else {
        match match_start(rule, s, sets) {
            Some(node) => Ok(node),
            None => Err(failure(ErrorKind::Syntax, 0, s.len() as int)),
        }
    }
}

/// The view of the result of parsing.
pub open spec fn result_view(result: Result<Node, ParseError>) -> Result<NodeView, ParseError> {
    match result {
        Ok(node) => Ok(node@),
        Err(e) => Err(e),
    }
}

/// The view of an optional node.
pub open spec fn option_view(node: Option<Node>) -> Option<NodeView> {
    match node {
        Some(n) => Some(n@),
        None => None,
    }
}

fn space(c: char) -> (b: bool)
    ensures
        b == is_space(c),
{
    c == ' ' || c == '\t' || c == '\n' || c == '\r'
}

fn digit(c: char) -> (b: bool)
    ensures
        b == is_digit(c),
{
    '0' <= c && c <= '9'
}

fn symbol_char(c: char) -> (b: bool)
    ensures
        b == is_symbol_char(c),
{
    !(space(c) || c == '(' || c == ')' || c == '[' || c == ']' || c == '{' || c == '}' || c == '"'
        || c == '\'' || c == ';' || c == ':' || c == '#')
}

fn skip(chars: &Vec<char>, pos: usize) -> (end: usize)
    requires
        pos <= chars.len(),
    ensures
        end == skip_trivia(chars@, pos as int, false),
        pos <= end <= chars.len(),
{
    let mut i: usize = pos;
    let mut in_comment = false;
    while i < chars.len()
        invariant
            pos <= i <= chars.len(),
            skip_trivia(chars@, pos as int, false) == skip_trivia(chars@, i as int, in_comment),
        decreases chars.len() - i,
    {
        let c = chars[i];
        if in_comment {
            in_comment = c != '\n';
        } else if space(c) {
        } else if c == ';' {
            in_comment = true;
        } else {
            return i;
        }
        i += 1;
    }
    i
}

fn scan_digits(chars: &Vec<char>, pos: usize) -> (end: usize)
    requires
        pos <= chars.len(),
    ensures
        end == digits_end(chars@, pos as int),
        pos <= end <= chars.len(),
{
    let mut i: usize = pos;
    while i < chars.len() && digit(chars[i])
        invariant
            pos <= i <= chars.len(),
            digits_end(chars@, pos as int) == digits_end(chars@, i as int),
        decreases chars.len() - i,
    {
        i += 1;
    }
    i
}

fn scan_symbol(chars: &Vec<char>, pos: usize) -> (end: usize)
    requires
        pos <= chars.len(),
    ensures
        end == symbol_end(chars@, pos as int),
        pos <= end <= chars.len(),
{
    let mut i: usize = pos;
    while i < chars.len() && symbol_char(chars[i])
        invariant
            pos <= i <= chars.len(),
            symbol_end(chars@, pos as int) == symbol_end(chars@, i as int),
        decreases chars.len() - i,
    {
        i += 1;
    }
    i
}

fn scan_inner(chars: &Vec<char>, pos: usize) -> (end: usize)
    requires
        pos <= chars.len(),
    ensures
        end == inner_end(chars@, pos as int),
        pos <= end <= chars.len(),
{
    let mut i: usize = pos;
    while i < chars.len() && chars[i] != '"'
        invariant
            pos <= i <= chars.len(),
            inner_end(chars@, pos as int) == inner_end(chars@, i as int),
        decreases chars.len() - i,
    {
        i += 1;
    }
    i
}

fn sign_end(chars: &Vec<char>, pos: usize) -> (end: usize)
    requires
        pos <= chars.len(),
    ensures
        end == after_sign(chars@, pos as int),
        pos <= end <= chars.len(),
{
    if pos < chars.len() && chars[pos] == '-' {
        pos + 1
    } else {
        pos
    }
}

fn make_token(rule: Rule, chars: &Vec<char>, start: usize, end: usize) -> (node: Node)
    requires
        start <= end <= chars.len(),
    ensures
        node@ == token(rule, chars@, start as int, end as int),
{
    let children: Vec<Node> = Vec::new();
    assert(node_views(children@) =~= Seq::<NodeView>::empty());
    Node { rule, start, end, text: string_of(chars, start, end), children }
}

fn make_branch(rule: Rule, start: usize, end: usize, children: Vec<Node>) -> (node: Node)
    ensures
        node@ == branch(rule, start as int, end as int, node_views(children@)),
{
    Node { rule, start, end, text: String::new(), children }
}

fn make_branch_of_one(rule: Rule, start: usize, end: usize, child: Node) -> (node: Node)
    ensures
        node@ == branch(rule, start as int, end as int, seq![child@]),
{
    let mut children: Vec<Node> = Vec::new();
    children.push(child);
    proof {
        lemma_node_views(children@);
        assert(node_views(children@) =~= seq![child@]);
    }
    make_branch(rule, start, end, children)
}

/// Where a float that starts at `pos` ends, if one starts there.
pub fn scan_float(chars: &Vec<char>, pos: usize) -> (end: Option<usize>)
    requires
        pos <= chars.len(),
    ensures
        end is Some <==> float_end(chars@, pos as int) is Some,
        end matches Some(e) ==> e == float_end(chars@, pos as int)->Some_0 && pos < e
            <= chars.len(),
{
    let first = sign_end(chars, pos);
    let whole = scan_digits(chars, first);
    if whole > first && whole < chars.len() && chars[whole] == '.' {
        let end = scan_digits(chars, whole + 1);
        if end > whole + 1 {
            return Some(end);
        }
    }
    None
}

/// Where an integer that starts at `pos` ends, if one starts there.
pub fn scan_integer(chars: &Vec<char>, pos: usize) -> (end: Option<usize>)
    requires
        pos <= chars.len(),
    ensures
        end is Some <==> integer_end(chars@, pos as int) is Some,
        end matches Some(e) ==> e == integer_end(chars@, pos as int)->Some_0 && pos < e
            <= chars.len(),
{
    let first = sign_end(chars, pos);
    let end = scan_digits(chars, first);
    if end > first {
        Some(end)
    } else {
        None
    }
}

fn read_float(chars: &Vec<char>, pos: usize) -> (node: Option<Node>)
    requires
        pos <= chars.len(),
    ensures
        option_view(node) == match_float(chars@, pos as int),
        node matches Some(n) ==> n.start == pos && pos < n.end <= chars.len(),
{
    match scan_float(chars, pos) {
        Some(end) => Some(make_token(Rule::Float, chars, pos, end)),
        None => None,
    }
}

fn read_integer(chars: &Vec<char>, pos: usize) -> (node: Option<Node>)
    requires
        pos <= chars.len(),
    ensures
        option_view(node) == match_integer(chars@, pos as int),
        node matches Some(n) ==> n.start == pos && pos < n.end <= chars.len(),
{
    match scan_integer(chars, pos) {
        Some(end) => Some(make_token(Rule::Integer, chars, pos, end)),
        None => None,
    }
}

fn read_string(chars: &Vec<char>, pos: usize) -> (node: Option<Node>)
    requires
        pos <= chars.len(),
    ensures
        option_view(node) == match_string(chars@, pos as int),
        node matches Some(n) ==> n.start == pos && pos < n.end <= chars.len(),
{
    if pos < chars.len() && chars[pos] == '"' {
        let close = scan_inner(chars, pos + 1);
        if close < chars.len() {
            let inner = make_token(Rule::Inner, chars, pos + 1, close);
            return Some(make_branch_of_one(Rule::String, pos, close + 1, inner));
        }
    }
    None
}

fn read_keyword(chars: &Vec<char>, pos: usize) -> (node: Option<Node>)
    requires
        pos <= chars.len(),
    ensures
        option_view(node) == match_keyword(chars@, pos as int),
        node matches Some(n) ==> n.start == pos && pos < n.end <= chars.len(),
{
    if pos < chars.len() && chars[pos] == ':' {
        let end = scan_symbol(chars, pos + 1);
        if end > pos + 1 {
            let name = make_token(Rule::Name, chars, pos + 1, end);
            return Some(make_branch_of_one(Rule::Keyword, pos, end, name));
        }
    }
    None
}

fn read_symbol(chars: &Vec<char>, pos: usize) -> (node: Option<Node>)
    requires
        pos <= chars.len(),
    ensures
        option_view(node) == match_symbol(chars@, pos as int),
        node matches Some(n) ==> n.start == pos && pos < n.end <= chars.len(),
{
    let end = scan_symbol(chars, pos);
    if end > pos {
        Some(make_token(Rule::Symbol, chars, pos, end))
    } else {
        None
    }
}

fn read_atom(chars: &Vec<char>, pos: usize) -> (node: Option<Node>)
    requires
        pos <= chars.len(),
    ensures
        option_view(node) == match_atom(chars@, pos as int),
        node matches Some(n) ==> n.start == pos && pos < n.end <= chars.len(),
{
    if let Some(node) = read_float(chars, pos) {
        return Some(node);
    }
    if let Some(node) = read_integer(chars, pos) {
        return Some(node);
    }
    if let Some(node) = read_string(chars, pos) {
        return Some(node);
    }
    if let Some(node) = read_keyword(chars, pos) {
        return Some(node);
    }
    read_symbol(chars, pos)
}

fn wrap_node(inner: Node) -> (node: Node)
    ensures
        node@ == wrap(inner@),
        node.start == inner.start,
        node.end == inner.end,
{
    let start = inner.start;
    let end = inner.end;
    make_branch_of_one(Rule::Expr, start, end, inner)
}

fn read_expr(chars: &Vec<char>, pos: usize, sets: bool) -> (node: Option<Node>)
    requires
        pos <= chars.len(),
    ensures
        option_view(node) == match_expr(chars@, pos as int, sets),
        node matches Some(n) ==> n.start == pos && pos < n.end <= chars.len(),
    decreases chars.len() - pos, 2nat,
{
    if pos >= chars.len() {
        return None;
    }
    if let Some(atom) = read_atom(chars, pos) {
        return Some(wrap_node(atom));
    }
    match read_compound(chars, pos, sets) {
        Some(inner) => Some(wrap_node(inner)),
        None => None,
    }
}

fn read_compound(chars: &Vec<char>, pos: usize, sets: bool) -> (node: Option<Node>)
    requires
        pos <= chars.len(),
    ensures
        option_view(node) == match_compound(chars@, pos as int, sets),
        node matches Some(n) ==> n.start == pos && pos < n.end <= chars.len(),
    decreases chars.len() - pos, 1nat,
{
    if pos >= chars.len() {
        return None;
    }
    let c = chars[pos];
    if c == '(' {
        read_group(chars, pos, Rule::List, 1, ')', sets)
    } else if c == '[' {
        read_group(chars, pos, Rule::Vector, 1, ']', sets)
    } else if c == '{' {
        read_group(chars, pos, Rule::Object, 1, '}', sets)
    } else if sets && c == '#' && pos + 1 < chars.len() && chars[pos + 1] == '{' {
        read_group(chars, pos, Rule::SetLiteral, 2, '}', sets)
    } else if c == '\'' {
        let at = skip(chars, pos + 1);
        match read_expr(chars, at, sets) {
            Some(inner) => {
                let end = inner.end;
                Some(make_branch_of_one(Rule::Quoted, pos, end, inner))
            },
            None => None,
        }
    } else {
        None
    }
}

fn read_group(
    chars: &Vec<char>,
    pos: usize,
    rule: Rule,
    width: usize,
    close: char,
    sets: bool,
) -> (node: Option<Node>)
    requires
        1 <= width <= 2,
        pos + width <= chars.len(),
    ensures
        option_view(node) == match_group(chars@, pos as int, rule, width as int, close, sets),
        node matches Some(n) ==> n.start == pos && pos < n.end <= chars.len(),
    decreases chars.len() - pos, 0nat,
{
    let (items, end) = read_exprs(chars, pos + width, sets);
    if end < chars.len() && chars[end] == close {
        Some(make_branch(rule, pos, end + 1, items))
    } else {
        None
    }
}

fn read_exprs(chars: &Vec<char>, pos: usize, sets: bool) -> (found: (Vec<Node>, usize))
    requires
        pos <= chars.len(),
    ensures
        (node_views(found.0@), found.1 as int) == match_exprs(chars@, pos as int, sets),
        pos <= found.1 <= chars.len(),
    decreases chars.len() - pos, 3nat,
{
    let mut nodes: Vec<Node> = Vec::new();
    let mut from: usize = pos;
    let mut at: usize = skip(chars, pos);
    loop
        invariant
            pos <= from <= at <= chars.len(),
            at == skip_trivia(chars@, from as int, false),
            match_exprs(chars@, pos as int, sets).0 == node_views(nodes@) + match_exprs(
                chars@,
                from as int,
                sets,
            ).0,
            match_exprs(chars@, pos as int, sets).1 == match_exprs(chars@, from as int, sets).1,
        ensures
            (node_views(nodes@), at as int) == match_exprs(chars@, pos as int, sets),
            pos <= at <= chars.len(),
        decreases chars.len() - from,
    {
        match read_expr(chars, at, sets) {
            Some(node) => {
                proof {
                    lemma_node_views_push(nodes@, node);
                    let rest = match_exprs(chars@, node.end as int, sets).0;
                    assert(node_views(nodes@).push(node@) + rest =~= node_views(nodes@) + (
                    seq![node@] + rest));
                }
                from = node.end;
                nodes.push(node);
                at = skip(chars, from);
            },
            None => {
                break ;
            },
        }
    }
    (nodes, at)
}

fn same_rule(a: Rule, b: Rule) -> (same: bool)
    ensures
        same == (a == b),
{
    match (a, b) {
        (Rule::Module, Rule::Module) => true,
        (Rule::Expr, Rule::Expr) => true,
        (Rule::Float, Rule::Float) => true,
        (Rule::Integer, Rule::Integer) => true,
        (Rule::String, Rule::String) => true,
        (Rule::Inner, Rule::Inner) => true,
        (Rule::Keyword, Rule::Keyword) => true,
        (Rule::Name, Rule::Name) => true,
        (Rule::Symbol, Rule::Symbol) => true,
        (Rule::List, Rule::List) => true,
        (Rule::Vector, Rule::Vector) => true,
        (Rule::Object, Rule::Object) => true,
        (Rule::SetLiteral, Rule::SetLiteral) => true,
        (Rule::Quoted, Rule::Quoted) => true,
        (Rule::EOI, Rule::EOI) => true,
        _ => false,
    }
}

fn read_module(chars: &Vec<char>, sets: bool) -> (result: Result<Node, ParseError>)
    ensures
        result_view(result) == match_module(chars@, sets),
{
    let (mut items, end) = read_exprs(chars, 0, sets);
    if end == chars.len() {
        let mark = make_token(Rule::EOI, chars, end, end);
        proof {
            lemma_node_views_push(items@, mark);
        }
        items.push(mark);
        Ok(make_branch(Rule::Module, 0, end, items))
    } else {
        Err(ParseError { kind: ErrorKind::Syntax, start: end, end: chars.len() })
    }
}

/// Parses `source` as a module.
pub fn parse_module(source: &str, sets: bool) -> (result: Result<Node, ParseError>)
    ensures
        result_view(result) == match_module(source@, sets),
{
    let chars = crate::text::chars_of(source);
    read_module(&chars, sets)
}

/// Parses the start of `source` by `rule`.
pub fn parse_rule(rule: Rule, source: &str, sets: bool) -> (result: Result<Node, ParseError>)
    ensures
        result_view(result) == match_rule(rule, source@, sets),
{
    let chars = crate::text::chars_of(source);
    let found = match rule {
        Rule::Module => {
            return read_module(&chars, sets);
        },
        Rule::Expr => read_expr(&chars, 0, sets),
        Rule::Float => read_float(&chars, 0),
        Rule::Integer => read_integer(&chars, 0),
        Rule::String => read_string(&chars, 0),
        Rule::Inner => {
            let end = scan_inner(&chars, 0);
            Some(make_token(Rule::Inner, &chars, 0, end))
        },
        Rule::Keyword => read_keyword(&chars, 0),
        Rule::Name => {
            let end = scan_symbol(&chars, 0);
            if end > 0 {
                Some(make_token(Rule::Name, &chars, 0, end))
            } else {
                None
            }
        },
        Rule::Symbol => read_symbol(&chars, 0),
        Rule::EOI => {
            if chars.len() == 0 {
                Some(make_token(Rule::EOI, &chars, 0, 0))
            } else {
                None
            }
        },
        _ => match read_compound(&chars, 0, sets) {
            Some(node) => {
                if same_rule(node.rule, rule) {
                    Some(node)
                } else {
                    None
                }
            },
            None => None,
        },
    };
    match found {
        Some(node) => Ok(node),
        None => Err(ParseError { kind: ErrorKind::Syntax, start: 0, end: chars.len() }),
    }
}

/// Whether the whole of `text` is a float as the grammar writes it.
pub open spec fn is_float_text(text: Seq<char>) -> bool {
    float_end(text, 0) == Some(text.len() as int)
}

/// Whether the node has the shape that the grammar gives to an `expr`: one child, of the shape
/// of one of the alternatives.
pub open spec fn is_expr_node(node: NodeView, sets: bool) -> bool
    decreases node, 1nat,
{
    node.rule == Rule::Expr && node.children.len() == 1 && is_alternative(node.children[0], sets)
}

/// Whether the node has the shape that the grammar gives to its rule, as an alternative of
/// `expr`.
pub open spec fn is_alternative(node: NodeView, sets: bool) -> bool
    decreases node, 0nat,
{
    match node.rule {
        Rule::Float => is_float_text(node.text),
        Rule::Integer => true,
        Rule::String => node.children.len() == 1,
        Rule::Keyword => node.children.len() == 1,
        Rule::Symbol => true,
        Rule::List => are_expr_nodes(node.children, sets),
        Rule::Vector => are_expr_nodes(node.children, sets),
        Rule::Object => are_expr_nodes(node.children, sets),
        Rule::SetLiteral => sets && are_expr_nodes(node.children, sets),
        Rule::Quoted => node.children.len() == 1 && is_expr_node(node.children[0], sets),
        _ => false,
    }
}

/// Whether every node of the sequence has the shape of an `expr`.
pub open spec fn are_expr_nodes(nodes: Seq<NodeView>, sets: bool) -> bool
    decreases nodes, 2nat,
{
    forall|i: int| 0 <= i < nodes.len() ==> is_expr_node(#[trigger] nodes[i], sets)
}

/// The digits from `pos` on end behind `pos` and within the text.
pub proof fn lemma_digits_end_bounds(s: Seq<char>, pos: int)
    requires
        0 <= pos <= s.len(),
    ensures
        pos <= digits_end(s, pos) <= s.len(),
    decreases s.len() - pos,
{
    if pos < s.len() && is_digit(s[pos]) {
        lemma_digits_end_bounds(s, pos + 1);
    }
}

/// In a part of a text, digits end where they end in the whole, or where the part ends.
proof fn lemma_digits_end_within(s: Seq<char>, from: int, to: int, at: int)
    requires
        0 <= from <= at <= to <= s.len(),
    ensures
        digits_end(s.subrange(from, to), at - from) == if digits_end(s, at) < to {
            digits_end(s, at) - from
        } else {
            to - from
        },
    decreases to - at,
{
    lemma_digits_end_bounds(s, at);
    if at < to {
        if is_digit(s[at]) {
            lemma_digits_end_within(s, from, to, at + 1);
        }
    }
}

/// The text of a float that the grammar finds is a float as a whole.
pub proof fn lemma_float_text(s: Seq<char>, pos: int)
    requires
        float_end(s, pos) is Some,
        pos <= s.len(),
    ensures
        pos < float_end(s, pos)->Some_0 <= s.len(),
        is_float_text(s.subrange(pos, float_end(s, pos)->Some_0)),
{
    let first = after_sign(s, pos);
    lemma_digits_end_bounds(s, first);
    let whole = digits_end(s, first);
    lemma_digits_end_bounds(s, whole + 1);
    let end = digits_end(s, whole + 1);
    lemma_digits_end_within(s, pos, end, first);
    lemma_digits_end_within(s, pos, end, whole + 1);
}

/// What the grammar takes for an `expr` has the shape of one.
pub proof fn lemma_expr_shape(s: Seq<char>, pos: int, sets: bool)
    ensures
        match_expr(s, pos, sets) matches Some(node) ==> is_expr_node(node, sets),
    decreases s.len() - pos, 2nat,
{
    if 0 <= pos < s.len() {
        if match_atom(s, pos) is Some {
            if match_float(s, pos) is Some {
                lemma_float_text(s, pos);
            }
        } else {
            lemma_compound_shape(s, pos, sets);
        }
    }
}

proof fn lemma_compound_shape(s: Seq<char>, pos: int, sets: bool)
    ensures
        match_compound(s, pos, sets) matches Some(node) ==> is_alternative(node, sets),
    decreases s.len() - pos, 1nat,
{
    if 0 <= pos < s.len() {
        if s[pos] == '(' {
            lemma_group_shape(s, pos, Rule::List, 1, ')', sets);
        } else if s[pos] == '[' {
            lemma_group_shape(s, pos, Rule::Vector, 1, ']', sets);
        } else if s[pos] == '{' {
            lemma_group_shape(s, pos, Rule::Object, 1, '}', sets);
        } else if sets && s[pos] == '#' && pos + 1 < s.len() && s[pos + 1] == '{' {
            lemma_group_shape(s, pos, Rule::SetLiteral, 2, '}', sets);
        } else if s[pos] == '\'' {
            let at = skip_trivia(s, pos + 1, false);
            if pos < at <= s.len() {
                lemma_expr_shape(s, at, sets);
            }
        }
    }
}

proof fn lemma_group_shape(s: Seq<char>, pos: int, rule: Rule, width: int, close: char, sets: bool)
    requires
        rule == Rule::List || rule == Rule::Vector || rule == Rule::Object || (rule
            == Rule::SetLiteral && sets),
    ensures
        match_group(s, pos, rule, width, close, sets) matches Some(node) ==> is_alternative(
            node,
            sets,
        ),
    decreases s.len() - pos, 0nat,
{
    if !(width < 1 || pos < 0 || pos + width > s.len()) {
        lemma_exprs_shape(s, pos + width, sets);
    }
}

/// What the grammar takes for a sequence of `expr` is a sequence of nodes of that shape.
pub proof fn lemma_exprs_shape(s: Seq<char>, pos: int, sets: bool)
    ensures
        are_expr_nodes(match_exprs(s, pos, sets).0, sets),
    decreases s.len() - pos, 3nat,
{
    let at = skip_trivia(s, pos, false);
    if pos <= at <= s.len() {
        lemma_expr_shape(s, at, sets);
        if let Some(first) = match_expr(s, at, sets) {
            if at < first.end <= s.len() {
                lemma_exprs_shape(s, first.end, sets);
                let rest = match_exprs(s, first.end, sets).0;
                let all = seq![first] + rest;
                assert forall|i: int| 0 <= i < all.len() implies is_expr_node(
                    #[trigger] all[i],
                    sets,
                ) by {
                    if i > 0 {
                    }
                }
            }
        }
    }
}

/// Whether a node is a token of `s`: it lies within `s` and carries the text that it spans.
pub open spec fn is_token_of(s: Seq<char>, node: NodeView) -> bool {
    &&& 0 <= node.start <= node.end <= s.len()
    &&& node.text == s.subrange(node.start, node.end)
    &&& node.children.len() == 0
}

/// Whether the nodes lie in `s` one behind the other from `from` up to `to`, with nothing but
/// blanks and comments before, between and behind them.
pub open spec fn tiles(s: Seq<char>, nodes: Seq<NodeView>, from: int, to: int) -> bool
    decreases nodes.len(),
{
    if nodes.len() == 0 {
        skip_trivia(s, from, false) == to
    } else {
        &&& nodes[0].start == skip_trivia(s, from, false)
        &&& nodes[0].start < nodes[0].end
        &&& tiles(s, nodes.drop_first(), nodes[0].end, to)
    }
}

/// Whether the tree of an `expr` accounts for the text that it spans: every token carries its
/// text, every bracket stands where its node begins and ends, and the nodes inside a node tile
/// what lies between.
pub open spec fn accounts_for(s: Seq<char>, node: NodeView) -> bool
    decreases node, 1nat,
{
    &&& node.rule == Rule::Expr
    &&& node.children.len() == 1
    &&& node.children[0].start == node.start
    &&& node.children[0].end == node.end
    &&& 0 <= node.start < node.end <= s.len()
    &&& accounts_for_alternative(s, node.children[0])
}

/// Whether the tree of an alternative of `expr` accounts for the text that it spans.
pub open spec fn accounts_for_alternative(s: Seq<char>, node: NodeView) -> bool
    decreases node, 0nat,
{
    &&& 0 <= node.start < node.end <= s.len()
    &&& match node.rule {
        Rule::Float => is_token_of(s, node),
        Rule::Integer => is_token_of(s, node),
        Rule::Symbol => is_token_of(s, node),
        Rule::String => {
            &&& node.children.len() == 1
            &&& s[node.start] == '"'
            &&& s[node.end - 1] == '"'
            &&& node.children[0] == token(Rule::Inner, s, node.start + 1, node.end - 1)
        },
        Rule::Keyword => {
            &&& node.children.len() == 1
            &&& s[node.start] == ':'
            &&& node.children[0] == token(Rule::Name, s, node.start + 1, node.end)
        },
        Rule::List => s[node.start] == '(' && s[node.end - 1] == ')' && accounts_for_all(
            s,
            node.children,
            node.start + 1,
            node.end - 1,
        ),
        Rule::Vector => s[node.start] == '[' && s[node.end - 1] == ']' && accounts_for_all(
            s,
            node.children,
            node.start + 1,
            node.end - 1,
        ),
        Rule::Object => s[node.start] == '{' && s[node.end - 1] == '}' && accounts_for_all(
            s,
            node.children,
            node.start + 1,
            node.end - 1,
        ),
        Rule::SetLiteral => s[node.start] == '#' && s[node.start + 1] == '{' && s[node.end - 1]
            == '}' && accounts_for_all(s, node.children, node.start + 2, node.end - 1),
        Rule::Quoted => {
            &&& node.children.len() == 1
            &&& s[node.start] == '\''
            &&& node.children[0].start == skip_trivia(s, node.start + 1, false)
            &&& node.children[0].end == node.end
            &&& accounts_for(s, node.children[0])
        },
        _ => false,
    }
}

/// Whether the trees tile the text from `from` up to `to`, and each accounts for its part.
pub open spec fn accounts_for_all(s: Seq<char>, nodes: Seq<NodeView>, from: int, to: int) -> bool
    decreases nodes, 2nat,
{
    &&& tiles(s, nodes, from, to)
    &&& forall|i: int| 0 <= i < nodes.len() ==> accounts_for(s, #[trigger] nodes[i])
}

/// Blanks and comments from `pos` on end behind `pos` and within the text.
pub proof fn lemma_skip_trivia_bounds(s: Seq<char>, pos: int, in_comment: bool)
    requires
        0 <= pos <= s.len(),
    ensures
        pos <= skip_trivia(s, pos, in_comment) <= s.len(),
    decreases s.len() - pos,
{
    if pos < s.len() {
        if in_comment {
            lemma_skip_trivia_bounds(s, pos + 1, s[pos] != '\n');
        } else if is_space(s[pos]) {
            lemma_skip_trivia_bounds(s, pos + 1, false);
        } else if s[pos] == ';' {
            lemma_skip_trivia_bounds(s, pos + 1, true);
        }
    }
}

/// Symbol characters from `pos` on end behind `pos` and within the text.
pub proof fn lemma_symbol_end_bounds(s: Seq<char>, pos: int)
    requires
        0 <= pos <= s.len(),
    ensures
        pos <= symbol_end(s, pos) <= s.len(),
    decreases s.len() - pos,
{
    if pos < s.len() && is_symbol_char(s[pos]) {
        lemma_symbol_end_bounds(s, pos + 1);
    }
}

/// The characters of a string end at a `"` or at the end of the text.
pub proof fn lemma_inner_end_bounds(s: Seq<char>, pos: int)
    requires
        0 <= pos <= s.len(),
    ensures
        pos <= inner_end(s, pos) <= s.len(),
        inner_end(s, pos) < s.len() ==> s[inner_end(s, pos)] == '"',
    decreases s.len() - pos,
{
    if pos < s.len() && s[pos] != '"' {
        lemma_inner_end_bounds(s, pos + 1);
    }
}

proof fn lemma_atom_accounts(s: Seq<char>, pos: int)
    requires
        0 <= pos < s.len(),
    ensures
        match_atom(s, pos) matches Some(node) ==> node.start == pos && accounts_for_alternative(
            s,
            node,
        ),
{
    let first = after_sign(s, pos);
    lemma_digits_end_bounds(s, first);
    if digits_end(s, first) < s.len() {
        lemma_digits_end_bounds(s, digits_end(s, first) + 1);
    }
    lemma_inner_end_bounds(s, pos + 1);
    lemma_symbol_end_bounds(s, pos + 1);
    lemma_symbol_end_bounds(s, pos);
}

/// What the grammar takes for an `expr` accounts for the text that it takes.
pub proof fn lemma_expr_accounts(s: Seq<char>, pos: int, sets: bool)
    ensures
        match_expr(s, pos, sets) matches Some(node) ==> node.start == pos && accounts_for(s, node),
    decreases s.len() - pos, 2nat,
{
    if 0 <= pos < s.len() {
        if match_atom(s, pos) is Some {
            lemma_atom_accounts(s, pos);
        } else {
            lemma_compound_accounts(s, pos, sets);
        }
    }
}

proof fn lemma_compound_accounts(s: Seq<char>, pos: int, sets: bool)
    ensures
        match_compound(s, pos, sets) matches Some(node) ==> node.start == pos
            && accounts_for_alternative(s, node),
    decreases s.len() - pos, 1nat,
{
    if 0 <= pos < s.len() {
        if s[pos] == '(' {
            lemma_group_accounts(s, pos, Rule::List, 1, ')', sets);
        } else if s[pos] == '[' {
            lemma_group_accounts(s, pos, Rule::Vector, 1, ']', sets);
        } else if s[pos] == '{' {
            lemma_group_accounts(s, pos, Rule::Object, 1, '}', sets);
        } else if sets && s[pos] == '#' && pos + 1 < s.len() && s[pos + 1] == '{' {
            lemma_group_accounts(s, pos, Rule::SetLiteral, 2, '}', sets);
        } else if s[pos] == '\'' {
            let at = skip_trivia(s, pos + 1, false);
            lemma_skip_trivia_bounds(s, pos + 1, false);
            lemma_expr_accounts(s, at, sets);
        }
    }
}

proof fn lemma_group_accounts(
    s: Seq<char>,
    pos: int,
    rule: Rule,
    width: int,
    close: char,
    sets: bool,
)
    ensures
        match_group(s, pos, rule, width, close, sets) matches Some(node) ==> {
            &&& node.start == pos
            &&& node.rule == rule
            &&& pos + width < node.end <= s.len()
            &&& s[node.end - 1] == close
            &&& accounts_for_all(s, node.children, pos + width, node.end - 1)
        },
    decreases s.len() - pos, 0nat,
{
    if !(width < 1 || pos < 0 || pos + width > s.len()) {
        lemma_exprs_accounts(s, pos + width, sets);
    }
}

/// What the grammar takes for a sequence of `expr` tiles the text that it takes, and each tree
/// accounts for its part.
pub proof fn lemma_exprs_accounts(s: Seq<char>, pos: int, sets: bool)
    requires
        0 <= pos <= s.len(),
    ensures
        pos <= match_exprs(s, pos, sets).1 <= s.len(),
        accounts_for_all(s, match_exprs(s, pos, sets).0, pos, match_exprs(s, pos, sets).1),
    decreases s.len() - pos, 3nat,
{
    let at = skip_trivia(s, pos, false);
    lemma_skip_trivia_bounds(s, pos, false);
    lemma_expr_accounts(s, at, sets);
    if let Some(first) = match_expr(s, at, sets) {
        if at < first.end <= s.len() {
            lemma_exprs_accounts(s, first.end, sets);
            let (rest, end) = match_exprs(s, first.end, sets);
            let all = seq![first] + rest;
            assert(all.drop_first() =~= rest);
            assert forall|i: int| 0 <= i < all.len() implies accounts_for(s, #[trigger] all[i]) by {
                if i > 0 {
                }
            }
        }
    }
}

/// The tree of a module accounts for the whole text: its expressions tile the text from the
/// first character to the last, and the end mark stands behind them.
pub proof fn lemma_module_accounts(s: Seq<char>, sets: bool)
    ensures
        match_module(s, sets) matches Ok(node) ==> {
            &&& node.rule == Rule::Module
            &&& node.start == 0
            &&& node.end == s.len()
            &&& node.children.len() > 0
            &&& node.children.last() == end_of_input(s)
            &&& accounts_for_all(s, node.children.drop_last(), 0, s.len() as int)
        },
{
    lemma_exprs_accounts(s, 0, sets);
    if let Ok(node) = match_module(s, sets) {
        assert(node.children.drop_last() =~= match_exprs(s, 0, sets).0);
    }
}

} // verus!
