//! The text of a syntax tree, and the law that parsing the text of a tree gives the tree back.

use vstd::prelude::*;
use crate::ast::AstView;
use crate::grammar::{
    NodeView,
    ParseError,
    Rule,
    after_sign,
    branch,
    digits_end,
    inner_end,
    is_digit,
    is_space,
    is_float_text,
    is_symbol_char,
    lemma_digits_end_bounds,
    lemma_float_text,
    lemma_inner_end_bounds,
    lemma_skip_trivia_bounds,
    lemma_symbol_end_bounds,
    match_atom,
    match_compound,
    match_expr,
    match_exprs,
    match_float,
    match_group,
    match_integer,
    match_keyword,
    match_module,
    match_string,
    match_symbol,
    skip_trivia,
    symbol_end,
    token,
    wrap,
};
use crate::jasp_parser::{
    lemma_reduce_none,
    lemma_reduce_step,
    lemma_reduce_wrapped,
    reduce_expr,
    reduce_exprs,
    spec_parse,
};
use crate::number::{all_digits, digits_value, i64_value};

verus! {

/// Whether `text` stands in `s` at `pos`.
pub open spec fn stands_at(s: Seq<char>, pos: int, text: Seq<char>) -> bool {
    0 <= pos && pos + text.len() <= s.len() && s.subrange(pos, pos + text.len()) == text
}

/// Whether an expression may end at `pos`: the text ends there, or a blank or a closing
/// parenthesis stands there.
pub open spec fn ends_at(s: Seq<char>, pos: int) -> bool {
    pos == s.len() || (0 <= pos < s.len() && (s[pos] == ' ' || s[pos] == ')'))
}

/// Every character of a text that stands in `s` is the character of `s` at its place.
proof fn lemma_stands_at(s: Seq<char>, pos: int, text: Seq<char>)
    requires
        stands_at(s, pos, text),
    ensures
        forall|i: int| 0 <= i < text.len() ==> s[pos + i] == #[trigger] text[i],
{
    assert forall|i: int| 0 <= i < text.len() implies s[pos + i] == #[trigger] text[i] by {
        assert(s.subrange(pos, pos + text.len())[i] == s[pos + i]);
    }
}

/// A run of digits that ends before a character that is none ends there.
proof fn lemma_digits_run(s: Seq<char>, pos: int, to: int)
    requires
        0 <= pos <= to <= s.len(),
        forall|i: int| pos <= i < to ==> is_digit(#[trigger] s[i]),
        to == s.len() || !is_digit(s[to]),
    ensures
        digits_end(s, pos) == to,
    decreases to - pos,
{
    if pos < to {
        lemma_digits_run(s, pos + 1, to);
    }
}

/// A run of symbol characters that ends before a character that is none ends there.
proof fn lemma_symbol_run(s: Seq<char>, pos: int, to: int)
    requires
        0 <= pos <= to <= s.len(),
        forall|i: int| pos <= i < to ==> is_symbol_char(#[trigger] s[i]),
        to == s.len() || !is_symbol_char(s[to]),
    ensures
        symbol_end(s, pos) == to,
    decreases to - pos,
{
    if pos < to {
        lemma_symbol_run(s, pos + 1, to);
    }
}

/// A run of characters other than `"` that ends before a `"` ends there.
proof fn lemma_inner_run(s: Seq<char>, pos: int, to: int)
    requires
        0 <= pos <= to < s.len(),
        forall|i: int| pos <= i < to ==> #[trigger] s[i] != '"',
        s[to] == '"',
    ensures
        inner_end(s, pos) == to,
    decreases to - pos,
{
    if pos < to {
        lemma_inner_run(s, pos + 1, to);
    }
}

/// The digits from `pos` on are digits.
proof fn lemma_digits_end_digits(s: Seq<char>, pos: int)
    requires
        0 <= pos <= s.len(),
    ensures
        forall|i: int| pos <= i < digits_end(s, pos) ==> is_digit(#[trigger] s[i]),
        digits_end(s, pos) == s.len() || !is_digit(s[digits_end(s, pos)]),
    decreases s.len() - pos,
{
    lemma_digits_end_bounds(s, pos);
    if pos < s.len() && is_digit(s[pos]) {
        lemma_digits_end_digits(s, pos + 1);
    }
}

/// The character of a digit.
pub open spec fn digit_char(d: int) -> char {
    ('0' as int + d) as char
}

/// The digits that write `m`, the most significant first.
pub open spec fn digits_of(m: nat) -> Seq<char>
    decreases m,
{
    if m < 10 {
        seq![digit_char(m as int)]
    } else {
        digits_of(m / 10).push(digit_char((m % 10) as int))
    }
}

/// The text that writes `n`: its digits, behind a `-` where it is negative.
pub open spec fn int_text(n: int) -> Seq<char> {
    if n < 0 {
        seq!['-'] + digits_of((-n) as nat)
    } else {
        digits_of(n as nat)
    }
}

/// Whether `text` opens like a number: with a digit, or with `-` and a digit.
pub open spec fn starts_number(text: Seq<char>) -> bool {
    (text.len() > 0 && is_digit(text[0])) || (text.len() > 1 && text[0] == '-' && is_digit(
        text[1],
    ))
}

/// Whether `name` can be written as a symbol: it is made of symbol characters, of one at
/// least, and does not open like a number.
pub open spec fn is_symbol_text(name: Seq<char>) -> bool {
    &&& name.len() > 0
    &&& forall|i: int| 0 <= i < name.len() ==> is_symbol_char(#[trigger] name[i])
    &&& !starts_number(name)
}

/// Whether the tree can be written down: it holds no value that only a host has, every
/// number, string and name in it can be written as its kind, and it is well formed, every
/// keyword being of no module.
pub open spec fn printable(ast: AstView) -> bool
    decreases ast,
{
    match ast {
        AstView::Undefined => false,
        AstView::Null => false,
        AstView::Int(_) => true,
        AstView::Float(text) => is_float_text(text),
        AstView::String(text) => forall|i: int| 0 <= i < text.len() ==> #[trigger] text[i] != '"',
        AstView::List(items) => all_printable(items),
        AstView::Keyword { module, name, full_name, hash_code } => {
            &&& module.len() == 0
            &&& forall|i: int| 0 <= i < name.len() ==> is_symbol_char(#[trigger] name[i])
            &&& name.len() > 0
            &&& ast == AstView::keyword(module, name)
        },
        AstView::Identifier { name, hash_code } => {
            &&& is_symbol_text(name)
            &&& ast == AstView::identifier(name)
        },
    }
}

/// Whether every tree of the sequence can be written down.
pub open spec fn all_printable(items: Seq<AstView>) -> bool
    decreases items,
{
    forall|i: int| 0 <= i < items.len() ==> printable(#[trigger] items[i])
}

/// The text of a tree.
pub open spec fn print(ast: AstView) -> Seq<char>
    decreases ast,
{
    match ast {
        AstView::Undefined => Seq::empty(),
        AstView::Null => Seq::empty(),
        AstView::Int(n) => int_text(n as int),
        AstView::Float(text) => text,
        AstView::String(text) => seq!['"'] + text + seq!['"'],
        AstView::List(items) => seq!['('] + print_all(items) + seq![')'],
        AstView::Keyword { name, .. } => seq![':'] + name,
        AstView::Identifier { name, .. } => name,
    }
}

/// The texts of a sequence of trees, a blank behind each.
pub open spec fn print_all(items: Seq<AstView>) -> Seq<char>
    decreases items,
{
    if items.len() == 0 {
        Seq::empty()
    } else {
        print(items[0]) + seq![' '] + print_all(items.drop_first())
    }
}

/// The digits of a number are digits, one at least, and write that number.
pub proof fn lemma_digits_of(m: nat)
    ensures
        digits_of(m).len() > 0,
        all_digits(digits_of(m)),
        digits_value(digits_of(m)) == m,
    decreases m,
{
    if m < 10 {
        let d = digits_of(m);
        assert(d.drop_last() =~= Seq::<char>::empty());
        assert(digits_value(d.drop_last()) == 0);
    } else {
        lemma_digits_of(m / 10);
        let d = digits_of(m);
        assert(d.drop_last() =~= digits_of(m / 10));
        assert forall|i: int| 0 <= i < d.len() implies is_digit(#[trigger] d[i]) by {
            if i < d.len() - 1 {
                assert(d[i] == digits_of(m / 10)[i]);
            }
        }
    }
}

/// The text of a 64-bit integer writes that integer.
pub proof fn lemma_int_text(n: i64)
    ensures
        i64_value(int_text(n as int)) == Some(n),
        int_text(n as int).len() > 0,
{
    let text = int_text(n as int);
    if n < 0 {
        let m = (-(n as int)) as nat;
        lemma_digits_of(m);
        assert(text.subrange(1, text.len() as int) =~= digits_of(m));
        assert(text[0] == '-');
    } else {
        let m = n as nat;
        lemma_digits_of(m);
        assert(is_digit(text[0]));
        assert(text.subrange(0, text.len() as int) =~= digits_of(m));
    }
}

/// In a text that stands in `s` before a character that is no digit, digits end where they
/// end in the text.
proof fn lemma_digits_embed(s: Seq<char>, pos: int, text: Seq<char>, at: int)
    requires
        stands_at(s, pos, text),
        0 <= at <= text.len(),
        pos + text.len() == s.len() || !is_digit(s[pos + text.len()]),
    ensures
        digits_end(s, pos + at) == pos + digits_end(text, at),
    decreases text.len() - at,
{
    lemma_stands_at(s, pos, text);
    if at < text.len() && is_digit(text[at]) {
        lemma_digits_embed(s, pos, text, at + 1);
    }
}

/// Nothing is skipped before a character that is neither a blank nor the start of a comment.
proof fn lemma_nothing_to_skip(s: Seq<char>, pos: int)
    requires
        0 <= pos <= s.len(),
        pos < s.len() ==> !is_space(s[pos]) && s[pos] != ';',
    ensures
        skip_trivia(s, pos, false) == pos,
{
}

/// The text of a tree that can be written down opens with a character that starts an
/// expression: no blank, no comment, no closing bracket.
proof fn lemma_print_opens(ast: AstView)
    requires
        printable(ast),
    ensures
        print(ast).len() > 0,
        !is_space(print(ast)[0]),
        print(ast)[0] != ';',
        print(ast)[0] != ')',
{
    match ast {
        AstView::Int(n) => {
            lemma_int_text(n);
            if n < 0 {
            } else {
                lemma_digits_of(n as nat);
                assert(is_digit(print(ast)[0]));
            }
        },
        AstView::Float(text) => {
            lemma_digits_end_bounds(text, after_sign(text, 0));
            if text[0] != '-' {
                assert(is_digit(text[0]));
            }
        },
        AstView::Identifier { name, .. } => {
            assert(is_symbol_char(name[0]));
        },
        _ => {},
    }
}

/// An integer that stands in `s` where an expression may end is taken for an integer, whole.
proof fn lemma_integer_round_trip(s: Seq<char>, pos: int, n: i64)
    requires
        stands_at(s, pos, int_text(n as int)),
        ends_at(s, pos + int_text(n as int).len()),
    ensures
        match_atom(s, pos) == Some(token(Rule::Integer, s, pos, pos + int_text(n as int).len())),
{
    let text = int_text(n as int);
    let end = pos + text.len();
    lemma_int_text(n);
    lemma_stands_at(s, pos, text);
    let m = if n < 0 {
        (-(n as int)) as nat
    } else {
        n as nat
    };
    lemma_digits_of(m);
    let first = if n < 0 {
        pos + 1
    } else {
        pos
    };
    assert(text[0] == s[pos]);
    if n >= 0 {
        assert(is_digit(text[0]));
    }
    assert(after_sign(s, pos) == first);
    assert forall|i: int| first <= i < end implies is_digit(#[trigger] s[i]) by {
        assert(s[i] == text[i - pos]);
        if n < 0 {
            assert(text[i - pos] == digits_of(m)[i - pos - 1]);
        }
    }
    lemma_digits_run(s, first, end);
}

/// A float that stands in `s` where an expression may end is taken for a float, whole.
proof fn lemma_float_round_trip(s: Seq<char>, pos: int, text: Seq<char>)
    requires
        is_float_text(text),
        stands_at(s, pos, text),
        ends_at(s, pos + text.len()),
    ensures
        match_atom(s, pos) == Some(token(Rule::Float, s, pos, pos + text.len())),
{
    lemma_stands_at(s, pos, text);
    let first = after_sign(text, 0);
    lemma_digits_end_bounds(text, first);
    let whole = digits_end(text, first);
    assert(text[0] == s[pos]);
    assert(after_sign(s, pos) == pos + first);
    lemma_digits_embed(s, pos, text, first);
    assert(s[pos + whole] == text[whole]);
    lemma_digits_embed(s, pos, text, whole + 1);
}

/// A string that stands in `s` is taken for a string, whole.
proof fn lemma_string_round_trip(s: Seq<char>, pos: int, text: Seq<char>)
    requires
        forall|i: int| 0 <= i < text.len() ==> #[trigger] text[i] != '"',
        stands_at(s, pos, seq!['"'] + text + seq!['"']),
    ensures
        match_atom(s, pos) == Some(
            branch(
                Rule::String,
                pos,
                pos + text.len() + 2,
                seq![token(Rule::Inner, s, pos + 1, pos + 1 + text.len())],
            ),
        ),
        s.subrange(pos + 1, pos + 1 + text.len()) == text,
{
    let whole = seq!['"'] + text + seq!['"'];
    lemma_stands_at(s, pos, whole);
    assert(whole[0] == '"');
    assert(s[pos] == '"');
    assert(whole[text.len() as int + 1] == '"');
    assert forall|i: int| pos + 1 <= i < pos + 1 + text.len() implies #[trigger] s[i] != '"' by {
        assert(s[i] == whole[i - pos]);
        assert(whole[i - pos] == text[i - pos - 1]);
    }
    lemma_inner_run(s, pos + 1, pos + 1 + text.len());
    lemma_digits_end_bounds(s, after_sign(s, pos));
    assert(s.subrange(pos + 1, pos + 1 + text.len()) =~= text) by {
        assert forall|i: int| 0 <= i < text.len() implies s[pos + 1 + i] == text[i] by {
            assert(s[pos + 1 + i] == whole[1 + i]);
        }
    }
}

/// A keyword that stands in `s` where an expression may end is taken for a keyword, whole.
proof fn lemma_keyword_round_trip(s: Seq<char>, pos: int, name: Seq<char>)
    requires
        name.len() > 0,
        forall|i: int| 0 <= i < name.len() ==> is_symbol_char(#[trigger] name[i]),
        stands_at(s, pos, seq![':'] + name),
        ends_at(s, pos + 1 + name.len()),
    ensures
        match_atom(s, pos) == Some(
            branch(
                Rule::Keyword,
                pos,
                pos + 1 + name.len(),
                seq![token(Rule::Name, s, pos + 1, pos + 1 + name.len())],
            ),
        ),
        s.subrange(pos + 1, pos + 1 + name.len()) == name,
{
    let whole = seq![':'] + name;
    lemma_stands_at(s, pos, whole);
    assert(whole[0] == ':');
    assert(s[pos] == ':');
    assert forall|i: int| pos + 1 <= i < pos + 1 + name.len() implies is_symbol_char(
        #[trigger] s[i],
    ) by {
        assert(s[i] == whole[i - pos]);
        assert(whole[i - pos] == name[i - pos - 1]);
    }
    lemma_symbol_run(s, pos + 1, pos + 1 + name.len());
    lemma_digits_end_bounds(s, after_sign(s, pos));
    assert(s.subrange(pos + 1, pos + 1 + name.len()) =~= name) by {
        assert forall|i: int| 0 <= i < name.len() implies s[pos + 1 + i] == name[i] by {
            assert(s[pos + 1 + i] == whole[1 + i]);
        }
    }
}

/// A symbol that stands in `s` where an expression may end is taken for a symbol, whole.
proof fn lemma_symbol_round_trip(s: Seq<char>, pos: int, name: Seq<char>)
    requires
        is_symbol_text(name),
        stands_at(s, pos, name),
        ends_at(s, pos + name.len()),
    ensures
        match_atom(s, pos) == Some(token(Rule::Symbol, s, pos, pos + name.len())),
{
    lemma_stands_at(s, pos, name);
    assert(s[pos] == name[0]);
    assert(is_symbol_char(name[0]));
    assert forall|i: int| pos <= i < pos + name.len() implies is_symbol_char(#[trigger] s[i]) by {
        assert(s[i] == name[i - pos]);
    }
    lemma_symbol_run(s, pos, pos + name.len());
    let first = after_sign(s, pos);
    if first < s.len() && name.len() > 1 && first == pos + 1 {
        assert(s[pos + 1] == name[1]);
    }
    assert(digits_end(s, first) == first);
}

/// A blank before a sequence of expressions changes nothing of what is taken.
proof fn lemma_blank_before(s: Seq<char>, pos: int, sets: bool)
    requires
        0 <= pos < s.len(),
        s[pos] == ' ',
    ensures
        match_exprs(s, pos, sets) == match_exprs(s, pos + 1, sets),
{
    lemma_skip_trivia_bounds(s, pos + 1, false);
}

/// The trees of a node and of the nodes behind it, where each has one.
proof fn lemma_reduce_cons(first: NodeView, rest: Seq<NodeView>)
    requires
        reduce_expr(first) is Ok,
        reduce_exprs(rest) is Ok,
    ensures
        reduce_exprs(seq![first] + rest) == Ok::<Seq<AstView>, ParseError>(
            seq![reduce_expr(first)->Ok_0] + reduce_exprs(rest)->Ok_0,
        ),
    decreases rest.len(),
{
    let all = seq![first] + rest;
    if rest.len() == 0 {
        lemma_reduce_none();
        lemma_reduce_step(Seq::empty(), first);
        assert(all =~= Seq::<NodeView>::empty().push(first));
        assert(rest =~= Seq::<NodeView>::empty());
        assert(Seq::<AstView>::empty().push(reduce_expr(first)->Ok_0) =~= seq![
            reduce_expr(first)->Ok_0,
        ] + Seq::<AstView>::empty());
    } else {
        let front = rest.drop_last();
        let last = rest.last();
        assert(rest =~= front.push(last));
        lemma_reduce_step(front, last);
        lemma_reduce_cons(first, front);
        assert(all =~= (seq![first] + front).push(last));
        lemma_reduce_step(seq![first] + front, last);
        assert((seq![reduce_expr(first)->Ok_0] + reduce_exprs(front)->Ok_0).push(
            reduce_expr(last)->Ok_0,
        ) =~= seq![reduce_expr(first)->Ok_0] + reduce_exprs(rest)->Ok_0);
    }
}

/// A part of a text that stands in `s` stands in `s`.
proof fn lemma_part_stands(s: Seq<char>, pos: int, text: Seq<char>, from: int, to: int)
    requires
        stands_at(s, pos, text),
        0 <= from <= to <= text.len(),
    ensures
        stands_at(s, pos + from, text.subrange(from, to)),
{
    lemma_stands_at(s, pos, text);
    assert(s.subrange(pos + from, pos + to) =~= text.subrange(from, to));
}

proof fn lemma_integer_case(s: Seq<char>, pos: int, n: i64)
    requires
        stands_at(s, pos, int_text(n as int)),
        ends_at(s, pos + int_text(n as int).len()),
    ensures
        match_expr(s, pos, false) matches Some(node) && node.end == pos + int_text(
            n as int,
        ).len() && reduce_expr(node) == Ok::<AstView, ParseError>(AstView::Int(n)),
{
    lemma_integer_round_trip(s, pos, n);
    lemma_int_text(n);
    lemma_reduce_wrapped(match_atom(s, pos)->Some_0);
}

proof fn lemma_float_case(s: Seq<char>, pos: int, text: Seq<char>)
    requires
        is_float_text(text),
        stands_at(s, pos, text),
        ends_at(s, pos + text.len()),
    ensures
        match_expr(s, pos, false) matches Some(node) && node.end == pos + text.len()
            && reduce_expr(node) == Ok::<AstView, ParseError>(AstView::Float(text)),
{
    lemma_float_round_trip(s, pos, text);
    lemma_digits_end_bounds(text, after_sign(text, 0));
    lemma_reduce_wrapped(match_atom(s, pos)->Some_0);
}

proof fn lemma_string_case(s: Seq<char>, pos: int, text: Seq<char>)
    requires
        forall|i: int| 0 <= i < text.len() ==> #[trigger] text[i] != '"',
        stands_at(s, pos, seq!['"'] + text + seq!['"']),
    ensures
        match_expr(s, pos, false) matches Some(node) && node.end == pos + text.len() + 2
            && reduce_expr(node) == Ok::<AstView, ParseError>(AstView::String(text)),
{
    lemma_string_round_trip(s, pos, text);
    lemma_reduce_wrapped(match_atom(s, pos)->Some_0);
}

proof fn lemma_keyword_case(s: Seq<char>, pos: int, name: Seq<char>)
    requires
        name.len() > 0,
        forall|i: int| 0 <= i < name.len() ==> is_symbol_char(#[trigger] name[i]),
        stands_at(s, pos, seq![':'] + name),
        ends_at(s, pos + 1 + name.len()),
    ensures
        match_expr(s, pos, false) matches Some(node) && node.end == pos + 1 + name.len()
            && reduce_expr(node) == Ok::<AstView, ParseError>(
            AstView::keyword(Seq::empty(), name),
        ),
{
    lemma_keyword_round_trip(s, pos, name);
    lemma_reduce_wrapped(match_atom(s, pos)->Some_0);
}

proof fn lemma_symbol_case(s: Seq<char>, pos: int, name: Seq<char>)
    requires
        is_symbol_text(name),
        stands_at(s, pos, name),
        ends_at(s, pos + name.len()),
    ensures
        match_expr(s, pos, false) matches Some(node) && node.end == pos + name.len()
            && reduce_expr(node) == Ok::<AstView, ParseError>(AstView::identifier(name)),
{
    lemma_symbol_round_trip(s, pos, name);
    lemma_reduce_wrapped(match_atom(s, pos)->Some_0);
}

/// The text of a tree, standing in `s` where an expression may end behind it, is taken for an
/// expression, whole, and that expression is the tree.
pub proof fn lemma_expr_round_trip(s: Seq<char>, pos: int, ast: AstView)
    requires
        printable(ast),
        stands_at(s, pos, print(ast)),
        ends_at(s, pos + print(ast).len()),
    ensures
        match_expr(s, pos, false) matches Some(node) && node.end == pos + print(ast).len()
            && reduce_expr(node) == Ok::<AstView, ParseError>(ast),
    decreases ast, 1nat,
{
    match ast {
        AstView::Int(n) => {
            lemma_integer_case(s, pos, n);
        },
        AstView::Float(number) => {
            lemma_float_case(s, pos, number);
        },
        AstView::String(content) => {
            lemma_string_case(s, pos, content);
        },
        AstView::Keyword { module, name, .. } => {
            assert(module =~= Seq::<char>::empty());
            lemma_keyword_case(s, pos, name);
        },
        AstView::Identifier { name, .. } => {
            lemma_symbol_case(s, pos, name);
        },
        AstView::List(items) => {
            lemma_list_round_trip(s, pos, items);
        },
        _ => {},
    }
}

/// The text of a list, standing in `s`, is taken for a list, whole, and that list is the list
/// of the trees.
proof fn lemma_list_round_trip(s: Seq<char>, pos: int, items: Seq<AstView>)
    requires
        all_printable(items),
        stands_at(s, pos, print(AstView::List(items))),
    ensures
        match_expr(s, pos, false) matches Some(node) && node.end == pos + print(
            AstView::List(items),
        ).len() && reduce_expr(node) == Ok::<AstView, ParseError>(AstView::List(items)),
    decreases items, 1nat,
{
    let text = print(AstView::List(items));
    let inner = print_all(items);
    let width = inner.len() as int;
    lemma_stands_at(s, pos, text);
    assert(text[0] == '(');
    assert(s[pos] == text[0]);
    lemma_digits_end_bounds(s, after_sign(s, pos));
    assert(match_atom(s, pos) is None);
    lemma_part_stands(s, pos, text, 1, 1 + width);
    assert(text.subrange(1, 1 + width) =~= inner);
    assert(text[1 + width] == ')');
    assert(s[pos + 1 + width] == text[1 + width]);
    lemma_exprs_round_trip(s, pos + 1, items);
    let list = match_compound(s, pos, false)->Some_0;
    assert(list == branch(Rule::List, pos, pos + width + 2, match_exprs(s, pos + 1, false).0));
    lemma_reduce_wrapped(list);
}

/// The texts of a sequence of trees, standing in `s` before a closing parenthesis or the end
/// of `s`, are taken for a sequence of expressions, whole, and those expressions are the trees.
pub proof fn lemma_exprs_round_trip(s: Seq<char>, pos: int, items: Seq<AstView>)
    requires
        all_printable(items),
        stands_at(s, pos, print_all(items)),
        pos + print_all(items).len() == s.len() || s[pos + print_all(items).len()] == ')',
    ensures
        match_exprs(s, pos, false).1 == pos + print_all(items).len(),
        reduce_exprs(match_exprs(s, pos, false).0) == Ok::<Seq<AstView>, ParseError>(items),
    decreases items, 0nat,
{
    let text = print_all(items);
    let end = pos + text.len();
    if items.len() == 0 {
        lemma_nothing_to_skip(s, pos);
        if pos < s.len() {
            lemma_digits_end_bounds(s, after_sign(s, pos));
            assert(match_atom(s, pos) is None);
            assert(match_expr(s, pos, false) is None);
        }
        assert(match_exprs(s, pos, false).0 =~= Seq::<NodeView>::empty());
        assert(items =~= Seq::<AstView>::empty());
        lemma_reduce_none();
    } else {
        let first = items[0];
        let rest = items.drop_first();
        let head = print(first);
        let width = head.len() as int;
        lemma_print_opens(first);
        lemma_stands_at(s, pos, text);
        assert(text[0] == head[0]);
        lemma_nothing_to_skip(s, pos);
        lemma_part_stands(s, pos, text, 0, width);
        assert(text.subrange(0, width) =~= head);
        assert(text[width] == ' ');
        lemma_expr_round_trip(s, pos, first);
        let node = match_expr(s, pos, false)->Some_0;
        let behind = pos + width + 1;
        lemma_blank_before(s, node.end, false);
        lemma_part_stands(s, pos, text, width + 1, text.len() as int);
        assert(text.subrange(width + 1, text.len() as int) =~= print_all(rest));
        assert forall|i: int| 0 <= i < rest.len() implies printable(#[trigger] rest[i]) by {
            assert(rest[i] == items[i + 1]);
        }
        lemma_exprs_round_trip(s, behind, rest);
        lemma_reduce_cons(node, match_exprs(s, behind, false).0);
        assert(seq![first] + rest =~= items);
    }
}

/// Parsing the text of a module gives the module back: the lines that can be written down are
/// the lines that their text parses to.
pub proof fn lemma_parse_print(lines: Seq<AstView>)
    requires
        all_printable(lines),
    ensures
        spec_parse(print_all(lines)) == Ok::<Seq<AstView>, ParseError>(lines),
{
    let s = print_all(lines);
    assert(s.subrange(0, s.len() as int) =~= s);
    lemma_exprs_round_trip(s, 0, lines);
    let nodes = match_exprs(s, 0, false).0;
    let module = match_module(s, false)->Ok_0;
    assert(module.children.drop_last() =~= nodes);
}

/// The symbol characters from `pos` on are symbol characters.
proof fn lemma_symbol_end_chars(s: Seq<char>, pos: int)
    requires
        0 <= pos <= s.len(),
    ensures
        forall|i: int| pos <= i < symbol_end(s, pos) ==> is_symbol_char(#[trigger] s[i]),
    decreases s.len() - pos,
{
    lemma_symbol_end_bounds(s, pos);
    if pos < s.len() && is_symbol_char(s[pos]) {
        lemma_symbol_end_chars(s, pos + 1);
    }
}

/// The characters of a string are no `"`.
proof fn lemma_inner_end_chars(s: Seq<char>, pos: int)
    requires
        0 <= pos <= s.len(),
    ensures
        forall|i: int| pos <= i < inner_end(s, pos) ==> #[trigger] s[i] != '"',
    decreases s.len() - pos,
{
    lemma_inner_end_bounds(s, pos);
    if pos < s.len() && s[pos] != '"' {
        lemma_inner_end_chars(s, pos + 1);
    }
}

/// Where the trees of a node and of the nodes behind it are had, each has one.
proof fn lemma_reduce_uncons(first: NodeView, rest: Seq<NodeView>)
    requires
        reduce_exprs(seq![first] + rest) is Ok,
    ensures
        reduce_expr(first) is Ok,
        reduce_exprs(rest) is Ok,
    decreases rest.len(),
{
    let all = seq![first] + rest;
    if rest.len() == 0 {
        lemma_reduce_none();
        lemma_reduce_step(Seq::empty(), first);
        assert(all =~= Seq::<NodeView>::empty().push(first));
        assert(rest =~= Seq::<NodeView>::empty());
    } else {
        let front = rest.drop_last();
        let last = rest.last();
        assert(rest =~= front.push(last));
        assert(all =~= (seq![first] + front).push(last));
        lemma_reduce_step(seq![first] + front, last);
        lemma_reduce_uncons(first, front);
        lemma_reduce_step(front, last);
    }
}

/// The names that the sugar of the grammar calls can be written as symbols.
proof fn lemma_sugar_names()
    ensures
        is_symbol_text("vec"@),
        is_symbol_text("object"@),
        is_symbol_text("quote"@),
{
    reveal_strlit("vec");
    reveal_strlit("object");
    reveal_strlit("quote");
}

/// A call of a name that can be written, on trees that can be written, can be written.
proof fn lemma_call_printable(name: Seq<char>, items: Seq<AstView>)
    requires
        is_symbol_text(name),
        all_printable(items),
    ensures
        printable(crate::jasp_parser::spec_to_call(name, items)),
{
    let all = seq![AstView::identifier(name)] + items;
    assert forall|i: int| 0 <= i < all.len() implies printable(#[trigger] all[i]) by {
        if i > 0 {
            assert(all[i] == items[i - 1]);
        }
    }
}

proof fn lemma_string_printable(s: Seq<char>, pos: int)
    requires
        0 <= pos < s.len(),
        match_string(s, pos) is Some,
    ensures
        printable(AstView::String(match_string(s, pos)->Some_0.children[0].text)),
{
    lemma_inner_end_chars(s, pos + 1);
    lemma_inner_end_bounds(s, pos + 1);
    let text = match_string(s, pos)->Some_0.children[0].text;
    assert forall|i: int| 0 <= i < text.len() implies #[trigger] text[i] != '"' by {
        assert(text[i] == s[pos + 1 + i]);
    }
}

proof fn lemma_keyword_printable(s: Seq<char>, pos: int)
    requires
        0 <= pos < s.len(),
        match_keyword(s, pos) is Some,
    ensures
        printable(AstView::keyword(Seq::empty(), match_keyword(s, pos)->Some_0.children[0].text)),
{
    lemma_symbol_end_chars(s, pos + 1);
    lemma_symbol_end_bounds(s, pos + 1);
    let name = match_keyword(s, pos)->Some_0.children[0].text;
    assert forall|i: int| 0 <= i < name.len() implies is_symbol_char(#[trigger] name[i]) by {
        assert(name[i] == s[pos + 1 + i]);
    }
}

proof fn lemma_symbol_printable(s: Seq<char>, pos: int)
    requires
        0 <= pos < s.len(),
        match_integer(s, pos) is None,
        match_symbol(s, pos) is Some,
    ensures
        is_symbol_text(match_symbol(s, pos)->Some_0.text),
{
    lemma_symbol_end_chars(s, pos);
    lemma_symbol_end_bounds(s, pos);
    let name = match_symbol(s, pos)->Some_0.text;
    assert forall|i: int| 0 <= i < name.len() implies is_symbol_char(#[trigger] name[i]) by {
        assert(name[i] == s[pos + i]);
    }
    assert(name[0] == s[pos]);
    if name.len() > 1 {
        assert(name[1] == s[pos + 1]);
    }
    let first = after_sign(s, pos);
    if first < s.len() && is_digit(s[first]) {
        lemma_digits_end_bounds(s, first + 1);
    }
}

proof fn lemma_parsed_atom_printable(s: Seq<char>, pos: int)
    requires
        0 <= pos < s.len(),
    ensures
        match_atom(s, pos) matches Some(node) ==> (reduce_expr(wrap(node)) matches Ok(ast)
            ==> printable(ast)),
{
    if let Some(node) = match_atom(s, pos) {
        lemma_reduce_wrapped(node);
        if match_float(s, pos) is Some {
            lemma_float_text(s, pos);
        } else if match_integer(s, pos) is Some {
        } else if match_string(s, pos) is Some {
            lemma_string_printable(s, pos);
        } else if match_keyword(s, pos) is Some {
            lemma_keyword_printable(s, pos);
        } else {
            lemma_symbol_printable(s, pos);
        }
    }
}

/// The tree of what the grammar takes for an `expr` can be written down.
pub proof fn lemma_parsed_expr_printable(s: Seq<char>, pos: int)
    ensures
        match_expr(s, pos, false) matches Some(node) ==> (reduce_expr(node) matches Ok(ast)
            ==> printable(ast)),
    decreases s.len() - pos, 2nat,
{
    if 0 <= pos < s.len() {
        if match_atom(s, pos) is Some {
            lemma_parsed_atom_printable(s, pos);
        } else if let Some(inner) = match_compound(s, pos, false) {
            lemma_reduce_wrapped(inner);
            lemma_sugar_names();
            if s[pos] == '(' {
                lemma_parsed_group_printable(s, pos, Rule::List, 1, ')');
            } else if s[pos] == '[' {
                lemma_parsed_group_printable(s, pos, Rule::Vector, 1, ']');
                lemma_reduce_inner(inner);
                if let Ok(items) = reduce_exprs(inner.children) {
                    lemma_call_printable("vec"@, items);
                }
            } else if s[pos] == '{' {
                lemma_parsed_group_printable(s, pos, Rule::Object, 1, '}');
                lemma_reduce_inner(inner);
                if let Ok(items) = reduce_exprs(inner.children) {
                    lemma_call_printable("object"@, items);
                }
            } else if s[pos] == '\'' {
                let at = skip_trivia(s, pos + 1, false);
                lemma_parsed_expr_printable(s, at);
                lemma_reduce_inner(inner);
                if let Ok(quoted) = reduce_expr(inner.children[0]) {
                    assert(all_printable(seq![quoted]));
                    lemma_call_printable("quote"@, seq![quoted]);
                }
            }
        }
    }
}

/// The trees of a vector, an object and a quoted expression are calls on the trees inside.
proof fn lemma_reduce_inner(inner: NodeView)
    ensures
        crate::jasp_parser::reduce_vector(inner) == match reduce_exprs(inner.children) {
            Ok(items) => Ok::<AstView, ParseError>(
                crate::jasp_parser::spec_to_call("vec"@, items),
            ),
            Err(e) => Err(e),
        },
        crate::jasp_parser::reduce_object(inner) == match reduce_exprs(inner.children) {
            Ok(items) => Ok::<AstView, ParseError>(
                crate::jasp_parser::spec_to_call("object"@, items),
            ),
            Err(e) => Err(e),
        },
        inner.children.len() == 1 ==> crate::jasp_parser::reduce_quoted(inner) == match reduce_expr(
            inner.children[0],
        ) {
            Ok(quoted) => Ok::<AstView, ParseError>(
                crate::jasp_parser::spec_to_call("quote"@, seq![quoted]),
            ),
            Err(e) => Err(e),
        },
{
    reveal(reduce_expr);
}

proof fn lemma_parsed_group_printable(s: Seq<char>, pos: int, rule: Rule, width: int, close: char)
    ensures
        match_group(s, pos, rule, width, close, false) matches Some(node) ==> (reduce_exprs(
            node.children,
        ) matches Ok(items) ==> all_printable(items)),
    decreases s.len() - pos, 0nat,
{
    if !(width < 1 || pos < 0 || pos + width > s.len()) {
        lemma_parsed_exprs_printable(s, pos + width);
    }
}

/// The trees of what the grammar takes for a sequence of `expr` can be written down.
pub proof fn lemma_parsed_exprs_printable(s: Seq<char>, pos: int)
    ensures
        reduce_exprs(match_exprs(s, pos, false).0) matches Ok(items) ==> all_printable(items),
    decreases s.len() - pos, 3nat,
{
    let at = skip_trivia(s, pos, false);
    if pos <= at <= s.len() {
        if let Some(first) = match_expr(s, at, false) {
            if at < first.end <= s.len() {
                let rest = match_exprs(s, first.end, false).0;
                if reduce_exprs(seq![first] + rest) is Ok {
                    lemma_reduce_uncons(first, rest);
                    lemma_reduce_cons(first, rest);
                    lemma_parsed_expr_printable(s, at);
                    lemma_parsed_exprs_printable(s, first.end);
                    let head = reduce_expr(first)->Ok_0;
                    let tail = reduce_exprs(rest)->Ok_0;
                    let all = seq![head] + tail;
                    assert forall|i: int| 0 <= i < all.len() implies printable(
                        #[trigger] all[i],
                    ) by {
                        if i > 0 {
                            assert(all[i] == tail[i - 1]);
                        }
                    }
                }
                return ;
            }
        }
    }
    lemma_reduce_none();
    assert(match_exprs(s, pos, false).0 =~= Seq::<NodeView>::empty());
}

/// The lines that a text parses to can be written down, and their text parses to them again.
pub proof fn lemma_print_parse(source: Seq<char>)
    ensures
        spec_parse(source) matches Ok(lines) ==> all_printable(lines) && spec_parse(
            print_all(lines),
        ) == Ok::<Seq<AstView>, ParseError>(lines),
{
    if let Ok(lines) = spec_parse(source) {
        let module = match_module(source, false)->Ok_0;
        assert(module.children.drop_last() =~= match_exprs(source, 0, false).0);
        lemma_parsed_exprs_printable(source, 0);
        lemma_parse_print(lines);
    }
}

} // verus!
