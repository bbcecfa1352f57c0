//! Names on their way between Lisp and JavaScript. A Lisp name may hold `!`, `?` and `.`, which
//! a JavaScript identifier may not; letters that look alike stand in for them.

use vstd::prelude::*;
use crate::text::chars_of;

verus! {

/// What `inflector`'s `to_camel_case` makes of a text.
pub uninterp spec fn camel_case_of(s: Seq<char>) -> Seq<char>;

/// What `inflector`'s `to_kebab_case` makes of a text.
pub uninterp spec fn kebab_case_of(s: Seq<char>) -> Seq<char>;

/// Calls `Inflector::to_camel_case` of the crate `inflector`, which puts a text into camel case:
/// it reads the text alone and always returns. What it returns is named, not described.
#[verifier::external_body]
fn to_camel_case(s: &str) -> (camel: String)
    ensures
        camel@ == camel_case_of(s@),
{
    inflector::Inflector::to_camel_case(s)
}

/// Calls `Inflector::to_kebab_case` of the crate `inflector`, which puts a text into kebab case:
/// it reads the text alone and always returns. What it returns is named, not described.
#[verifier::external_body]
fn to_kebab_case(s: &str) -> (kebab: String)
    ensures
        kebab@ == kebab_case_of(s@),
{
    inflector::Inflector::to_kebab_case(s)
}

/// The letter that stands in for a character of a Lisp name in JavaScript.
pub open spec fn js_glyph(c: char) -> char {
    if c == '!' {
        '\u{1c3}'
    } else if c == '?' {
        '\u{294}'
    } else if c == '.' {
        '\u{b7}'
    } else {
        c
    }
}

/// The character of a Lisp name that a letter of a JavaScript identifier stands in for.
pub open spec fn lisp_glyph(c: char) -> char {
    if c == '\u{1c3}' {
        '!'
    } else if c == '\u{294}' {
        '?'
    } else if c == '\u{b7}' {
        '.'
    } else {
        c
    }
}

/// `s` with every `!`, `?` and `.` replaced by its stand-in.
pub open spec fn spec_js_homoglyphs(s: Seq<char>) -> Seq<char> {
    Seq::new(s.len(), |i: int| js_glyph(s[i]))
}

/// `s` with every stand-in replaced by the character it stands for.
pub open spec fn spec_lisp_homoglyphs(s: Seq<char>) -> Seq<char> {
    Seq::new(s.len(), |i: int| lisp_glyph(s[i]))
}

fn to_js_glyph(c: char) -> (glyph: char)
    ensures
        glyph == js_glyph(c),
{
    if c == '!' {
        '\u{1c3}'
    } else if c == '?' {
        '\u{294}'
    } else if c == '.' {
        '\u{b7}'
    } else {
        c
    }
}

fn to_lisp_glyph(c: char) -> (glyph: char)
    ensures
        glyph == lisp_glyph(c),
{
    if c == '\u{1c3}' {
        '!'
    } else if c == '\u{294}' {
        '?'
    } else if c == '\u{b7}' {
        '.'
    } else {
        c
    }
}

/// Replaces every `!`, `?` and `.` of `s` by its stand-in.
pub fn js_homoglyphs(s: &str) -> (replaced: String)
    ensures
        replaced@ == spec_js_homoglyphs(s@),
{
    let chars = chars_of(s);
    let mut replaced = String::new();
    let mut i: usize = 0;
    while i < chars.len()
        invariant
            i <= chars.len(),
            chars@ == s@,
            replaced@ == spec_js_homoglyphs(s@.take(i as int)),
        decreases chars.len() - i,
    {
        replaced.push(to_js_glyph(chars[i]));
        i += 1;
    }
    replaced
}

/// Replaces every stand-in of `s` by the character it stands for.
pub fn lisp_homoglyphs(s: &str) -> (replaced: String)
    ensures
        replaced@ == spec_lisp_homoglyphs(s@),
{
    let chars = chars_of(s);
    let mut replaced = String::new();
    let mut i: usize = 0;
    while i < chars.len()
        invariant
            i <= chars.len(),
            chars@ == s@,
            replaced@ == spec_lisp_homoglyphs(s@.take(i as int)),
        decreases chars.len() - i,
    {
        replaced.push(to_lisp_glyph(chars[i]));
        i += 1;
    }
    replaced
}

/// The JavaScript identifier for a Lisp name: the name in camel case, with stand-ins for what
/// JavaScript does not take.
pub fn js_identifier(s: String) -> (identifier: String)
    ensures
        identifier@ == spec_js_homoglyphs(camel_case_of(s@)),
{
    let camel = to_camel_case(s.as_str());
    js_homoglyphs(camel.as_str())
}

/// The Lisp name for a JavaScript identifier: the identifier in kebab case, with the stand-ins
/// taken back.
pub fn lisp_identifier(s: String) -> (name: String)
    ensures
        name@ == spec_lisp_homoglyphs(kebab_case_of(s@)),
{
    let kebab = to_kebab_case(s.as_str());
    lisp_homoglyphs(kebab.as_str())
}

/// Taking the stand-ins back undoes putting them in, for a text that holds no stand-in of its
/// own.
pub proof fn lemma_homoglyphs_round_trip(s: Seq<char>)
    requires
        forall|i: int| 0 <= i < s.len() ==> lisp_glyph(#[trigger] s[i]) == s[i],
    ensures
        spec_lisp_homoglyphs(spec_js_homoglyphs(s)) == s,
{
}

} // verus!
