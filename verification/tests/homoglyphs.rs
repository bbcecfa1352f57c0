use jasp::homoglyphs::{js_homoglyphs, js_identifier, lisp_homoglyphs, lisp_identifier};

#[test]
fn js_identifier_is_in_camel_case() {
    assert_eq!(js_identifier("foo-bar".to_string()), "fooBar");
    assert_eq!(js_identifier("foo_bar".to_string()), "fooBar");
    assert_eq!(js_identifier("is-empty?".to_string()), "isEmpty");
}

#[test]
fn lisp_identifier_is_in_kebab_case() {
    assert_eq!(lisp_identifier("fooBar".to_string()), "foo-bar");
    assert_eq!(lisp_identifier("a\u{b7}b".to_string()), "a-b");
}

#[test]
fn lisp_identifier_takes_the_stand_ins_back() {
    assert_eq!(lisp_identifier("foo\u{1c3}Bar".to_string()), "foo-!-bar");
    assert_eq!(lisp_identifier("is\u{294}".to_string()), "is-?");
    assert_eq!(lisp_identifier("x\u{1c3}".to_string()), "x-!");
}

#[test]
fn stand_ins_replace_what_javascript_does_not_take() {
    assert_eq!(js_homoglyphs("a!b?c."), "a\u{1c3}b\u{294}c\u{b7}");
    assert_eq!(js_homoglyphs("plain"), "plain");
    assert_eq!(js_homoglyphs(""), "");
}

#[test]
fn stand_ins_are_taken_back() {
    assert_eq!(lisp_homoglyphs("a\u{1c3}b\u{294}c\u{b7}"), "a!b?c.");
    assert_eq!(lisp_homoglyphs("set!"), "set!");
}

#[test]
fn taking_back_undoes_putting_in() {
    for name in ["empty?", "set!", "a.b.c", "plain", "?!."] {
        assert_eq!(lisp_homoglyphs(&js_homoglyphs(name)), name);
    }
}
