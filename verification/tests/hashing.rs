use jasp::util::hash_cyrb53;

#[test]
fn hash_of_the_empty_string_is_pinned() {
    assert_eq!(hash_cyrb53(""), 1630777806211);
}

#[test]
fn hash_of_a_is_pinned() {
    assert_eq!(hash_cyrb53("a"), 3873920612609);
}

#[test]
fn hash_is_the_same_on_every_call() {
    let first = hash_cyrb53("foo-bar?");
    let second = hash_cyrb53(&String::from("foo-bar?"));
    assert_eq!(first, second);
    assert_eq!(first, 2610055659036);
}

#[test]
fn hash_goes_by_code_points() {
    assert_eq!(hash_cyrb53("\u{3a3}"), 1674387450033);
}

#[test]
fn hash_stays_within_53_bits() {
    for text in ["", "a", "vec", "m/k", "a much longer name than the others"] {
        let hash = hash_cyrb53(text);
        assert!(0 <= hash && hash < (1i64 << 53));
    }
}
