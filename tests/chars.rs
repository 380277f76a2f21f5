use test_lang::chars::{collect_chars, digit, ident_continue, ident_start, string_of, whitespace};

#[test]
fn collects_characters_not_bytes() {
    assert_eq!(collect_chars("aé→"), vec!['a', 'é', '→']);
    assert!(collect_chars("").is_empty());
}

#[test]
fn string_of_copies_a_range() {
    let v = vec!['x', 'y', 'é', 'z'];
    assert_eq!(string_of(&v, 1, 3), "yé");
    assert_eq!(string_of(&v, 0, 4), "xyéz");
    assert_eq!(string_of(&v, 2, 2), "");
}

#[test]
fn whitespace_matches_std() {
    for c in [' ', '\t', '\n', '\r', '\u{b}', '\u{c}', '\u{85}', '\u{a0}', '\u{2003}', '\u{3000}', 'a', '_', '\u{200b}', '0'] {
        assert_eq!(whitespace(c), c.is_whitespace(), "{:?}", c);
    }
}

#[test]
fn digits_of_each_radix() {
    assert!(digit('1', 2));
    assert!(!digit('2', 2));
    assert!(digit('9', 10));
    assert!(!digit('a', 10));
    assert!(digit('f', 16));
    assert!(digit('F', 16));
    assert!(!digit('g', 16));
    assert!(!digit('1', 8));
}

#[test]
fn identifier_characters() {
    assert!(ident_start('a') && ident_start('Z') && ident_start('_') && ident_start('$'));
    assert!(!ident_start('1') && !ident_start('é') && !ident_start('-'));
    assert!(ident_continue('7') && ident_continue('$'));
    assert!(!ident_continue(' ') && !ident_continue('.'));
}
