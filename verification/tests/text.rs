use todors::text::{
    chars_of, find_in, index_in, is_whitespace, matches_at, string_of, trim_bounds, trimmed,
};

#[test]
fn white_space_is_the_unicode_set() {
    let spaces = [
        '\u{9}', '\u{a}', '\u{b}', '\u{c}', '\u{d}', ' ', '\u{85}', '\u{a0}', '\u{1680}',
        '\u{2000}', '\u{2005}', '\u{200a}', '\u{2028}', '\u{2029}', '\u{202f}', '\u{205f}',
        '\u{3000}',
    ];
    for c in spaces {
        assert!(is_whitespace(c));
    }
    let others = [
        '\u{8}', '\u{e}', '\u{1f}', '!', 'a', '0', '\u{84}', '\u{86}', '\u{9f}', '\u{a1}',
        '\u{167f}', '\u{1681}', '\u{1fff}', '\u{200b}', '\u{2027}', '\u{202a}', '\u{202e}',
        '\u{2030}', '\u{205e}', '\u{2060}', '\u{2fff}', '\u{3001}', '\u{feff}',
    ];
    for c in others {
        assert!(!is_whitespace(c));
    }
}

#[test]
fn white_space_agrees_with_the_standard_library() {
    let mut n: u32 = 0;
    while n <= 0x11000 {
        if let Some(c) = char::from_u32(n) {
            assert_eq!(is_whitespace(c), c.is_whitespace());
        }
        n += 1;
    }
}

#[test]
fn characters_and_back() {
    let chars = chars_of("añ☕b");
    assert_eq!(chars, vec!['a', 'ñ', '☕', 'b']);
    assert_eq!(string_of(&chars), "añ☕b");
    assert_eq!(string_of(&chars[1..3]), "ñ☕");
    assert_eq!(chars_of(""), vec![]);
    assert_eq!(string_of(&[]), "");
}

#[test]
fn trimming_bounds() {
    assert_eq!(trim_bounds(&chars_of("  ab c \t")), (2, 6));
    assert_eq!(trim_bounds(&chars_of("abc")), (0, 3));
    assert_eq!(string_of(trimmed(&chars_of("\r\n x\u{a0}"))), "x");
    assert_eq!(string_of(trimmed(&chars_of(" \t \n"))), "");
    assert_eq!(string_of(trimmed(&chars_of(""))), "");
    let (a, b) = trim_bounds(&chars_of("   "));
    assert_eq!(a, b);
}

#[test]
fn trimming_agrees_with_the_standard_library() {
    let samples = ["", " ", "a", " a", "a ", " a b ", "\u{3000}x y\u{2003}\n", "\t\t", "é "];
    for s in samples {
        assert_eq!(string_of(trimmed(&chars_of(s))), s.trim());
    }
}

#[test]
fn searching() {
    let s = chars_of("a) b) c");
    let mark = chars_of(") ");
    assert_eq!(find_in(&s, &mark, 0), Some(1));
    assert_eq!(find_in(&s, &mark, 2), Some(4));
    assert_eq!(find_in(&s, &mark, 5), None);
    assert_eq!(find_in(&s, &chars_of("c"), 0), Some(6));
    assert_eq!(find_in(&s, &chars_of("a) b) c!"), 0), None);
    assert_eq!(find_in(&s, &[], 3), Some(3));
    assert_eq!(find_in(&s, &[], 7), Some(7));
    assert_eq!(find_in(&s, &[], 8), None);
    assert_eq!(index_in(&s, ')', 0), Some(1));
    assert_eq!(index_in(&s, ')', 2), Some(4));
    assert_eq!(index_in(&s, ')', 5), None);
    assert_eq!(index_in(&s, 'x', 0), None);
    assert_eq!(index_in(&s, 'a', 9), None);
}

#[test]
fn matching_at_an_index() {
    let s = chars_of("- (x)");
    assert!(matches_at(&s, &chars_of("- ("), 0));
    assert!(!matches_at(&s, &chars_of("- ("), 1));
    assert!(matches_at(&s, &chars_of("x)"), 3));
    assert!(!matches_at(&s, &chars_of("x) "), 3));
    assert!(matches_at(&s, &[], 5));
    assert!(!matches_at(&s, &[], 6));
    assert!(!matches_at(&s, &chars_of("- (x) and more"), 0));
}
