use mdhtml::text::{chars_of, find_char, has_prefix, is_whitespace, string_of};

#[test]
fn is_whitespace_agrees_with_the_standard_library() {
    let mut c = '\0';
    loop {
        assert_eq!(is_whitespace(c), c.is_whitespace(), "{:?}", c);
        if c == char::MAX {
            break;
        }
        c = match char::from_u32(c as u32 + 1) {
            Some(next) => next,
            None => '\u{e000}',
        };
    }
}

#[test]
fn chars_of_gives_each_character() {
    assert_eq!(chars_of(""), Vec::<char>::new());
    assert_eq!(chars_of("aé漢🙂"), vec!['a', 'é', '漢', '🙂']);
}

#[test]
fn string_of_takes_a_range_of_characters() {
    let chars = chars_of("aé漢🙂z");
    assert_eq!(string_of(&chars, 0, 5), "aé漢🙂z");
    assert_eq!(string_of(&chars, 1, 4), "é漢🙂");
    assert_eq!(string_of(&chars, 2, 2), "");
}

#[test]
fn find_char_gives_the_first_place_or_the_end() {
    let chars = chars_of("a,b,c");
    assert_eq!(find_char(&chars, 0, ','), 1);
    assert_eq!(find_char(&chars, 1, ','), 1);
    assert_eq!(find_char(&chars, 2, ','), 3);
    assert_eq!(find_char(&chars, 4, ','), 5);
    assert_eq!(find_char(&chars, 5, ','), 5);
}

#[test]
fn has_prefix_looks_at_the_range() {
    let chars = chars_of("abcabc");
    assert!(has_prefix(&chars, 0, 6, &chars_of("abc")));
    assert!(has_prefix(&chars, 3, 6, &chars_of("abc")));
    assert!(!has_prefix(&chars, 1, 6, &chars_of("abc")));
    assert!(!has_prefix(&chars, 0, 2, &chars_of("abc")));
    assert!(!has_prefix(&chars, 4, 6, &chars_of("abc")));
    assert!(has_prefix(&chars, 2, 2, &chars_of("")));
    assert!(has_prefix(&chars, 0, 6, &chars_of("abcabc")));
    assert!(!has_prefix(&chars, 0, 6, &chars_of("abcabd")));
}
