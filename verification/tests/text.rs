use queuecast::text::{
    chars_of, push_chars, push_decimal, push_underscored, slice_chars, string_of,
};

#[test]
fn chars_of_gives_the_characters_in_order() {
    assert_eq!(chars_of("añb"), vec!['a', 'ñ', 'b']);
    assert_eq!(chars_of(""), Vec::<char>::new());
}

#[test]
fn string_of_takes_a_range() {
    let v = chars_of("episode");
    assert_eq!(string_of(&v, 0, 7), "episode");
    assert_eq!(string_of(&v, 2, 5), "iso");
    assert_eq!(string_of(&v, 3, 3), "");
}

#[test]
fn slice_chars_copies_a_range() {
    let v = chars_of("episode");
    assert_eq!(slice_chars(&v, 1, 4), vec!['p', 'i', 's']);
    assert_eq!(slice_chars(&v, 7, 7), Vec::<char>::new());
}

#[test]
fn push_chars_appends() {
    let v = chars_of("xyz");
    let mut s = String::from("ab");
    push_chars(&mut s, &v, 1, 3);
    assert_eq!(s, "abyz");
}

#[test]
fn push_decimal_writes_all_digits() {
    for (n, text) in [(0usize, "0"), (7, "7"), (10, "10"), (99, "99"), (100, "100"), (1234567890, "1234567890")] {
        let mut s = String::from("n=");
        push_decimal(&mut s, n);
        assert_eq!(s, format!("n={}", text));
    }
}

#[test]
fn push_decimal_writes_the_largest_number() {
    let mut s = String::new();
    push_decimal(&mut s, usize::MAX);
    assert_eq!(s, format!("{}", usize::MAX));
}

#[test]
fn push_underscored_replaces_every_space() {
    let mut s = String::new();
    push_underscored(&mut s, &chars_of(" a b  c "));
    assert_eq!(s, "_a_b__c_");
}

#[test]
fn push_underscored_leaves_other_characters() {
    let mut s = String::from(">");
    push_underscored(&mut s, &chars_of("tab\there_x"));
    assert_eq!(s, ">tab\there_x");
}
