use wtt::wrap::built_multilined_note;

#[test]
fn short_text_is_a_single_line() {
    assert_eq!(built_multilined_note("short note", 40), "short note");
}

#[test]
fn empty_text_stays_empty() {
    assert_eq!(built_multilined_note("", 40), "");
}

#[test]
fn hundred_character_word_is_hard_split_within_width() {
    let text = "a".repeat(100);
    let wrapped = built_multilined_note(&text, 40);
    let lines: Vec<&str> = wrapped.split('\n').collect();
    // Hard splits take width - 1 characters each.
    assert_eq!(lines, vec![&"a".repeat(39)[..], &"a".repeat(39)[..], &"a".repeat(22)[..]]);
    for line in lines {
        assert!(line.len() <= 40);
    }
}

#[test]
fn breaks_fall_on_spaces_when_one_is_in_range() {
    let wrapped = built_multilined_note("hello world foo", 11);
    assert_eq!(wrapped, "hello\nworld foo");
}

#[test]
fn words_are_never_split_while_spaces_are_available() {
    let text = "alpha beta gamma delta epsilon zeta eta theta";
    let wrapped = built_multilined_note(text, 12);
    let words: Vec<&str> = text.split(' ').collect();
    for line in wrapped.split('\n') {
        assert!(line.len() <= 12);
        for piece in line.split(' ') {
            assert!(words.contains(&piece), "word split apart: {piece}");
        }
    }
}

#[test]
fn spaces_at_a_break_are_swallowed() {
    // The cut falls on the last space in range, so the first line keeps the
    // earlier spaces, and the spaces at the cut itself are swallowed.
    let wrapped = built_multilined_note("one   two", 6);
    assert_eq!(wrapped, "one  \ntwo");
}

#[test]
fn break_uses_last_space_in_range() {
    let wrapped = built_multilined_note("ab cd ef gh", 9);
    // Positions below 9 hold spaces at 2, 5 and 8; the last one wins.
    assert_eq!(wrapped, "ab cd ef\ngh");
}
