use pattern_engine::validate::{brackets, count_ch, count_from, right_format};

#[test]
fn brackets_accepts_equal_counts() {
    assert!(brackets("(a)".to_string()));
    assert!(brackets("((a)(b))".to_string()));
    assert!(brackets("a".to_string()));
    assert!(brackets("".to_string()));
}

#[test]
fn brackets_rejects_unequal_counts() {
    assert!(!brackets("(a".to_string()));
    assert!(!brackets("a)".to_string()));
    assert!(!brackets("(()".to_string()));
    assert!(!brackets("())".to_string()));
}

#[test]
fn brackets_does_not_look_at_the_order() {
    assert!(brackets(")(".to_string()));
    assert!(brackets("a)(b".to_string()));
}

#[test]
fn right_format_rejects_a_leading_repetition() {
    assert!(!right_format("*".to_string()));
    assert!(!right_format("*a".to_string()));
}

#[test]
fn right_format_rejects_a_repetition_behind_an_alternation_marker() {
    assert!(!right_format("a|*".to_string()));
    assert!(!right_format("a|*b".to_string()));
}

#[test]
fn right_format_rejects_a_repetition_behind_an_opening_marker() {
    assert!(!right_format("(*a)".to_string()));
    assert!(!right_format("a(*".to_string()));
}

#[test]
fn right_format_accepts_every_other_place() {
    assert!(right_format("a*".to_string()));
    assert!(right_format("a**".to_string()));
    assert!(right_format("(a)*".to_string()));
    assert!(right_format("ab|c*".to_string()));
    assert!(right_format(".*".to_string()));
    assert!(right_format("abc".to_string()));
}

#[test]
fn right_format_accepts_the_empty_text() {
    assert!(right_format("".to_string()));
}

#[test]
fn count_ch_counts_occurrences() {
    assert_eq!(count_ch("banana".to_string(), 'a'), 3);
    assert_eq!(count_ch("banana".to_string(), 'n'), 2);
    assert_eq!(count_ch("banana".to_string(), 'b'), 1);
    assert_eq!(count_ch("banana".to_string(), 'z'), 0);
    assert_eq!(count_ch("".to_string(), 'a'), 0);
}

#[test]
fn count_ch_counts_characters_not_bytes() {
    assert_eq!(count_ch("h\u{e9}\u{e9}".to_string(), '\u{e9}'), 2);
    assert_eq!(count_ch("h\u{e9}\u{e9}".to_string(), 'h'), 1);
}

#[test]
fn count_from_counts_the_tail_only() {
    let v: Vec<char> = vec!['a', 'b', 'a', 'c', 'a'];
    assert_eq!(count_from(&v, 0, 'a'), 3);
    assert_eq!(count_from(&v, 1, 'a'), 2);
    assert_eq!(count_from(&v, 3, 'a'), 1);
    assert_eq!(count_from(&v, 5, 'a'), 0);
    assert_eq!(count_from(&v, 2, 'b'), 0);
}
