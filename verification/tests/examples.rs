use pattern_engine::engine::answer;

fn run(pattern: &str, target: &str) -> String {
    answer(pattern.to_string(), target.to_string())
}

#[test]
fn plain_pattern_matches_itself_only() {
    assert_eq!(run("ab", "ab"), "YES");
    assert_eq!(run("ab", "abc"), "NO");
}

#[test]
fn repetition_of_one_character() {
    assert_eq!(run("a*", ""), "YES");
    assert_eq!(run("a*", "aaaa"), "YES");
    assert_eq!(run("a*", "aab"), "NO");
}

#[test]
fn alternation_of_two_characters() {
    assert_eq!(run("a|b", "a"), "YES");
    assert_eq!(run("a|b", "b"), "YES");
    assert_eq!(run("a|b", "c"), "NO");
}

#[test]
fn repeated_group_then_character() {
    assert_eq!(run("(a|b)*c", "aabbc"), "YES");
    assert_eq!(run("(a|b)*c", "aabb"), "NO");
}

#[test]
fn leading_repetition_is_a_syntax_error() {
    assert_eq!(run("*a", "a"), "SYNTAX ERROR");
    assert_eq!(run("*a", ""), "SYNTAX ERROR");
    assert_eq!(run("*a", "*a"), "SYNTAX ERROR");
}

#[test]
fn unbalanced_group_is_a_syntax_error() {
    assert_eq!(run("(a", "a"), "SYNTAX ERROR");
    assert_eq!(run("(a", ""), "SYNTAX ERROR");
    assert_eq!(run("(a", "(a"), "SYNTAX ERROR");
}
