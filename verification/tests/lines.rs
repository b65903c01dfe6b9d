use pattern_engine::engine::{answer, answer_lines, compile, judge, prepare};
use pattern_engine::parser::ParseError;
use pattern_engine::tree::{Regex, Verdict};

fn run(pattern: &str, target: &str) -> String {
    answer(pattern.to_string(), target.to_string())
}

fn ch(c: char) -> Box<Regex> {
    Box::new(Regex::Character(c))
}

#[test]
fn labels_are_the_three_output_lines() {
    assert_eq!(Verdict::Match.label(), "YES");
    assert_eq!(Verdict::NoMatch.label(), "NO");
    assert_eq!(Verdict::SyntaxError.label(), "SYNTAX ERROR");
}

#[test]
fn compile_gives_the_tree_of_a_valid_pattern() {
    assert_eq!(
        compile("ab".to_string()),
        Ok(Regex::Pattern(vec![ch('a'), ch('b')]))
    );
}

#[test]
fn compile_marks_a_pattern_that_fails_a_check() {
    assert_eq!(compile("*a".to_string()), Ok(Regex::Syn('e')));
    assert_eq!(compile("(a".to_string()), Ok(Regex::Syn('e')));
    assert_eq!(compile("a|*".to_string()), Ok(Regex::Syn('e')));
    assert_eq!(compile("(*)".to_string()), Ok(Regex::Syn('e')));
    assert_eq!(compile("a)".to_string()), Ok(Regex::Syn('e')));
}

#[test]
fn compile_fails_on_the_empty_pattern() {
    assert_eq!(compile("".to_string()), Err(ParseError::MalformedPattern));
}

#[test]
fn prepare_keeps_the_marker_for_a_pattern_that_cannot_be_parsed() {
    assert_eq!(prepare("".to_string()), Regex::Syn('e'));
    assert_eq!(prepare("*a".to_string()), Regex::Syn('e'));
    assert_eq!(prepare("a".to_string()), Regex::Pattern(vec![ch('a')]));
}

#[test]
fn judge_asks_for_the_whole_target() {
    let ab = Regex::Pattern(vec![ch('a'), ch('b')]);
    assert_eq!(judge("ab".to_string(), &ab, "ab".to_string()), Verdict::Match);
    assert_eq!(judge("abc".to_string(), &ab, "ab".to_string()), Verdict::NoMatch);
    assert_eq!(judge("a".to_string(), &ab, "ab".to_string()), Verdict::NoMatch);
    assert_eq!(judge("".to_string(), &ab, "ab".to_string()), Verdict::NoMatch);
}

#[test]
fn judge_reports_the_invalid_marker() {
    let syn = Regex::Syn('e');
    assert_eq!(judge("x".to_string(), &syn, "*".to_string()), Verdict::SyntaxError);
    assert_eq!(judge("".to_string(), &syn, "*".to_string()), Verdict::SyntaxError);
}

#[test]
fn the_empty_pattern_is_a_syntax_error() {
    assert_eq!(run("", ""), "SYNTAX ERROR");
    assert_eq!(run("", "a"), "SYNTAX ERROR");
}

#[test]
fn an_invalid_pattern_is_a_syntax_error_for_every_target() {
    for pattern in ["*a", "(a", "a)", "a|*b", "(*a)", "((a)"] {
        for target in ["", "a", "*a", "(a", "zzz"] {
            assert_eq!(run(pattern, target), "SYNTAX ERROR");
        }
    }
}

#[test]
fn a_plain_pattern_matches_its_own_text_only() {
    assert_eq!(run("hello", "hello"), "YES");
    assert_eq!(run("hello", "hellO"), "NO");
    assert_eq!(run("hello", "hell"), "NO");
    assert_eq!(run("hello", "helloo"), "NO");
    assert_eq!(run("hello", ""), "NO");
    assert_eq!(run("x", "x"), "YES");
}

#[test]
fn a_plain_pattern_is_read_by_character() {
    assert_eq!(run("caf\u{e9}", "caf\u{e9}"), "YES");
    assert_eq!(run("caf\u{e9}", "cafe"), "NO");
}

#[test]
fn each_wildcard_stands_for_one_character() {
    assert_eq!(run(".", "a"), "YES");
    assert_eq!(run(".", ""), "NO");
    assert_eq!(run(".", "ab"), "NO");
    assert_eq!(run("...", "abc"), "YES");
    assert_eq!(run("...", "ab"), "NO");
    assert_eq!(run("...", "abcd"), "NO");
    assert_eq!(run("a.c", "abc"), "YES");
    assert_eq!(run("a.c", "a.c"), "YES");
    assert_eq!(run("a.c", "ac"), "NO");
    assert_eq!(run("a.c", "abd"), "NO");
}

#[test]
fn a_repeated_group_matches_its_rounds() {
    assert_eq!(run("(ab)*", ""), "YES");
    assert_eq!(run("(ab)*", "ab"), "YES");
    assert_eq!(run("(ab)*", "ababab"), "YES");
    assert_eq!(run("(ab)*", "aba"), "NO");
}

#[test]
fn a_repetition_in_a_repetition_comes_to_an_end() {
    assert_eq!(run("(a*)*", "b"), "NO");
    assert_eq!(run("(a*)*", "aaa"), "YES");
    assert_eq!(run("(a*)*b", "aab"), "YES");
}

#[test]
fn the_longer_branch_wins() {
    assert_eq!(run("(a|ab)c", "abc"), "YES");
    assert_eq!(run("(ab|a)c", "abc"), "YES");
    assert_eq!(run("(a|ab)c", "ac"), "YES");
}

#[test]
fn the_walk_does_not_go_back() {
    assert_eq!(run("a*a", "aaa"), "NO");
    assert_eq!(run("(a|ab)b", "ab"), "NO");
}

#[test]
fn a_wildcard_repetition_takes_everything_where_nothing_follows() {
    assert_eq!(run(".*", ""), "YES");
    assert_eq!(run(".*", "anything"), "YES");
    assert_eq!(run("a.*", "a"), "YES");
    assert_eq!(run("a.*", "abcn"), "YES");
    assert_eq!(run("a.*", "bcd"), "NO");
}

#[test]
fn a_wildcard_repetition_leaves_the_literal_that_follows() {
    assert_eq!(run(".*b", "aaab"), "YES");
    assert_eq!(run(".*b", "abab"), "YES");
    assert_eq!(run(".*b", "aba"), "NO");
    assert_eq!(run("a.*c", "abbbc"), "YES");
    assert_eq!(run("a.*c", "ac"), "YES");
}

#[test]
fn an_alternation_with_an_empty_side_matches_the_empty_target() {
    assert_eq!(run("a|", "a"), "YES");
    assert_eq!(run("a|", ""), "YES");
    assert_eq!(run("a|", "b"), "NO");
}

#[test]
fn markers_in_the_wrong_order_pass_the_checks() {
    assert_eq!(run(")(", ""), "YES");
    assert_eq!(run(")(", "a"), "NO");
    assert_eq!(run("a)(b", "a"), "YES");
}

#[test]
fn lines_are_paired_in_order() {
    let patterns = vec!["ab".to_string(), "a*".to_string(), "(a".to_string()];
    let targets = vec!["ab".to_string(), "aab".to_string(), "a".to_string()];
    assert_eq!(
        answer_lines(&patterns, &targets),
        vec!["YES".to_string(), "NO".to_string(), "SYNTAX ERROR".to_string()]
    );
}

#[test]
fn pairing_ends_with_the_shorter_list() {
    let patterns = vec!["ab".to_string(), "a*".to_string(), "(a".to_string()];
    let targets = vec!["ab".to_string(), "aab".to_string()];
    assert_eq!(
        answer_lines(&patterns, &targets),
        vec!["YES".to_string(), "NO".to_string()]
    );
    let one = vec!["a".to_string()];
    let two = vec!["a".to_string(), "b".to_string()];
    assert_eq!(answer_lines(&one, &two), vec!["YES".to_string()]);
    assert_eq!(answer_lines(&Vec::new(), &two), Vec::<String>::new());
    assert_eq!(answer_lines(&one, &Vec::new()), Vec::<String>::new());
}

#[test]
fn an_unparsable_line_keeps_its_place() {
    let patterns = vec!["".to_string(), "a".to_string()];
    let targets = vec!["".to_string(), "a".to_string()];
    assert_eq!(
        answer_lines(&patterns, &targets),
        vec!["SYNTAX ERROR".to_string(), "YES".to_string()]
    );
}
