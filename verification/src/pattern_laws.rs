//! What holds of whole patterns, validated, compiled and matched, for all
//! targets.

use vstd::prelude::*;
use crate::engine::{compiled, verdict_of};
use crate::matcher::{
    ends_in_repetition, evaluate, evaluate_from, stop_for, FIRST_STOP, NO_STOP, WILDCARD,
};
use crate::parser::{
    atom, concatenation, expression, repeated, terms, ParseError, ParsedTerms,
};
use crate::tree::{label_of, PatternTree, Verdict};
use crate::validate::{balanced, occurrences, well_placed};

verus! {

/// A pattern that fails bracket balance or repetition placement gets the
/// syntax-error verdict for every target.
pub proof fn lemma_invalid_pattern_is_syntax_error(pattern: Seq<char>, target: Seq<char>)
    requires
        !balanced(pattern) || !well_placed(pattern),
    ensures
        verdict_of(pattern, target) == Verdict::SyntaxError,
        label_of(verdict_of(pattern, target)) == "SYNTAX ERROR"@,
{
}

/// The empty pattern, which cannot be parsed, gets the syntax-error verdict
/// for every target, as an invalid pattern does.
pub proof fn lemma_empty_pattern_is_syntax_error(pattern: Seq<char>, target: Seq<char>)
    requires
        pattern.len() == 0,
    ensures
        compiled(pattern) is Err,
        verdict_of(pattern, target) == Verdict::SyntaxError,
        label_of(verdict_of(pattern, target)) == "SYNTAX ERROR"@,
{
}

/// The character is one of the pattern notation's operators: a group marker,
/// the alternation marker or the repetition marker.
pub open spec fn is_operator(c: char) -> bool {
    c == '(' || c == ')' || c == '|' || c == '*'
}

/// The text holds no operator.
pub open spec fn operator_free(s: Seq<char>) -> bool {
    forall|i: int| 0 <= i < s.len() ==> !is_operator(#[trigger] s[i])
}

/// The text holds no operator and no wildcard.
pub open spec fn plain(s: Seq<char>) -> bool {
    forall|i: int| 0 <= i < s.len() ==> !is_operator(#[trigger] s[i]) && s[i] != WILDCARD
}

/// The literal of a character.
pub open spec fn literal(c: char) -> PatternTree {
    PatternTree::Literal(c)
}

/// One literal for each character of the text.
pub open spec fn literals(s: Seq<char>) -> Seq<PatternTree> {
    Seq::new(s.len(), |i: int| literal(s[i]))
}

/// The target is as long as the text, and has the text's character wherever
/// that is no wildcard.
pub open spec fn spelled_by(s: Seq<char>, target: Seq<char>) -> bool {
    &&& target.len() == s.len()
    &&& forall|i: int| 0 <= i < s.len() ==> #[trigger] s[i] == WILDCARD || target[i] == s[i]
}

/// The target begins with characters that the text's literals take one by one.
pub open spec fn begins_with(target: Seq<char>, s: Seq<char>) -> bool
    decreases s.len(),
{
    if s.len() == 0 {
        true
    } else {
        &&& target.len() > 0
        &&& s[0] == WILDCARD || target[0] == s[0]
        &&& begins_with(target.drop_first(), s.drop_first())
    }
}

/// `begins_with`, character by character.
pub proof fn lemma_begins_with_pointwise(target: Seq<char>, s: Seq<char>)
    ensures
        begins_with(target, s) <==> (s.len() <= target.len() && forall|i: int|
            0 <= i < s.len() ==> #[trigger] s[i] == WILDCARD || target[i] == s[i]),
    decreases s.len(),
{
    if s.len() > 0 {
        let s1 = s.drop_first();
        let t1 = target.drop_first();
        lemma_begins_with_pointwise(t1, s1);
        if target.len() > 0 {
            if begins_with(target, s) {
                assert forall|i: int| 0 <= i < s.len() implies #[trigger] s[i] == WILDCARD
                    || target[i] == s[i] by {
                    if i > 0 {
                        assert(s1[i - 1] == s[i]);
                        assert(t1[i - 1] == target[i]);
                    }
                }
            }
            if s.len() <= target.len() && (forall|i: int|
                0 <= i < s.len() ==> #[trigger] s[i] == WILDCARD || target[i] == s[i]) {
                assert forall|i: int| 0 <= i < s1.len() implies #[trigger] s1[i] == WILDCARD
                    || t1[i] == s1[i] by {
                    assert(s1[i] == s[i + 1]);
                    assert(t1[i] == target[i + 1]);
                }
                assert(s[0] == WILDCARD || target[0] == s[0]);
            }
        }
    }
}

/// A character that the text does not hold occurs in it zero times.
pub proof fn lemma_absent_occurs_never(s: Seq<char>, c: char)
    requires
        forall|i: int| 0 <= i < s.len() ==> #[trigger] s[i] != c,
    ensures
        occurrences(s, c) == 0,
    decreases s.len(),
{
    if s.len() > 0 {
        let rest = s.drop_first();
        assert forall|i: int| 0 <= i < rest.len() implies #[trigger] rest[i] != c by {
            assert(rest[i] == s[i + 1]);
        }
        lemma_absent_occurs_never(rest, c);
    }
}

/// In a text without operators the run of terms at `pos` is one literal for
/// each character that is left.
pub proof fn lemma_terms_of_operator_free(s: Seq<char>, pos: nat)
    requires
        operator_free(s),
        pos <= s.len(),
    ensures
        terms(s, pos) == (ParsedTerms {
            trees: Ok(literals(s.skip(pos as int))),
            consumed: (s.len() - pos) as nat,
        }),
    decreases s.len() - pos,
{
    if pos < s.len() {
        lemma_terms_of_operator_free(s, pos + 1);
        assert(!is_operator(s[pos as int]));
        if pos + 1 < s.len() {
            assert(!is_operator(s[pos as int + 1]));
        }
        assert(atom(s, pos).tree == Ok::<PatternTree, ParseError>(PatternTree::Literal(s[pos as int])));
        assert(repeated(s, pos) == atom(s, pos));
        assert(seq![literal(s[pos as int])] + literals(s.skip(pos as int + 1)) =~= literals(
            s.skip(pos as int),
        ));
    } else {
        assert(literals(s.skip(pos as int)) =~= Seq::<PatternTree>::empty());
    }
}

/// A text without operators, if it is not empty, compiles into the
/// concatenation of its characters' literals.
pub proof fn lemma_compiled_operator_free(s: Seq<char>)
    requires
        operator_free(s),
        s.len() > 0,
    ensures
        compiled(s) == Ok::<PatternTree, ParseError>(PatternTree::Concatenation(literals(s))),
{
    assert forall|i: int| 0 <= i < s.len() implies #[trigger] s[i] != '(' by {
        assert(!is_operator(s[i]));
    }
    assert forall|i: int| 0 <= i < s.len() implies #[trigger] s[i] != ')' by {
        assert(!is_operator(s[i]));
    }
    lemma_absent_occurs_never(s, '(');
    lemma_absent_occurs_never(s, ')');
    assert(balanced(s));
    assert(well_placed(s)) by {
        assert(!is_operator(s[0]));
        assert forall|i: int| 1 <= i < s.len() && #[trigger] s[i] == '*' implies s[i - 1] != '|'
            && s[i - 1] != '(' by {
            assert(!is_operator(s[i]));
        }
    }
    lemma_terms_of_operator_free(s, 0);
    assert(s.skip(0) =~= s);
    assert(concatenation(s, 0).tree == Ok::<PatternTree, ParseError>(
        PatternTree::Concatenation(literals(s)),
    ));
    assert(concatenation(s, 0).consumed == s.len());
    assert(expression(s, 0) == concatenation(s, 0));
}

/// The walk of a concatenation of literals from its element `i` on: it takes
/// the characters that the literals spell, or gives the target back.
pub proof fn lemma_literals_walk(
    whole: Seq<char>,
    current: Seq<char>,
    s: Seq<char>,
    i: nat,
    source: Seq<char>,
    stop: char,
    fallback: char,
)
    requires
        i <= s.len(),
    ensures
        evaluate_from(
            whole,
            current,
            PatternTree::Concatenation(literals(s)),
            i,
            source,
            stop,
            fallback,
        ) == (if begins_with(current, s.skip(i as int)) {
            (Verdict::Match, current.skip(s.len() - i))
        } else {
            (Verdict::NoMatch, whole)
        }),
    decreases s.len() - i,
{
    let node = PatternTree::Concatenation(literals(s));
    let left = s.skip(i as int);
    if i < s.len() {
        let element = literals(s)[i as int];
        assert(element == PatternTree::Literal(s[i as int]));
        assert(!ends_in_repetition(element));
        assert(stop_for(literals(s), i as int, stop, fallback) == stop);
        assert(left[0] == s[i as int]);
        assert(left.drop_first() =~= s.skip(i as int + 1));
        let step = evaluate(current, element, source, false, stop);
        if current.len() > 0 && (current[0] == s[i as int] || s[i as int] == WILDCARD) {
            let rest = current.drop_first();
            assert(step == (Verdict::Match, rest));
            lemma_literals_walk(whole, rest, s, i + 1, source, stop, fallback);
            lemma_begins_with_pointwise(rest, s.skip(i as int + 1));
            if begins_with(rest, s.skip(i as int + 1)) {
                assert(rest.skip(s.len() - i - 1) =~= current.skip(s.len() - i));
            }
            assert(evaluate_from(whole, current, node, i, source, stop, fallback)
                == evaluate_from(whole, rest, node, i + 1, source, stop, fallback));
            assert(begins_with(current, left) == begins_with(rest, s.skip(i as int + 1)));
        } else {
            assert(step == (Verdict::NoMatch, current));
            assert(!begins_with(current, left));
            assert(evaluate_from(whole, current, node, i, source, stop, fallback) == (
                Verdict::NoMatch,
                whole,
            ));
        }
    } else {
        assert(current.skip(0) =~= current);
        assert(begins_with(current, left));
    }
}

/// A pattern without operators matches the targets of its own length that
/// have its character wherever it has no wildcard, and no others. The empty
/// pattern is left out: it does not compile.
pub proof fn lemma_operator_free_pattern(pattern: Seq<char>, target: Seq<char>)
    requires
        operator_free(pattern),
        pattern.len() > 0,
    ensures
        verdict_of(pattern, target) == (if spelled_by(pattern, target) {
            Verdict::Match
        } else {
            Verdict::NoMatch
        }),
{
    lemma_compiled_operator_free(pattern);
    lemma_literals_walk(target, target, pattern, 0, pattern, FIRST_STOP, NO_STOP);
    lemma_begins_with_pointwise(target, pattern);
    assert(pattern.skip(0) =~= pattern);
}

/// A pattern without metacharacters matches the target that equals it, and
/// no other. The empty pattern is left out: it does not compile.
pub proof fn lemma_plain_pattern_matches_itself_only(pattern: Seq<char>, target: Seq<char>)
    requires
        plain(pattern),
        pattern.len() > 0,
    ensures
        verdict_of(pattern, target) == Verdict::Match <==> target == pattern,
        verdict_of(pattern, target) == Verdict::Match || verdict_of(pattern, target)
            == Verdict::NoMatch,
{
    assert(operator_free(pattern));
    lemma_operator_free_pattern(pattern, target);
    if spelled_by(pattern, target) {
        assert(target =~= pattern);
    }
}

/// Matching a pattern without metacharacters against its own text gives `YES`.
pub proof fn lemma_plain_pattern_round_trip(pattern: Seq<char>)
    requires
        plain(pattern),
        pattern.len() > 0,
    ensures
        verdict_of(pattern, pattern) == Verdict::Match,
        label_of(verdict_of(pattern, pattern)) == "YES"@,
{
    lemma_plain_pattern_matches_itself_only(pattern, pattern);
}

/// A pattern made of wildcards matches the targets that have one character
/// for each wildcard, and no others.
pub proof fn lemma_wildcards_take_one_each(pattern: Seq<char>, target: Seq<char>)
    requires
        pattern.len() > 0,
        forall|i: int| 0 <= i < pattern.len() ==> #[trigger] pattern[i] == WILDCARD,
    ensures
        verdict_of(pattern, target) == Verdict::Match <==> target.len() == pattern.len(),
{
    assert(operator_free(pattern));
    lemma_operator_free_pattern(pattern, target);
}

} // verus!
