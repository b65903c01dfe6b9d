//! What holds of the matcher's walk for all trees and targets.

use vstd::prelude::*;
use crate::matcher::{
    ends_in_repetition, evaluate, evaluate_from, repeat, skip_wild, stop_for, FIRST_STOP, NO_STOP,
    WILDCARD,
};
use crate::tree::{PatternTree, Verdict};
use crate::validate::occurrences;

verus! {

/// The wildcard literal matches any single character, and takes exactly that
/// one character; only an empty target does it not match.
pub proof fn lemma_wildcard_takes_one(
    target: Seq<char>,
    source: Seq<char>,
    active: bool,
    stop: char,
)
    ensures
        target.len() > 0 ==> evaluate(target, PatternTree::Literal(WILDCARD), source, active, stop)
            == (Verdict::Match, target.drop_first()),
        target.len() == 0 ==> evaluate(target, PatternTree::Literal(WILDCARD), source, active, stop)
            == (Verdict::NoMatch, target),
{
}

/// Where both branches of an alternation match, the one that leaves less of
/// the target wins, and the left one where they leave the same.
pub proof fn lemma_alternation_prefers_longer(
    target: Seq<char>,
    left: PatternTree,
    right: PatternTree,
    source: Seq<char>,
    active: bool,
    stop: char,
)
    requires
        evaluate(target, left, source, false, NO_STOP).0 == Verdict::Match,
        evaluate(target, right, source, false, NO_STOP).0 == Verdict::Match,
    ensures
        ({
            let l = evaluate(target, left, source, false, NO_STOP);
            let r = evaluate(target, right, source, false, NO_STOP);
            let both = evaluate(
                target,
                PatternTree::Alternation(Box::new(left), Box::new(right)),
                source,
                active,
                stop,
            );
            &&& r.1.len() < l.1.len() ==> both == r
            &&& r.1.len() >= l.1.len() ==> both == l
        }),
{
}

/// What is left of `target` after `n` matches of `inner` in a row, each of
/// which takes something; `None` where there are no `n` such matches.
pub open spec fn after_rounds(
    target: Seq<char>,
    inner: PatternTree,
    source: Seq<char>,
    n: nat,
) -> Option<Seq<char>>
    decreases n,
{
    if n == 0 {
        Some(target)
    } else {
        let step = evaluate(target, inner, source, false, NO_STOP);
        if step.0 == Verdict::Match && step.1.len() < target.len() {
            after_rounds(step.1, inner, source, (n - 1) as nat)
        } else {
            None
        }
    }
}

/// A repetition matches the empty target, whatever it repeats.
pub proof fn lemma_repetition_matches_empty(
    inner: PatternTree,
    source: Seq<char>,
    active: bool,
    stop: char,
)
    ensures
        evaluate(Seq::empty(), PatternTree::Repetition(Box::new(inner)), source, active, stop) == (
            Verdict::Match,
            Seq::<char>::empty(),
        ),
{
}

/// A repetition matches, to its end, a target made of matches of its inner
/// pattern in a row. The wildcard literal is left out: its repetition goes by
/// the stop character, not by matches of the literal.
pub proof fn lemma_repetition_matches_rounds(
    target: Seq<char>,
    inner: PatternTree,
    source: Seq<char>,
    n: nat,
    active: bool,
    stop: char,
)
    requires
        inner != PatternTree::Literal(WILDCARD),
        after_rounds(target, inner, source, n) == Some(Seq::<char>::empty()),
    ensures
        evaluate(target, PatternTree::Repetition(Box::new(inner)), source, active, stop) == (
            Verdict::Match,
            Seq::<char>::empty(),
        ),
    decreases n,
{
    let node = PatternTree::Repetition(Box::new(inner));
    if n > 0 {
        let step = evaluate(target, inner, source, false, NO_STOP);
        lemma_repetition_matches_rounds(step.1, inner, source, (n - 1) as nat, active, stop);
        assert(repeat(target, node, source) == repeat(step.1, node, source));
    }
}

/// The repetition of the wildcard literal, where the hint is active, takes
/// the whole target if the pattern's text does not hold the stop character.
pub proof fn lemma_wildcard_repetition_takes_all(
    target: Seq<char>,
    source: Seq<char>,
    stop: char,
)
    requires
        occurrences(source, stop) == 0,
    ensures
        evaluate(
            target,
            PatternTree::Repetition(Box::new(PatternTree::Literal(WILDCARD))),
            source,
            true,
            stop,
        ) == (Verdict::Match, Seq::<char>::empty()),
    decreases target.len(),
{
    if target.len() > 0 {
        lemma_wildcard_repetition_takes_all(target.drop_first(), source, stop);
        if target.drop_first().len() == 0 {
            assert(skip_wild(target.drop_first(), source, stop) == target.drop_first());
        }
        assert(skip_wild(target, source, stop) =~= Seq::<char>::empty());
    } else {
        assert(target =~= Seq::<char>::empty());
    }
}

/// `rest` is what is left of `target` when some of its first characters are
/// taken away.
pub open spec fn is_suffix(rest: Seq<char>, target: Seq<char>) -> bool {
    rest.len() <= target.len() && rest == target.skip(target.len() - rest.len())
}

/// A suffix of a suffix is a suffix.
pub proof fn lemma_suffix_of_suffix(a: Seq<char>, b: Seq<char>, c: Seq<char>)
    requires
        is_suffix(a, b),
        is_suffix(b, c),
    ensures
        is_suffix(a, c),
{
    assert(a =~= c.skip(c.len() - a.len()));
}

/// The greedy skip leaves a suffix of its target.
pub proof fn lemma_skip_wild_leaves_suffix(target: Seq<char>, source: Seq<char>, stop: char)
    ensures
        is_suffix(skip_wild(target, source, stop), target),
    decreases target.len(),
{
    if target.len() > 0 && (target[0] != stop || occurrences(target, stop) > occurrences(
        source,
        stop,
    )) {
        let rest = target.drop_first();
        lemma_skip_wild_leaves_suffix(rest, source, stop);
        assert(rest =~= target.skip(1));
        lemma_suffix_of_suffix(skip_wild(rest, source, stop), rest, target);
    } else {
        assert(target =~= target.skip(0));
    }
}

/// What a walk leaves is a suffix of its target: the target itself where the
/// walk does not match, and nothing where it meets the invalid marker.
pub proof fn lemma_walk_leaves_suffix(
    target: Seq<char>,
    node: PatternTree,
    source: Seq<char>,
    active: bool,
    stop: char,
)
    ensures
        is_suffix(evaluate(target, node, source, active, stop).1, target),
        evaluate(target, node, source, active, stop).0 == Verdict::NoMatch ==> evaluate(
            target,
            node,
            source,
            active,
            stop,
        ).1 == target,
        evaluate(target, node, source, active, stop).0 == Verdict::SyntaxError ==> evaluate(
            target,
            node,
            source,
            active,
            stop,
        ).1 == Seq::<char>::empty(),
    decreases node, 1nat, 0nat,
{
    assert(target =~= target.skip(0));
    assert(Seq::<char>::empty() =~= target.skip(target.len() as int));
    match node {
        PatternTree::Literal(c) => {
            if target.len() > 0 {
                assert(target.drop_first() =~= target.skip(1));
            }
        },
        PatternTree::Concatenation(seq) => {
            if seq.len() > 0 {
                lemma_walk_from_leaves_suffix(
                    target,
                    target,
                    node,
                    0,
                    source,
                    FIRST_STOP,
                    stop,
                );
            }
        },
        PatternTree::Alternation(left, right) => {
            lemma_walk_leaves_suffix(target, *left, source, false, NO_STOP);
            lemma_walk_leaves_suffix(target, *right, source, false, NO_STOP);
        },
        PatternTree::Repetition(inner) => {
            if target.len() > 0 {
                if *inner == PatternTree::Literal(WILDCARD) {
                    lemma_skip_wild_leaves_suffix(target, source, stop);
                } else {
                    lemma_repeat_leaves_suffix(target, node, source);
                }
            }
        },
        PatternTree::Invalid => {},
    }
}

/// The same of the walk of a concatenation from one of its elements on.
pub proof fn lemma_walk_from_leaves_suffix(
    whole: Seq<char>,
    current: Seq<char>,
    node: PatternTree,
    i: nat,
    source: Seq<char>,
    stop: char,
    fallback: char,
)
    requires
        is_suffix(current, whole),
    ensures
        is_suffix(evaluate_from(whole, current, node, i, source, stop, fallback).1, whole),
        evaluate_from(whole, current, node, i, source, stop, fallback).0 == Verdict::NoMatch
            ==> evaluate_from(whole, current, node, i, source, stop, fallback).1 == whole,
        evaluate_from(whole, current, node, i, source, stop, fallback).0
            == Verdict::SyntaxError ==> evaluate_from(
            whole,
            current,
            node,
            i,
            source,
            stop,
            fallback,
        ).1 == Seq::<char>::empty(),
    decreases node, 0nat, (if node is Concatenation {
        node->Concatenation_0.len() - i
    } else {
        0
    }),
{
    assert(whole =~= whole.skip(0));
    assert(Seq::<char>::empty() =~= whole.skip(whole.len() as int));
    match node {
        PatternTree::Concatenation(seq) => {
            if i < seq.len() {
                let stop_here = stop_for(seq, i as int, stop, fallback);
                let element_active = ends_in_repetition(seq[i as int]);
                lemma_walk_leaves_suffix(current, seq[i as int], source, element_active, stop_here);
                let step = evaluate(current, seq[i as int], source, element_active, stop_here);
                if step.0 == Verdict::Match {
                    lemma_suffix_of_suffix(step.1, current, whole);
                    lemma_walk_from_leaves_suffix(
                        whole,
                        step.1,
                        node,
                        i + 1,
                        source,
                        stop_here,
                        fallback,
                    );
                }
            }
        },
        _ => {},
    }
}

/// The same of a repetition by its general rule, which never fails to match.
pub proof fn lemma_repeat_leaves_suffix(target: Seq<char>, node: PatternTree, source: Seq<char>)
    ensures
        is_suffix(repeat(target, node, source).1, target),
        repeat(target, node, source).0 != Verdict::NoMatch,
        repeat(target, node, source).0 == Verdict::SyntaxError ==> repeat(target, node, source).1
            == Seq::<char>::empty(),
    decreases node, 0nat, target.len(),
{
    assert(target =~= target.skip(0));
    assert(Seq::<char>::empty() =~= target.skip(target.len() as int));
    match node {
        PatternTree::Repetition(inner) => {
            if target.len() > 0 {
                lemma_walk_leaves_suffix(target, *inner, source, false, NO_STOP);
                let step = evaluate(target, *inner, source, false, NO_STOP);
                if step.0 == Verdict::Match && step.1.len() < target.len() {
                    lemma_repeat_leaves_suffix(step.1, node, source);
                    lemma_suffix_of_suffix(repeat(step.1, node, source).1, step.1, target);
                }
            }
        },
        _ => {},
    }
}

} // verus!
