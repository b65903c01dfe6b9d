//! The matcher: a walk of a compiled pattern against a target, which hands
//! the part of the target not yet consumed from step to step.

use vstd::prelude::*;
use crate::tree::{PatternTree, Regex, Verdict};
use crate::text::{chars_of, suffix_of};
use crate::validate::{count_from, occurrences};

verus! {

/// As a literal, this character stands for any single character.
pub const WILDCARD: char = '.';

/// The stop character used where no character is known to follow.
pub const NO_STOP: char = 'n';

/// The stop character a concatenation starts out with.
pub const FIRST_STOP: char = 'b';

/// What a step reports: the verdict, and the part of the target left over.
pub type Step = (Verdict, Seq<char>);

/// The node is a repetition, or a concatenation whose last element ends in one.
pub open spec fn ends_in_repetition(node: PatternTree) -> bool
    decreases node,
{
    match node {
        PatternTree::Repetition(_) => true,
        PatternTree::Concatenation(seq) => seq.len() > 0 && ends_in_repetition(
            seq[seq.len() - 1],
        ),
        _ => false,
    }
}

/// The stop character for element `i` of a concatenation. It changes only for
/// an element that ends in a repetition: to the literal that follows it, to
/// `fallback` where nothing follows, and not at all where something else follows.
pub open spec fn stop_for(
    seq: Seq<PatternTree>,
    i: int,
    current: char,
    fallback: char,
) -> char {
    if !ends_in_repetition(seq[i]) {
        current
    } else if i + 1 < seq.len() {
        match seq[i + 1] {
            PatternTree::Literal(c) => c,
            _ => current,
        }
    } else {
        fallback
    }
}

/// The wildcard repetition's greedy skip: leading characters go while the
/// first one is not the stop character, or while the target still holds more
/// stop characters than the pattern's text does.
pub open spec fn skip_wild(target: Seq<char>, source: Seq<char>, stop: char) -> Seq<char>
    decreases target.len(),
{
    if target.len() > 0 && (target[0] != stop || occurrences(target, stop) > occurrences(
        source,
        stop,
    )) {
        skip_wild(target.drop_first(), source, stop)
    } else {
        target
    }
}

/// Which of two branch results an alternation reports for `target`.
pub open spec fn prefer(target: Seq<char>, left: Step, right: Step) -> Step {
    if left.0 == Verdict::SyntaxError || right.0 == Verdict::SyntaxError {
        (Verdict::SyntaxError, Seq::empty())
    } else if left.0 == Verdict::Match && right.0 == Verdict::Match {
        if right.1.len() < left.1.len() {
            right
        } else {
            left
        }
    } else if left.0 == Verdict::Match {
        left
    } else if right.0 == Verdict::Match {
        right
    } else {
        (Verdict::NoMatch, target)
    }
}

/// What the walk of `node` reports for `target`.
///
/// `source` is the text of the whole pattern; `active` and `stop` are the
/// hint of the enclosing concatenation, read by the wildcard repetition only.
pub open spec fn evaluate(
    target: Seq<char>,
    node: PatternTree,
    source: Seq<char>,
    active: bool,
    stop: char,
) -> Step
    decreases node, 1nat, 0nat,
{
    match node {
        PatternTree::Literal(c) => {
            if target.len() > 0 && (target[0] == c || c == WILDCARD) {
                (Verdict::Match, target.drop_first())
            } else {
                (Verdict::NoMatch, target)
            }
        },
        PatternTree::Concatenation(seq) => {
            if seq.len() == 0 {
                if target.len() == 0 {
                    (Verdict::Match, target)
                } else {
                    (Verdict::NoMatch, target)
                }
            } else {
                evaluate_from(target, target, node, 0, source, FIRST_STOP, stop)
            }
        },
        PatternTree::Alternation(left, right) => prefer(
            target,
            evaluate(target, *left, source, false, NO_STOP),
            evaluate(target, *right, source, false, NO_STOP),
        ),
        PatternTree::Repetition(inner) => {
            if target.len() == 0 {
                (Verdict::Match, target)
            } else if *inner == PatternTree::Literal(WILDCARD) {
                if active {
                    (Verdict::Match, skip_wild(target, source, stop))
                } else {
                    (Verdict::Match, target)
                }
            } else {
                repeat(target, node, source)
            }
        },
        PatternTree::Invalid => (Verdict::SyntaxError, Seq::empty()),
    }
}

/// The elements of the concatenation `node` from index `i` on, walked in
/// order from `current`, which is what the elements before them left of the
/// target `whole`. The first element that does not match ends the walk, and
/// `whole` is handed back untouched.
pub open spec fn evaluate_from(
    whole: Seq<char>,
    current: Seq<char>,
    node: PatternTree,
    i: nat,
    source: Seq<char>,
    stop: char,
    fallback: char,
) -> Step
    decreases node, 0nat, (if node is Concatenation {
        node->Concatenation_0.len() - i
    } else {
        0
    }),
{
    match node {
        PatternTree::Concatenation(seq) => {
            if i < seq.len() {
                let stop_here = stop_for(seq, i as int, stop, fallback);
                let step = evaluate(
                    current,
                    seq[i as int],
                    source,
                    ends_in_repetition(seq[i as int]),
                    stop_here,
                );
                match step.0 {
                    Verdict::Match => evaluate_from(
                        whole,
                        step.1,
                        node,
                        i + 1,
                        source,
                        stop_here,
                        fallback,
                    ),
                    Verdict::NoMatch => (Verdict::NoMatch, whole),
                    Verdict::SyntaxError => (Verdict::SyntaxError, Seq::empty()),
                }
            } else {
                (Verdict::Match, current)
            }
        },
        _ => (Verdict::Match, current),
    }
}

/// The repetition `node` by its general rule: its inner pattern is walked
/// again and again, each time from what the last walk left, until it does
/// not match, consumes nothing, or the target is used up.
pub open spec fn repeat(target: Seq<char>, node: PatternTree, source: Seq<char>) -> Step
    decreases node, 0nat, target.len(),
{
    match node {
        PatternTree::Repetition(inner) => {
            if target.len() == 0 {
                (Verdict::Match, target)
            } else {
                let step = evaluate(target, *inner, source, false, NO_STOP);
                match step.0 {
                    Verdict::Match => {
                        if step.1.len() < target.len() {
                            repeat(step.1, node, source)
                        } else {
                            (Verdict::Match, step.1)
                        }
                    },
                    Verdict::NoMatch => (Verdict::Match, target),
                    Verdict::SyntaxError => (Verdict::SyntaxError, Seq::empty()),
                }
            }
        },
        _ => (Verdict::Match, target),
    }
}

/// The name of the node's kind, as `is_star` reports it.
pub open spec fn kind_name(node: PatternTree) -> Seq<char> {
    match node {
        PatternTree::Repetition(_) => "Star"@,
        PatternTree::Concatenation(_) => "Pattern"@,
        _ => "Other"@,
    }
}

/// Tells whether `expression` is a repetition or a concatenation that ends in
/// one, and names its kind.
pub fn is_star(expression: &Regex) -> (r: (bool, String))
    ensures
        r.0 == ends_in_repetition(expression@),
        r.1@ == kind_name(expression@),
    decreases expression,
{
    match expression {
        Regex::Star(_) => (true, "Star".to_owned()),
        Regex::Pattern(v) => {
            if v.len() == 0 {
                (false, "Pattern".to_owned())
            } else {
                let last = is_star(&v[v.len() - 1]);
                (last.0, "Pattern".to_owned())
            }
        },
        _ => (false, "Other".to_owned()),
    }
}

/// The character of a literal node, with `true`; for any other node `false`
/// and a placeholder.
pub fn get_next_char(expression: &Regex) -> (r: (bool, char))
    ensures
        r == (match expression@ {
            PatternTree::Literal(c) => (true, c),
            _ => (false, 'e'),
        }),
{
    match expression {
        Regex::Character(c) => (true, *c),
        _ => (false, 'e'),
    }
}

/// The greedy skip on the characters of `text` from index `from` on: the
/// index at which it stops.
fn skip_wild_at(text: &Vec<char>, from: usize, source: &Vec<char>, stop: char) -> (to: usize)
    requires
        from <= text@.len(),
    ensures
        from <= to <= text@.len(),
        text@.skip(to as int) == skip_wild(text@.skip(from as int), source@, stop),
{
    assert(source@.skip(0) =~= source@);
    let limit = count_from(source, 0, stop);
    let mut left = count_from(text, from, stop);
    let mut at: usize = from;
    while at < text.len() && (text[at] != stop || left > limit)
        invariant
            from <= at <= text@.len(),
            left == occurrences(text@.skip(at as int), stop),
            limit == occurrences(source@, stop),
            skip_wild(text@.skip(at as int), source@, stop) == skip_wild(
                text@.skip(from as int),
                source@,
                stop,
            ),
        decreases text@.len() - at,
    {
        proof {
            assert(text@.skip(at as int).drop_first() =~= text@.skip(at + 1));
        }
        if text[at] == stop {
            left = left - 1;
        }
        at = at + 1;
    }
    at
}

/// The wildcard repetition's fast path. The last part of the result tells
/// whether `expression` is the wildcard literal; where it is and `is_star`
/// holds, the greedy skip has been applied to `target`.
pub fn star_dot(target: String, expression: &Regex, ex: String, is_star: bool, ch: char) -> (r: (
    Verdict,
    String,
    bool,
))
    ensures
        r.0 == Verdict::Match,
        r.2 == (expression@ == PatternTree::Literal(WILDCARD)),
        r.1@ == (if r.2 && is_star {
            skip_wild(target@, ex@, ch)
        } else {
            target@
        }),
{
    let inner = get_next_char(expression);
    if inner.0 && inner.1 == WILDCARD {
        if is_star {
            let text = chars_of(target.as_str());
            let source = chars_of(ex.as_str());
            assert(text@.skip(0) =~= text@);
            let to = skip_wild_at(&text, 0, &source, ch);
            (Verdict::Match, suffix_of(target.as_str(), to), true)
        } else {
            (Verdict::Match, target, true)
        }
    } else {
        (Verdict::Match, target, false)
    }
}

/// The walk of `node` against the characters of `text` from index `from` on.
/// The index in the result is where the part left over begins.
fn match_at(
    text: &Vec<char>,
    from: usize,
    node: &Regex,
    source: &Vec<char>,
    active: bool,
    stop: char,
) -> (r: (Verdict, usize))
    requires
        from <= text@.len(),
    ensures
        from <= r.1 <= text@.len(),
        evaluate(text@.skip(from as int), node@, source@, active, stop) == (
            r.0,
            text@.skip(r.1 as int),
        ),
    decreases node,
{
    let ghost target = text@.skip(from as int);
    proof {
        assert(text@.skip(text@.len() as int) =~= Seq::<char>::empty());
        if from < text@.len() {
            assert(target.drop_first() =~= text@.skip(from + 1));
        }
    }
    match node {
        Regex::Character(c) => {
            if from < text.len() && (text[from] == *c || *c == WILDCARD) {
                (Verdict::Match, from + 1)
            } else {
                (Verdict::NoMatch, from)
            }
        },
        Regex::Pattern(v) => {
            if v.len() == 0 {
                if from == text.len() {
                    return (Verdict::Match, from);
                } else {
                    return (Verdict::NoMatch, from);
                }
            }
            let ghost seq = node@->Concatenation_0;
            let mut at: usize = from;
            let mut hint: char = FIRST_STOP;
            let mut i: usize = 0;
            while i < v.len()
                invariant
                    from <= at <= text@.len(),
                    i <= v@.len(),
                    target == text@.skip(from as int),
                    node == Regex::Pattern(*v),
                    node@ == PatternTree::Concatenation(seq),
                    seq.len() == v@.len(),
                    forall|k: int| 0 <= k < v@.len() ==> seq[k] == (#[trigger] v@[k])@,
                    text@.skip(text@.len() as int) == Seq::<char>::empty(),
                    evaluate_from(target, text@.skip(at as int), node@, i as nat, source@, hint, stop)
                        == evaluate(target, node@, source@, active, stop),
                decreases v@.len() - i,
            {
                let element_active = is_star(&v[i]).0;
                if element_active {
                    if i + 1 < v.len() {
                        let next = get_next_char(&v[i + 1]);
                        if next.0 {
                            hint = next.1;
                        }
                    } else {
                        hint = stop;
                    }
                }
                let step = match_at(text, at, &v[i], source, element_active, hint);
                match step.0 {
                    Verdict::NoMatch => {
                        return (Verdict::NoMatch, from);
                    },
                    Verdict::SyntaxError => {
                        return (Verdict::SyntaxError, text.len());
                    },
                    Verdict::Match => {
                        at = step.1;
                    },
                }
                i = i + 1;
            }
            (Verdict::Match, at)
        },
        Regex::Or(left, right) => {
            let l = match_at(text, from, left, source, false, NO_STOP);
            let r = match_at(text, from, right, source, false, NO_STOP);
            if l.0 == Verdict::SyntaxError || r.0 == Verdict::SyntaxError {
                (Verdict::SyntaxError, text.len())
            } else if l.0 == Verdict::Match && r.0 == Verdict::Match {
                if r.1 > l.1 {
                    r
                } else {
                    l
                }
            } else if l.0 == Verdict::Match {
                l
            } else if r.0 == Verdict::Match {
                r
            } else {
                (Verdict::NoMatch, from)
            }
        },
        Regex::Star(inner) => {
            if from == text.len() {
                return (Verdict::Match, from);
            }
            let literal = get_next_char(inner);
            if literal.0 && literal.1 == WILDCARD {
                if active {
                    return (Verdict::Match, skip_wild_at(text, from, source, stop));
                } else {
                    return (Verdict::Match, from);
                }
            }
            let mut at: usize = from;
            while at < text.len()
                invariant
                    from <= at <= text@.len(),
                    target == text@.skip(from as int),
                    node == Regex::Star(*inner),
                    text@.skip(text@.len() as int) == Seq::<char>::empty(),
                    repeat(text@.skip(at as int), node@, source@) == evaluate(
                        target,
                        node@,
                        source@,
                        active,
                        stop,
                    ),
                decreases text@.len() - at,
            {
                let step = match_at(text, at, inner, source, false, NO_STOP);
                match step.0 {
                    Verdict::Match => {
                        if step.1 > at {
                            at = step.1;
                        } else {
                            return (Verdict::Match, step.1);
                        }
                    },
                    Verdict::NoMatch => {
                        return (Verdict::Match, at);
                    },
                    Verdict::SyntaxError => {
                        return (Verdict::SyntaxError, text.len());
                    },
                }
            }
            (Verdict::Match, at)
        },
        Regex::Syn(_) => (Verdict::SyntaxError, text.len()),
    }
}

/// Walks `expression` against `target` and reports the verdict with the part
/// of the target left over. `ex` is the text of the whole pattern; `is_st`
/// and `character` are the hint for a wildcard repetition.
pub fn match_target(
    target: String,
    expression: &Regex,
    ex: String,
    is_st: bool,
    character: char,
) -> (r: (Verdict, String))
    ensures
        (r.0, r.1@) == evaluate(target@, expression@, ex@, is_st, character),
{
    let text = chars_of(target.as_str());
    let source = chars_of(ex.as_str());
    assert(text@.skip(0) =~= text@);
    let found = match_at(&text, 0, expression, &source, is_st, character);
    (found.0, suffix_of(target.as_str(), found.1))
}

} // verus!
