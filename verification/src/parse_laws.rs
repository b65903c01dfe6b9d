//! What holds of the compiler for all patterns: a pattern that passes the
//! bracket-balance check and is not empty can always be parsed.

use vstd::prelude::*;
use crate::engine::compiled;
use crate::parser::{atom, concatenation, ends_terms, expression, repeated, terms};
use crate::validate::{balanced, occurrences, well_placed};

verus! {

/// A text made of two parts holds a character as often as the parts together.
pub proof fn lemma_occurrences_add(a: Seq<char>, b: Seq<char>, c: char)
    ensures
        occurrences(a + b, c) == occurrences(a, c) + occurrences(b, c),
    decreases a.len(),
{
    if a.len() == 0 {
        assert(a + b =~= b);
    } else {
        lemma_occurrences_add(a.drop_first(), b, c);
        assert((a + b).drop_first() =~= a.drop_first() + b);
    }
}

/// By how much the opening group markers outnumber the closing ones among
/// the characters of `s` at the indices `from` up to `to`.
pub open spec fn surplus(s: Seq<char>, from: int, to: int) -> int {
    occurrences(s.subrange(from, to), '(') - occurrences(s.subrange(from, to), ')')
}

/// The surplus of a stretch is the sum of the surpluses of its two parts.
pub proof fn lemma_surplus_split(s: Seq<char>, from: int, mid: int, to: int)
    requires
        0 <= from <= mid <= to <= s.len(),
    ensures
        surplus(s, from, to) == surplus(s, from, mid) + surplus(s, mid, to),
{
    assert(s.subrange(from, to) =~= s.subrange(from, mid) + s.subrange(mid, to));
    lemma_occurrences_add(s.subrange(from, mid), s.subrange(mid, to), '(');
    lemma_occurrences_add(s.subrange(from, mid), s.subrange(mid, to), ')');
}

/// The surplus of a single character.
pub proof fn lemma_surplus_one(s: Seq<char>, at: int)
    requires
        0 <= at < s.len(),
    ensures
        surplus(s, at, at + 1) == (if s[at] == '(' {
            1int
        } else if s[at] == ')' {
            -1int
        } else {
            0int
        }),
        surplus(s, at, at) == 0,
{
    let one = s.subrange(at, at + 1);
    assert(one[0] == s[at]);
    assert(one.drop_first() =~= Seq::<char>::empty());
    assert(occurrences(one.drop_first(), '(') == 0);
    assert(occurrences(one.drop_first(), ')') == 0);
    assert(s.subrange(at, at) =~= Seq::<char>::empty());
}

/// What holds of a production's result at `pos` that went past `consumed`
/// characters: parsed, it stays inside the text and passes as many opening
/// as closing markers; failed, it has used the text up and met more opening
/// than closing markers.
pub open spec fn closes_its_groups(s: Seq<char>, pos: nat, parsed: bool, consumed: nat) -> bool {
    if parsed {
        pos + consumed <= s.len() && surplus(s, pos as int, (pos + consumed) as int) == 0
    } else {
        pos + consumed == s.len() && surplus(s, pos as int, s.len() as int) > 0
    }
}

/// The text is at its end at `at`, or has a closing group marker there.
pub open spec fn at_group_end(s: Seq<char>, at: nat) -> bool {
    at >= s.len() || s[at as int] == ')'
}

/// An atom that does not start at a closing marker closes its groups.
pub proof fn lemma_atom_closes_its_groups(s: Seq<char>, pos: nat)
    requires
        pos < s.len(),
        s[pos as int] != ')',
    ensures
        closes_its_groups(s, pos, atom(s, pos).tree is Ok, atom(s, pos).consumed),
        atom(s, pos).tree is Ok ==> atom(s, pos).consumed >= 1,
    decreases s.len() - pos, 0nat,
{
    lemma_surplus_one(s, pos as int);
    if s[pos as int] == '(' {
        let inner = expression(s, pos + 1);
        let end = pos + 1 + inner.consumed;
        lemma_expression_closes_its_groups(s, pos + 1);
        if inner.tree is Ok {
            lemma_surplus_split(s, pos as int, pos as int + 1, end as int);
            if end < s.len() {
                lemma_surplus_one(s, end as int);
                lemma_surplus_split(s, pos as int, end as int, end as int + 1);
            }
        } else {
            if pos + 1 < s.len() {
                lemma_surplus_split(s, pos as int, pos as int + 1, s.len() as int);
            }
        }
    }
}

/// A term that does not start at a closing marker closes its groups.
pub proof fn lemma_repeated_closes_its_groups(s: Seq<char>, pos: nat)
    requires
        pos < s.len(),
        s[pos as int] != ')',
    ensures
        closes_its_groups(s, pos, repeated(s, pos).tree is Ok, repeated(s, pos).consumed),
        repeated(s, pos).tree is Ok ==> repeated(s, pos).consumed >= 1,
    decreases s.len() - pos, 1nat,
{
    lemma_atom_closes_its_groups(s, pos);
    let inner = atom(s, pos);
    if inner.tree is Ok {
        let next = pos + inner.consumed;
        if next < s.len() && s[next as int] == '*' {
            lemma_surplus_one(s, next as int);
            lemma_surplus_split(s, pos as int, next as int, next as int + 1);
        }
    }
}

/// A run of terms closes its groups, and ends where terms end.
pub proof fn lemma_terms_close_their_groups(s: Seq<char>, pos: nat)
    requires
        pos <= s.len(),
    ensures
        closes_its_groups(s, pos, terms(s, pos).trees is Ok, terms(s, pos).consumed),
        terms(s, pos).trees is Ok ==> ends_terms(s, pos + terms(s, pos).consumed),
    decreases s.len() - pos, 2nat,
{
    if ends_terms(s, pos) {
        assert(s.subrange(pos as int, pos as int) =~= Seq::<char>::empty());
    } else {
        lemma_repeated_closes_its_groups(s, pos);
        let first = repeated(s, pos);
        if first.tree is Ok {
            let next = pos + first.consumed;
            lemma_terms_close_their_groups(s, next);
            let rest = terms(s, next);
            if rest.trees is Ok {
                lemma_surplus_split(s, pos as int, next as int, (next + rest.consumed) as int);
            } else {
                lemma_surplus_split(s, pos as int, next as int, s.len() as int);
            }
        }
    }
}

/// A concatenation closes its groups, and ends at the end of the text or at
/// a closing group marker.
pub proof fn lemma_concatenation_closes_its_groups(s: Seq<char>, pos: nat)
    requires
        pos <= s.len(),
    ensures
        closes_its_groups(
            s,
            pos,
            concatenation(s, pos).tree is Ok,
            concatenation(s, pos).consumed,
        ),
        concatenation(s, pos).tree is Ok ==> at_group_end(
            s,
            pos + concatenation(s, pos).consumed,
        ),
    decreases s.len() - pos, 3nat,
{
    lemma_terms_close_their_groups(s, pos);
    let run = terms(s, pos);
    if run.trees is Ok {
        let next = pos + run.consumed;
        if next < s.len() && s[next as int] == '|' {
            lemma_concatenation_closes_its_groups(s, next + 1);
            let rest = concatenation(s, next + 1);
            lemma_surplus_one(s, next as int);
            lemma_surplus_split(s, pos as int, next as int, next as int + 1);
            if rest.tree is Ok {
                lemma_surplus_split(
                    s,
                    pos as int,
                    next as int + 1,
                    (next + 1 + rest.consumed) as int,
                );
            } else {
                lemma_surplus_split(s, pos as int, next as int + 1, s.len() as int);
            }
        }
    }
}

/// An expression that has text to start from closes its groups, and ends at
/// the end of the text or at a closing group marker.
pub proof fn lemma_expression_closes_its_groups(s: Seq<char>, pos: nat)
    requires
        pos <= s.len(),
    ensures
        pos < s.len() ==> closes_its_groups(
            s,
            pos,
            expression(s, pos).tree is Ok,
            expression(s, pos).consumed,
        ),
        pos == s.len() ==> expression(s, pos).tree is Err && expression(s, pos).consumed == 0,
        expression(s, pos).tree is Ok ==> at_group_end(s, pos + expression(s, pos).consumed),
    decreases s.len() - pos, 4nat,
{
    if pos < s.len() {
        lemma_concatenation_closes_its_groups(s, pos);
    }
}

/// A pattern that is not empty and has as many opening as closing group
/// markers can be parsed.
pub proof fn lemma_balanced_pattern_parses(s: Seq<char>)
    requires
        s.len() > 0,
        balanced(s),
    ensures
        expression(s, 0).tree is Ok,
{
    lemma_expression_closes_its_groups(s, 0);
    assert(s.subrange(0, s.len() as int) =~= s);
}

/// Compiling fails for the empty pattern and for no other.
pub proof fn lemma_compiling_fails_on_empty_only(s: Seq<char>)
    ensures
        compiled(s) is Err <==> s.len() == 0,
{
    if s.len() > 0 {
        if balanced(s) && well_placed(s) {
            lemma_balanced_pattern_parses(s);
        }
    } else {
        assert(balanced(s));
        assert(well_placed(s));
    }
}

} // verus!
