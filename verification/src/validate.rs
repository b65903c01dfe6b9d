//! Checks made on a pattern's text before it is compiled, and the counting
//! helper they share with the matcher.

use vstd::prelude::*;
use crate::text::chars_of;

verus! {

/// How often `c` occurs in `s`.
pub open spec fn occurrences(s: Seq<char>, c: char) -> nat
    decreases s.len(),
{
    if s.len() == 0 {
        0
    } else if s[0] == c {
        1 + occurrences(s.drop_first(), c)
    } else {
        occurrences(s.drop_first(), c)
    }
}

/// The text has as many opening as closing group markers. Their order is not looked at.
pub open spec fn balanced(s: Seq<char>) -> bool {
    occurrences(s, '(') == occurrences(s, ')')
}

/// No repetition marker stands first, or directly behind an alternation
/// marker or an opening group marker.
pub open spec fn well_placed(s: Seq<char>) -> bool {
    &&& s.len() > 0 ==> s[0] != '*'
    &&& forall|i: int|
        1 <= i < s.len() && #[trigger] s[i] == '*' ==> s[i - 1] != '|' && s[i - 1] != '('
}

/// How often `ch` occurs in the characters of `v` from index `from` on.
pub fn count_from(v: &Vec<char>, from: usize, ch: char) -> (n: usize)
    requires
        from <= v@.len(),
    ensures
        n == occurrences(v@.skip(from as int), ch),
{
    let mut n: usize = 0;
    let mut i: usize = v.len();
    while i > from
        invariant
            from <= i <= v@.len(),
            n == occurrences(v@.skip(i as int), ch),
            n <= v@.len() - i,
            v@.len() <= usize::MAX,
        decreases i,
    {
        i = i - 1;
        assert(v@.skip(i as int).drop_first() =~= v@.skip(i + 1));
        if v[i] == ch {
            n = n + 1;
        }
    }
    n
}

/// Counts the occurrences of `ch` in `target`.
pub fn count_ch(target: String, ch: char) -> (n: usize)
    ensures
        n == occurrences(target@, ch),
{
    let v = chars_of(target.as_str());
    assert(v@.skip(0) =~= v@);
    count_from(&v, 0, ch)
}

/// Bracket balance: the opening and closing group markers of `b` are equal in number.
pub fn brackets(b: String) -> (ok: bool)
    ensures
        ok == balanced(b@),
{
    let v = chars_of(b.as_str());
    assert(v@.skip(0) =~= v@);
    count_from(&v, 0, '(') == count_from(&v, 0, ')')
}

/// Repetition placement: no repetition marker of `b` stands where it has nothing to repeat.
pub fn right_format(b: String) -> (ok: bool)
    ensures
        ok == well_placed(b@),
{
    let v = chars_of(b.as_str());
    if v.len() == 0 {
        return true;
    }
    let mut las = v[0];
    if las == '*' {
        return false;
    }
    let mut x: usize = 1;
    while x < v.len()
        invariant
            1 <= x <= v@.len(),
            v@ == b@,
            las == v@[x - 1],
            v@[0] != '*',
            forall|i: int|
                1 <= i < x && #[trigger] v@[i] == '*' ==> v@[i - 1] != '|' && v@[i - 1] != '(',
        decreases v@.len() - x,
    {
        let c = v[x];
        if c == '*' {
            if las == '|' || las == '(' {
                return false;
            }
        }
        las = c;
        x = x + 1;
    }
    true
}

} // verus!
