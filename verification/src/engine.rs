//! The verdict on a target line for a pattern line: validation, compilation
//! and the walk, one after the other.

use vstd::prelude::*;
use crate::matcher::{evaluate, match_target, NO_STOP};
use crate::parse_laws::lemma_compiling_fails_on_empty_only;
use crate::parser::{expression, stands_for, ParseError, Parser};
use crate::tree::{label_of, PatternTree, Regex, Verdict};
use crate::validate::{balanced, brackets, right_format, well_placed};

verus! {

/// What compiling `pattern` gives: the marker of an invalid pattern where a
/// check on the text fails, else what the parser makes of it.
pub open spec fn compiled(pattern: Seq<char>) -> Result<PatternTree, ParseError> {
    if !balanced(pattern) || !well_placed(pattern) {
        Ok(PatternTree::Invalid)
    } else {
        expression(pattern, 0).tree
    }
}

/// The tree kept for a pattern line: a pattern that cannot be parsed counts
/// as invalid.
pub open spec fn prepared(pattern: Seq<char>) -> PatternTree {
    match compiled(pattern) {
        Ok(tree) => tree,
        Err(_) => PatternTree::Invalid,
    }
}

/// The verdict on `target` for the tree `tree` of the pattern text `source`:
/// a match must use up the whole target.
pub open spec fn judged(target: Seq<char>, tree: PatternTree, source: Seq<char>) -> Verdict {
    let step = evaluate(target, tree, source, false, NO_STOP);
    if step.1.len() > 0 {
        Verdict::NoMatch
    } else {
        step.0
    }
}

/// The verdict on `target` for the pattern text `pattern`.
pub open spec fn verdict_of(pattern: Seq<char>, target: Seq<char>) -> Verdict {
    judged(target, prepared(pattern), pattern)
}

/// Validates and compiles `pattern`. Only the empty pattern fails to compile.
pub fn compile(pattern: String) -> (r: Result<Regex, ParseError>)
    ensures
        stands_for(r, compiled(pattern@)),
        r is Err <==> pattern@.len() == 0,
{
    proof {
        lemma_compiling_fails_on_empty_only(pattern@);
    }
    let count = brackets(pattern.clone());
    let form = right_format(pattern.clone());
    if !count || !form {
        Ok(Regex::Syn('e'))
    } else {
        let mut p = Parser::new(pattern);
        p.parse()
    }
}

/// The tree to keep for the pattern line `pattern`.
pub fn prepare(pattern: String) -> (tree: Regex)
    ensures
        tree@ == prepared(pattern@),
{
    match compile(pattern) {
        Ok(tree) => tree,
        Err(_) => Regex::Syn('e'),
    }
}

/// The verdict on `target` for the compiled pattern `expression`, whose text
/// is `ex`.
pub fn judge(target: String, expression: &Regex, ex: String) -> (v: Verdict)
    ensures
        v == judged(target@, expression@, ex@),
{
    let found = match_target(target, expression, ex, false, NO_STOP);
    if found.1.as_str().unicode_len() > 0 {
        Verdict::NoMatch
    } else {
        found.0
    }
}

/// The output line for the pattern line `pattern` and the target line `target`.
pub fn answer(pattern: String, target: String) -> (line: String)
    ensures
        line@ == label_of(verdict_of(pattern@, target@)),
{
    let tree = prepare(pattern.clone());
    judge(target, &tree, pattern).label()
}

/// The output lines for pattern lines and target lines paired in order. The
/// pairing ends with the shorter list.
pub fn answer_lines(patterns: &Vec<String>, targets: &Vec<String>) -> (lines: Vec<String>)
    ensures
        lines@.len() == (if patterns@.len() <= targets@.len() {
            patterns@.len()
        } else {
            targets@.len()
        }),
        forall|i: int|
            0 <= i < lines@.len() ==> (#[trigger] lines@[i])@ == label_of(
                verdict_of(patterns@[i]@, targets@[i]@),
            ),
{
    let mut lines: Vec<String> = Vec::new();
    let mut i: usize = 0;
    while i < patterns.len() && i < targets.len()
        invariant
            i == lines@.len(),
            i <= patterns@.len(),
            i <= targets@.len(),
            forall|k: int|
                0 <= k < lines@.len() ==> (#[trigger] lines@[k])@ == label_of(
                    verdict_of(patterns@[k]@, targets@[k]@),
                ),
        decreases patterns@.len() - i,
    {
        lines.push(answer(patterns[i].clone(), targets[i].clone()));
        i = i + 1;
    }
    lines
}

} // verus!
