//! The compiled form of a pattern, its mathematical model, and verdicts.

use vstd::prelude::*;

verus! {

/// The mathematical model of a compiled pattern.
pub enum PatternTree {
    /// One occurrence of the character; the wildcard symbol stands for any character.
    Literal(char),
    /// Sub-patterns that must match one after the other.
    Concatenation(Seq<PatternTree>),
    /// Either sub-pattern may match.
    Alternation(Box<PatternTree>, Box<PatternTree>),
    /// Zero or more consecutive matches of the sub-pattern.
    Repetition(Box<PatternTree>),
    /// A pattern that failed validation.
    Invalid,
}

/// A compiled pattern.
#[derive(PartialEq, Eq, Debug)]
pub enum Regex {
    /// Alternation of two sub-patterns.
    Or(Box<Regex>, Box<Regex>),
    /// Concatenation of sub-patterns, in order.
    Pattern(Vec<Box<Regex>>),
    /// Repetition of a sub-pattern.
    Star(Box<Regex>),
    /// A literal character (or the wildcard).
    Character(char),
    /// The marker of a pattern that failed validation.
    Syn(char),
}

impl Regex {
    /// The tree that this compiled pattern stands for.
    pub open spec fn model(&self) -> PatternTree
        decreases self,
    {
        match self {
            Regex::Or(l, r) => PatternTree::Alternation(Box::new(l.model()), Box::new(r.model())),
            Regex::Pattern(v) => PatternTree::Concatenation(
                Seq::new(
                    v@.len(),
                    |i: int|
                        if 0 <= i < v@.len() {
                            v@[i].model()
                        } else {
                            PatternTree::Invalid
                        },
                ),
            ),
            Regex::Star(r) => PatternTree::Repetition(Box::new(r.model())),
            Regex::Character(c) => PatternTree::Literal(*c),
            Regex::Syn(_) => PatternTree::Invalid,
        }
    }
}

impl View for Regex {
    type V = PatternTree;

    open spec fn view(&self) -> PatternTree {
        self.model()
    }
}

/// What the matcher reports for one target.
#[derive(Clone, Copy, PartialEq, Eq, Structural, Debug)]
pub enum Verdict {
    /// The pattern matched.
    Match,
    /// The pattern did not match.
    NoMatch,
    /// The walk met the marker of an invalid pattern.
    SyntaxError,
}

/// The line that stands for a verdict in the output.
pub open spec fn label_of(v: Verdict) -> Seq<char> {
    match v {
        Verdict::Match => "YES"@,
        Verdict::NoMatch => "NO"@,
        Verdict::SyntaxError => "SYNTAX ERROR"@,
    }
}

impl Verdict {
    /// The line that stands for this verdict in the output.
    pub fn label(&self) -> (s: String)
        ensures
            s@ == label_of(*self),
    {
        match self {
            Verdict::Match => "YES".to_owned(),
            Verdict::NoMatch => "NO".to_owned(),
            Verdict::SyntaxError => "SYNTAX ERROR".to_owned(),
        }
    }
}

} // verus!
