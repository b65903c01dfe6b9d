//! The compiler: a recursive-descent parser that turns a pattern's text into
//! its tree.
//!
//! ```text
//! Expression    := Concatenation ( '|' Concatenation )?
//! Concatenation := ( Repeated )* ( '|' Concatenation )?
//! Repeated      := Atom ( '*' )?
//! Atom          := '(' Expression ')'  |  any character
//! ```

use vstd::prelude::*;
use crate::text::chars_of;
use crate::tree::{PatternTree, Regex};

verus! {

/// Why a pattern could not be compiled.
#[derive(Clone, Copy, PartialEq, Eq, Structural, Debug)]
pub enum ParseError {
    /// The text ended where the grammar asked for more.
    MalformedPattern,
}

/// What one production makes of a text at a position: the tree or the
/// failure, and the number of characters it went past.
pub struct Parsed {
    pub tree: Result<PatternTree, ParseError>,
    pub consumed: nat,
}

/// What a run of terms makes of a text at a position.
pub struct ParsedTerms {
    pub trees: Result<Seq<PatternTree>, ParseError>,
    pub consumed: nat,
}

/// The number of characters of `s` from `pos` on.
pub open spec fn unread(s: Seq<char>, pos: nat) -> nat {
    if pos <= s.len() {
        (s.len() - pos) as nat
    } else {
        0
    }
}

/// A run of terms ends at the end of the text, at a closing group marker and
/// at an alternation marker.
pub open spec fn ends_terms(s: Seq<char>, pos: nat) -> bool {
    pos >= s.len() || s[pos as int] == ')' || s[pos as int] == '|'
}

/// The terms `first` followed by the terms `rest`.
pub open spec fn join(first: ParsedTerms, rest: ParsedTerms) -> ParsedTerms {
    ParsedTerms {
        trees: match (first.trees, rest.trees) {
            (Ok(a), Ok(b)) => Ok(a + b),
            (Ok(_), Err(e)) => Err(e),
            (Err(e), _) => Err(e),
        },
        consumed: first.consumed + rest.consumed,
    }
}

/// The alternation of `left` with what was parsed behind the marker.
pub open spec fn alternate(left: PatternTree, before: nat, right: Parsed) -> Parsed {
    Parsed {
        tree: match right.tree {
            Ok(r) => Ok(PatternTree::Alternation(Box::new(left), Box::new(r))),
            Err(e) => Err(e),
        },
        consumed: before + 1 + right.consumed,
    }
}

/// `Expression` at `pos`. An expression needs text to start from.
pub open spec fn expression(s: Seq<char>, pos: nat) -> Parsed
    decreases unread(s, pos), 4nat,
{
    if pos >= s.len() {
        Parsed { tree: Err(ParseError::MalformedPattern), consumed: 0 }
    } else {
        let first = concatenation(s, pos);
        match first.tree {
            Ok(left) => {
                let next = pos + first.consumed;
                if next < s.len() && s[next as int] == '|' {
                    alternate(left, first.consumed, concatenation(s, (next + 1) as nat))
                } else {
                    first
                }
            },
            Err(_) => first,
        }
    }
}

/// `Concatenation` at `pos`: a run of terms, and behind an alternation marker
/// a further concatenation, which makes the alternation nest to the right.
pub open spec fn concatenation(s: Seq<char>, pos: nat) -> Parsed
    decreases unread(s, pos), 3nat,
{
    let run = terms(s, pos);
    match run.trees {
        Ok(trees) => {
            let next = pos + run.consumed;
            if next < s.len() && s[next as int] == '|' {
                alternate(
                    PatternTree::Concatenation(trees),
                    run.consumed,
                    concatenation(s, (next + 1) as nat),
                )
            } else {
                Parsed { tree: Ok(PatternTree::Concatenation(trees)), consumed: run.consumed }
            }
        },
        Err(e) => Parsed { tree: Err(e), consumed: run.consumed },
    }
}

/// The run of terms at `pos`, as long as it goes. Every term goes past at
/// least one character (`lemma_repeated_advances`); the test for it is what
/// makes this definition well founded.
pub open spec fn terms(s: Seq<char>, pos: nat) -> ParsedTerms
    decreases unread(s, pos), 2nat,
{
    if ends_terms(s, pos) {
        ParsedTerms { trees: Ok(Seq::empty()), consumed: 0 }
    } else {
        let first = repeated(s, pos);
        match first.tree {
            Ok(tree) => {
                if first.consumed == 0 {
                    ParsedTerms { trees: Err(ParseError::MalformedPattern), consumed: 0 }
                } else {
                    join(
                        ParsedTerms { trees: Ok(seq![tree]), consumed: first.consumed },
                        terms(s, pos + first.consumed),
                    )
                }
            },
            Err(e) => ParsedTerms { trees: Err(e), consumed: first.consumed },
        }
    }
}

/// `Repeated` at `pos`: an atom, made a repetition by a marker behind it.
pub open spec fn repeated(s: Seq<char>, pos: nat) -> Parsed
    decreases unread(s, pos), 1nat,
{
    let inner = atom(s, pos);
    match inner.tree {
        Ok(tree) => {
            let next = pos + inner.consumed;
            if next < s.len() && s[next as int] == '*' {
                Parsed {
                    tree: Ok(PatternTree::Repetition(Box::new(tree))),
                    consumed: inner.consumed + 1,
                }
            } else {
                inner
            }
        },
        Err(_) => inner,
    }
}

/// `Atom` at `pos`: a group, or the character itself. Behind a group's
/// expression one character is passed over, whatever it is; that there is
/// none is a failure.
pub open spec fn atom(s: Seq<char>, pos: nat) -> Parsed
    decreases unread(s, pos), 0nat,
{
    if pos >= s.len() {
        Parsed { tree: Err(ParseError::MalformedPattern), consumed: 0 }
    } else if s[pos as int] == '(' {
        let inner = expression(s, pos + 1);
        match inner.tree {
            Ok(tree) => {
                if pos + 1 + inner.consumed < s.len() {
                    Parsed { tree: Ok(tree), consumed: inner.consumed + 2 }
                } else {
                    Parsed {
                        tree: Err(ParseError::MalformedPattern),
                        consumed: inner.consumed + 1,
                    }
                }
            },
            Err(e) => Parsed { tree: Err(e), consumed: inner.consumed + 1 },
        }
    } else {
        Parsed { tree: Ok(PatternTree::Literal(s[pos as int])), consumed: 1 }
    }
}

/// A term that is parsed goes past at least one character.
pub proof fn lemma_repeated_advances(s: Seq<char>, pos: nat)
    ensures
        repeated(s, pos).tree is Ok ==> repeated(s, pos).consumed >= 1,
        atom(s, pos).tree is Ok ==> atom(s, pos).consumed >= 1,
{
}

/// The result of a parsing step stands for the outcome `tree`.
pub open spec fn stands_for(r: Result<Regex, ParseError>, tree: Result<PatternTree, ParseError>) -> bool {
    match (r, tree) {
        (Ok(found), Ok(wanted)) => found@ == wanted,
        (Err(found), Err(wanted)) => found == wanted,
        _ => false,
    }
}

/// The trees that a list of compiled patterns stands for.
pub open spec fn trees_of(v: Seq<Box<Regex>>) -> Seq<PatternTree> {
    Seq::new(v.len(), |i: int| v[i]@)
}

/// A parser: the pattern's characters and the position reached in them.
pub struct Parser {
    expression: Vec<char>,
    pos: usize,
}

impl Parser {
    /// The characters of the pattern.
    pub closed spec fn text(&self) -> Seq<char> {
        self.expression@
    }

    /// The number of characters that the parser has gone past.
    pub closed spec fn position(&self) -> nat {
        self.pos as nat
    }

    /// A parser at the start of the pattern `ex`.
    pub fn new(ex: String) -> (p: Parser)
        ensures
            p.text() == ex@,
            p.position() == 0,
    {
        Parser { expression: chars_of(ex.as_str()), pos: 0 }
    }

    /// There are characters left to read.
    pub fn has_next(&self) -> (more: bool)
        ensures
            more == (self.position() < self.text().len()),
    {
        self.pos < self.expression.len()
    }

    /// The character at the parser's position.
    pub fn get_next(&self) -> (c: char)
        requires
            self.position() < self.text().len(),
        ensures
            c == self.text()[self.position() as int],
    {
        self.expression[self.pos]
    }

    /// Goes past the character at the parser's position.
    fn step(&mut self)
        requires
            old(self).position() < old(self).text().len(),
        ensures
            final(self).text() == old(self).text(),
            final(self).position() == old(self).position() + 1,
    {
        assert(self.expression@.len() == self.expression.len());
        self.pos = self.pos + 1;
    }

    /// Parses an atom: a group, or a single character.
    pub fn parse_single(&mut self) -> (r: Result<Regex, ParseError>)
        ensures
            final(self).text() == old(self).text(),
            final(self).position() == old(self).position() + atom(
                old(self).text(),
                old(self).position(),
            ).consumed,
            stands_for(r, atom(old(self).text(), old(self).position()).tree),
        decreases unread(old(self).text(), old(self).position()), 0nat,
    {
        if !self.has_next() {
            return Err(ParseError::MalformedPattern);
        }
        if self.get_next() == '(' {
            self.step();
            match self.parse() {
                Ok(tree) => {
                    if !self.has_next() {
                        return Err(ParseError::MalformedPattern);
                    }
                    self.step();
                    Ok(tree)
                },
                Err(e) => Err(e),
            }
        } else {
            let c = self.get_next();
            self.step();
            Ok(Regex::Character(c))
        }
    }

    /// Parses an atom and the repetition marker that may stand behind it.
    pub fn parse_star(&mut self) -> (r: Result<Regex, ParseError>)
        ensures
            final(self).text() == old(self).text(),
            final(self).position() == old(self).position() + repeated(
                old(self).text(),
                old(self).position(),
            ).consumed,
            stands_for(r, repeated(old(self).text(), old(self).position()).tree),
        decreases unread(old(self).text(), old(self).position()), 1nat,
    {
        match self.parse_single() {
            Ok(tree) => {
                if self.has_next() && self.get_next() == '*' {
                    self.step();
                    Ok(Regex::Star(Box::new(tree)))
                } else {
                    Ok(tree)
                }
            },
            Err(e) => Err(e),
        }
    }

    /// Parses a concatenation: a run of terms, and the alternation that may
    /// follow it.
    pub fn parse_pattern(&mut self) -> (r: Result<Regex, ParseError>)
        ensures
            final(self).text() == old(self).text(),
            final(self).position() == old(self).position() + concatenation(
                old(self).text(),
                old(self).position(),
            ).consumed,
            stands_for(r, concatenation(old(self).text(), old(self).position()).tree),
        decreases unread(old(self).text(), old(self).position()), 3nat,
    {
        let ghost s = self.text();
        let ghost start = self.position();
        let mut v: Vec<Box<Regex>> = Vec::new();
        assert(trees_of(v@) =~= Seq::<PatternTree>::empty());
        while self.has_next() && self.get_next() != ')' && self.get_next() != '|'
            invariant
                s == old(self).text(),
                start == old(self).position(),
                self.text() == s,
                start <= self.position(),
                unread(s, self.position()) <= unread(s, start),
                join(
                    ParsedTerms {
                        trees: Ok(trees_of(v@)),
                        consumed: (self.position() - start) as nat,
                    },
                    terms(s, self.position()),
                ) == terms(s, start),
            ensures
                ends_terms(s, self.position()),
            decreases unread(s, self.position()),
        {
            let ghost here = self.position();
            let ghost before = trees_of(v@);
            proof {
                lemma_repeated_advances(s, here);
            }
            match self.parse_star() {
                Ok(tree) => {
                    let ghost added = tree@;
                    v.push(Box::new(tree));
                    proof {
                        assert(trees_of(v@) =~= before + seq![added]);
                        let rest = terms(s, self.position());
                        if rest.trees is Ok {
                            assert(before + (seq![added] + rest.trees->Ok_0) =~= (before
                                + seq![added]) + rest.trees->Ok_0);
                        }
                    }
                },
                Err(e) => {
                    return Err(e);
                },
            }
        }
        proof {
            assert(trees_of(v@) + Seq::<PatternTree>::empty() =~= trees_of(v@));
            assert(Regex::Pattern(v)@ == PatternTree::Concatenation(trees_of(v@))) by {
                assert(Regex::Pattern(v)@->Concatenation_0 =~= trees_of(v@));
            }
        }
        if self.has_next() && self.get_next() == '|' {
            self.step();
            match self.parse_pattern() {
                Ok(right) => Ok(Regex::Or(Box::new(Regex::Pattern(v)), Box::new(right))),
                Err(e) => Err(e),
            }
        } else {
            Ok(Regex::Pattern(v))
        }
    }

    /// Parses an expression. This is where the parsing of a pattern starts.
    pub fn parse(&mut self) -> (r: Result<Regex, ParseError>)
        ensures
            final(self).text() == old(self).text(),
            final(self).position() == old(self).position() + expression(
                old(self).text(),
                old(self).position(),
            ).consumed,
            stands_for(r, expression(old(self).text(), old(self).position()).tree),
        decreases unread(old(self).text(), old(self).position()), 4nat,
    {
        if !self.has_next() {
            return Err(ParseError::MalformedPattern);
        }
        match self.parse_pattern() {
            Ok(left) => {
                if self.has_next() && self.get_next() == '|' {
                    self.step();
                    match self.parse_pattern() {
                        Ok(right) => Ok(Regex::Or(Box::new(left), Box::new(right))),
                        Err(e) => Err(e),
                    }
                } else {
                    Ok(left)
                }
            },
            Err(e) => Err(e),
        }
    }
}

} // verus!
