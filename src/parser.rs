//! A recursive-descent parser for propositional formulas.
//!
//! Grammar, from lowest to highest precedence:
//! `or := and ('|' and)*`, `and := unary ('&' unary)*`,
//! `unary := '~' atom | atom`, `atom := '(' or ')' | symbol`.
//! Symbols are maximal runs of ASCII letters; whitespace before each token is
//! skipped. Input after the first complete formula is left unread.
use vstd::prelude::*;
use crate::expr::{Expr, Prop};

verus! {

/// Why a text is not a formula.
#[derive(Debug, Clone, Copy, PartialEq, Eq, Structural)]
pub enum ParseError {
    /// A `(` whose group is not closed by a `)`.
    UnmatchedParenthesis,
    /// An atom position holds a character that is neither `(` nor a letter.
    UnexpectedSymbol(char),
    /// The text ends where an atom is expected.
    UnexpectedEnd,
}

/// Unicode white space, as `char::is_whitespace` classifies it.
pub open spec fn is_space(c: char) -> bool {
    ||| '\u{9}' <= c <= '\u{d}'
    ||| c == ' '
    ||| c == '\u{85}'
    ||| c == '\u{a0}'
    ||| c == '\u{1680}'
    ||| '\u{2000}' <= c <= '\u{200a}'
    ||| c == '\u{2028}'
    ||| c == '\u{2029}'
    ||| c == '\u{202f}'
    ||| c == '\u{205f}'
    ||| c == '\u{3000}'
}

/// The characters a symbol is made of.
pub open spec fn is_letter(c: char) -> bool {
    ('a' <= c <= 'z') || ('A' <= c <= 'Z')
}

/// How much of `s` remains from position `i`.
pub open spec fn left(s: Seq<char>, i: nat) -> nat {
    if i <= s.len() {
        (s.len() - i) as nat
    } else {
        0
    }
}

/// The length of the run of white space that starts at `i`.
pub open spec fn space_run(s: Seq<char>, i: nat) -> nat
    decreases left(s, i),
{
    if i < s.len() && is_space(s[i as int]) {
        1 + space_run(s, i + 1)
    } else {
        0
    }
}

/// The length of the run of letters that starts at `i`.
pub open spec fn letter_run(s: Seq<char>, i: nat) -> nat
    decreases left(s, i),
{
    if i < s.len() && is_letter(s[i as int]) {
        1 + letter_run(s, i + 1)
    } else {
        0
    }
}

/// An atom at position `i` of `s`: the formula and how many characters it
/// takes, or why there is none.
pub open spec fn atom_at(s: Seq<char>, i: nat) -> Result<(Prop, nat), ParseError>
    decreases left(s, i), 0nat,
{
    let k = i + space_run(s, i);
    if k >= s.len() {
        Err(ParseError::UnexpectedEnd)
    } else if s[k as int] == '(' {
        match or_at(s, k + 1) {
            Ok((p, n)) => {
                let m = k + 1 + n;
                let q = m + space_run(s, m);
                if q < s.len() && s[q as int] == ')' {
                    Ok((p, (q + 1 - i) as nat))
                } else {
                    Err(ParseError::UnmatchedParenthesis)
                }
            },
            Err(e) => Err(e),
        }
    } else if is_letter(s[k as int]) {
        let w = letter_run(s, k);
        Ok((Prop::Sym(s.subrange(k as int, (k + w) as int)), (k + w - i) as nat))
    } else {
        Err(ParseError::UnexpectedSymbol(s[k as int]))
    }
}

/// A unary formula at position `i`: an atom, negated if a `~` comes first.
pub open spec fn unary_at(s: Seq<char>, i: nat) -> Result<(Prop, nat), ParseError>
    decreases left(s, i), 1nat,
{
    let k = i + space_run(s, i);
    if k < s.len() && s[k as int] == '~' {
        match atom_at(s, k + 1) {
            Ok((p, n)) => Ok((Prop::Not(Box::new(p)), (k + 1 + n - i) as nat)),
            Err(e) => Err(e),
        }
    } else {
        match atom_at(s, k) {
            Ok((p, n)) => Ok((p, (k + n - i) as nat)),
            Err(e) => Err(e),
        }
    }
}

/// The `('&' unary)*` that follows a left operand `l` at position `j`.
pub open spec fn and_rest(s: Seq<char>, l: Prop, j: nat) -> Result<(Prop, nat), ParseError>
    decreases left(s, j), 2nat,
{
    let k = j + space_run(s, j);
    if k < s.len() && s[k as int] == '&' {
        match unary_at(s, k + 1) {
            Ok((r, n)) => match and_rest(s, Prop::And(Box::new(l), Box::new(r)), k + 1 + n) {
                Ok((p, m)) => Ok((p, (k + 1 + n + m - j) as nat)),
                Err(e) => Err(e),
            },
            Err(e) => Err(e),
        }
    } else {
        Ok((l, (k - j) as nat))
    }
}

/// A conjunction chain at position `i`, grouped to the left.
pub open spec fn and_at(s: Seq<char>, i: nat) -> Result<(Prop, nat), ParseError>
    decreases left(s, i), 3nat,
{
    match unary_at(s, i) {
        Ok((l, n)) => match and_rest(s, l, i + n) {
            Ok((p, m)) => Ok((p, n + m)),
            Err(e) => Err(e),
        },
        Err(e) => Err(e),
    }
}

/// The `('|' and)*` that follows a left operand `l` at position `j`.
pub open spec fn or_rest(s: Seq<char>, l: Prop, j: nat) -> Result<(Prop, nat), ParseError>
    decreases left(s, j), 4nat,
{
    let k = j + space_run(s, j);
    if k < s.len() && s[k as int] == '|' {
        match and_at(s, k + 1) {
            Ok((r, n)) => match or_rest(s, Prop::Or(Box::new(l), Box::new(r)), k + 1 + n) {
                Ok((p, m)) => Ok((p, (k + 1 + n + m - j) as nat)),
                Err(e) => Err(e),
            },
            Err(e) => Err(e),
        }
    } else {
        Ok((l, (k - j) as nat))
    }
}

/// A disjunction chain at position `i`, grouped to the left.
pub open spec fn or_at(s: Seq<char>, i: nat) -> Result<(Prop, nat), ParseError>
    decreases left(s, i), 5nat,
{
    match and_at(s, i) {
        Ok((l, n)) => match or_rest(s, l, i + n) {
            Ok((p, m)) => Ok((p, n + m)),
            Err(e) => Err(e),
        },
        Err(e) => Err(e),
    }
}

/// The formula that a text starts with, or why it does not start with one.
pub open spec fn parsed(s: Seq<char>) -> Result<Prop, ParseError> {
    match or_at(s, 0) {
        Ok((p, _)) => Ok(p),
        Err(e) => Err(e),
    }
}

/// A parse result moved `d` characters further from where its count starts.
pub open spec fn shifted(g: Result<(Prop, nat), ParseError>, d: nat) -> Result<(Prop, nat), ParseError> {
    match g {
        Ok((p, m)) => Ok((p, d + m)),
        Err(e) => Err(e),
    }
}

/// What `r` says of a parse that started at `start` and left the reader at
/// `end`, given what the grammar says of that position.
pub open spec fn agrees(
    r: Result<Expr, ParseError>,
    g: Result<(Prop, nat), ParseError>,
    start: usize,
    end: usize,
) -> bool {
    match g {
        Ok((p, n)) => r is Ok && r->Ok_0@ == p && end == start + n,
        Err(e) => r == Err::<Expr, ParseError>(e),
    }
}

/// Tells white space apart, as `char::is_whitespace` does.
fn is_whitespace(c: char) -> (r: bool)
    ensures
        r == is_space(c),
{
    ('\u{9}' <= c && c <= '\u{d}') || c == ' ' || c == '\u{85}' || c == '\u{a0}' || c
        == '\u{1680}' || ('\u{2000}' <= c && c <= '\u{200a}') || c == '\u{2028}' || c
        == '\u{2029}' || c == '\u{202f}' || c == '\u{205f}' || c == '\u{3000}'
}

/// Tells the letters of a symbol apart.
fn is_alphabetic(c: char) -> (r: bool)
    ensures
        r == is_letter(c),
{
    ('a' <= c && c <= 'z') || ('A' <= c && c <= 'Z')
}

/// A reader over the characters of a text.
struct Parser<'a> {
    text: &'a str,
    input: Vec<char>,
    pos: usize,
}

impl<'a> Parser<'a> {
    spec fn wf(&self) -> bool {
        &&& self.input@ == self.text@
        &&& self.pos <= self.input.len()
    }

    fn new(input: &'a str) -> (p: Self)
        ensures
            p.wf(),
            p.text == input,
            p.pos == 0,
    {
        broadcast use vstd::string::group_string_axioms;

        let mut chars: Vec<char> = Vec::new();
        for c in it: input.chars()
            invariant
                chars@ == it.seq().take(it.index() as int),
                it.seq() == input@,
        {
            chars.push(c);
        }
        assert(chars@ =~= input@);
        Parser { text: input, input: chars, pos: 0 }
    }

    /// Moves past the white space at the reading position.
    fn skip_whitespace(&mut self)
        requires
            old(self).wf(),
        ensures
            final(self).wf(),
            final(self).text == old(self).text,
            final(self).pos == old(self).pos + space_run(old(self).input@, old(self).pos as nat),
    {
        let ghost s = self.input@;
        let ghost start = self.pos as nat;
        while self.pos < self.input.len() && is_whitespace(self.input[self.pos])
            invariant
                self.wf(),
                self.text == old(self).text,
                self.input@ == s,
                start + space_run(s, start) == self.pos + space_run(s, self.pos as nat),
            decreases self.input.len() - self.pos,
        {
            self.pos = self.pos + 1;
        }
    }

    /// Skips white space, then takes `expected` if it comes next.
    fn consume_next(&mut self, expected: char) -> (r: bool)
        requires
            old(self).wf(),
        ensures
            final(self).wf(),
            final(self).text == old(self).text,
            ({
                let s = old(self).input@;
                let k = old(self).pos + space_run(s, old(self).pos as nat);
                &&& r == (k < s.len() && s[k] == expected)
                &&& final(self).pos == if r { k + 1 } else { k }
            }),
    {
        self.skip_whitespace();
        if self.pos < self.input.len() && self.input[self.pos] == expected {
            self.pos = self.pos + 1;
            true
        } else {
            false
        }
    }

    /// Reads an atom: a parenthesized formula or a symbol.
    fn parse_atom(&mut self) -> (r: Result<Expr, ParseError>)
        requires
            old(self).wf(),
        ensures
            final(self).wf(),
            final(self).text == old(self).text,
            agrees(r, atom_at(old(self).input@, old(self).pos as nat), old(self).pos, final(self).pos),
        decreases left(self.input@, self.pos as nat), 0nat,
    {
        self.skip_whitespace();
        if self.pos >= self.input.len() {
            return Err(ParseError::UnexpectedEnd);
        }
        let c = self.input[self.pos];
        if c == '(' {
            self.pos = self.pos + 1;
            let e = match self.parse_or() {
                Ok(e) => e,
                Err(err) => return Err(err),
            };
            if !self.consume_next(')') {
                return Err(ParseError::UnmatchedParenthesis);
            }
            Ok(e)
        } else if is_alphabetic(c) {
            let ghost s = self.input@;
            let start = self.pos;
            while self.pos < self.input.len() && is_alphabetic(self.input[self.pos])
                invariant
                    self.wf(),
                    self.text == old(self).text,
                    self.input@ == s,
                    start <= self.pos,
                    start + letter_run(s, start as nat) == self.pos + letter_run(s, self.pos as nat),
                decreases self.input.len() - self.pos,
            {
                self.pos = self.pos + 1;
            }
            let name = String::from_str(self.text.substring_char(start, self.pos));
            Ok(Expr::Sym(name))
        } else {
            Err(ParseError::UnexpectedSymbol(c))
        }
    }

    /// Reads an atom, negated if a `~` comes first.
    fn parse_unary(&mut self) -> (r: Result<Expr, ParseError>)
        requires
            old(self).wf(),
        ensures
            final(self).wf(),
            final(self).text == old(self).text,
            agrees(r, unary_at(old(self).input@, old(self).pos as nat), old(self).pos, final(self).pos),
        decreases left(self.input@, self.pos as nat), 1nat,
    {
        if self.consume_next('~') {
            match self.parse_atom() {
                Ok(e) => Ok(Expr::Not(Box::new(e))),
                Err(err) => Err(err),
            }
        } else {
            self.parse_atom()
        }
    }

    /// Reads a chain of unary formulas joined by `&`, grouped to the left.
    fn parse_and(&mut self) -> (r: Result<Expr, ParseError>)
        requires
            old(self).wf(),
        ensures
            final(self).wf(),
            final(self).text == old(self).text,
            agrees(r, and_at(old(self).input@, old(self).pos as nat), old(self).pos, final(self).pos),
        decreases left(self.input@, self.pos as nat), 3nat,
    {
        let ghost s = self.input@;
        let ghost start = self.pos as nat;
        let mut l = match self.parse_unary() {
            Ok(e) => e,
            Err(err) => return Err(err),
        };
        loop
            invariant
                self.wf(),
                self.text == old(self).text,
                self.input@ == s,
                start <= self.pos,
                start <= s.len(),
                s == old(self).input@,
                start == old(self).pos,
                and_at(s, start) == shifted(and_rest(s, l@, self.pos as nat), (self.pos - start) as nat),
            decreases left(s, self.pos as nat),
        {
            let ghost j = self.pos as nat;
            if !self.consume_next('&') {
                // no operator follows: the chain ends here
                assert(and_rest(s, l@, j) == Ok::<(Prop, nat), ParseError>((l@, (self.pos - j) as nat)));
                return Ok(l);
            }
            let r = match self.parse_unary() {
                Ok(e) => e,
                Err(err) => return Err(err),
            };
            l = Expr::And(Box::new(l), Box::new(r));
        }
    }

    /// Reads a chain of conjunctions joined by `|`, grouped to the left.
    fn parse_or(&mut self) -> (r: Result<Expr, ParseError>)
        requires
            old(self).wf(),
        ensures
            final(self).wf(),
            final(self).text == old(self).text,
            agrees(r, or_at(old(self).input@, old(self).pos as nat), old(self).pos, final(self).pos),
        decreases left(self.input@, self.pos as nat), 5nat,
    {
        let ghost s = self.input@;
        let ghost start = self.pos as nat;
        let mut l = match self.parse_and() {
            Ok(e) => e,
            Err(err) => return Err(err),
        };
        loop
            invariant
                self.wf(),
                self.text == old(self).text,
                self.input@ == s,
                start <= self.pos,
                start <= s.len(),
                s == old(self).input@,
                start == old(self).pos,
                or_at(s, start) == shifted(or_rest(s, l@, self.pos as nat), (self.pos - start) as nat),
            decreases left(s, self.pos as nat),
        {
            let ghost j = self.pos as nat;
            if !self.consume_next('|') {
                // no operator follows: the chain ends here
                assert(or_rest(s, l@, j) == Ok::<(Prop, nat), ParseError>((l@, (self.pos - j) as nat)));
                return Ok(l);
            }
            let r = match self.parse_and() {
                Ok(e) => e,
                Err(err) => return Err(err),
            };
            l = Expr::Or(Box::new(l), Box::new(r));
        }
    }
}

impl<'a> Parser<'a> {
    /// Reads one formula from the reading position.
    fn parse(&mut self) -> (r: Result<Expr, ParseError>)
        requires
            old(self).wf(),
        ensures
            final(self).wf(),
            agrees(r, or_at(old(self).input@, old(self).pos as nat), old(self).pos, final(self).pos),
    {
        self.parse_or()
    }
}

/// Parses the formula that `expr` starts with. What follows a complete
/// formula is not read.
pub fn parse_expression(expr: &str) -> (r: Result<Expr, ParseError>)
    ensures
        match parsed(expr@) {
            Ok(p) => r is Ok && r->Ok_0@ == p,
            Err(e) => r == Err::<Expr, ParseError>(e),
        },
{
    let mut parser = Parser::new(expr);
    parser.parse()
}

} // verus!
