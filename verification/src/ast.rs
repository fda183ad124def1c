//! The regular-expression abstract syntax tree and the parser that
//! produces it from a pattern string.

use vstd::prelude::*;
use vstd::std_specs::iter::IteratorSpec;

verus! {

/// A regular-expression abstract syntax tree. Each node exclusively owns
/// its children; the tree is never shared or cyclic.
#[derive(Debug, PartialEq, Eq)]
pub enum RegexAST {
    /// Sequential composition: the left language immediately followed by
    /// the right one.
    Cat(Box<RegexAST>, Box<RegexAST>),
    /// Exactly one occurrence of one specific character.
    Raw(char),
    /// Any single character.
    Any,
    /// Either the left language or the right one.
    Join(Box<RegexAST>, Box<RegexAST>),
    /// Zero or more consecutive occurrences of the inner language.
    Star(Box<RegexAST>),
    /// The empty string; the identity of both combination operations.
    Empty,
}

/// Sequential combination with `Empty` as identity: if either operand is
/// `Empty` the other is returned unchanged, otherwise a `Cat` node.
pub open spec fn spec_chain(a: RegexAST, b: RegexAST) -> RegexAST {
    if a is Empty {
        b
    } else if b is Empty {
        a
    } else {
        RegexAST::Cat(Box::new(a), Box::new(b))
    }
}

/// Alternative combination with `Empty` as identity: if either operand is
/// `Empty` the other is returned unchanged, otherwise a `Join` node.
pub open spec fn spec_join(a: RegexAST, b: RegexAST) -> RegexAST {
    if a is Empty {
        b
    } else if b is Empty {
        a
    } else {
        RegexAST::Join(Box::new(a), Box::new(b))
    }
}

/// `Empty` is a left and right identity of `spec_chain`.
pub proof fn lemma_chain_identity(a: RegexAST)
    ensures
        spec_chain(RegexAST::Empty, a) == a,
        spec_chain(a, RegexAST::Empty) == a,
{
}

/// `Empty` is a left and right identity of `spec_join`.
pub proof fn lemma_join_identity(a: RegexAST)
    ensures
        spec_join(RegexAST::Empty, a) == a,
        spec_join(a, RegexAST::Empty) == a,
{
}

/// The ambient default combinator of a parsing frame: alternation under
/// charset polarity, concatenation under sequence polarity.
pub open spec fn spec_combine(charset: bool, a: RegexAST, b: RegexAST) -> RegexAST {
    if charset {
        spec_join(a, b)
    } else {
        spec_chain(a, b)
    }
}

/// The inverse of the ambient default combinator: concatenation under
/// charset polarity, alternation under sequence polarity.
pub open spec fn spec_combine_inverse(charset: bool, a: RegexAST, b: RegexAST) -> RegexAST {
    if charset {
        spec_chain(a, b)
    } else {
        spec_join(a, b)
    }
}

/// The closing delimiter a bounded frame of the given polarity stops at.
pub open spec fn spec_closing(charset: bool) -> char {
    if charset {
        ']'
    } else {
        ')'
    }
}

/// Clamps a resumption index into `[lo, hi]`. The parser resumes a frame
/// at the index a nested frame returned; that index always lies in the
/// interval already, so this is the identity wherever it is applied, but
/// stating it makes the recursion below visibly well founded.
pub open spec fn spec_resume(j: int, lo: int, hi: int) -> int {
    if j < lo {
        lo
    } else if j > hi {
        hi
    } else {
        j
    }
}

/// One literal-escape frame, entered after a `{` has been consumed.
/// Scans `s` from `i` with brace-nesting depth `depth`; every character is
/// literal content combined by the ambient default combinator, except that
/// the closing `}` which brings the depth to zero is stripped. Returns the
/// accumulated tree and the index of the first unconsumed character.
pub open spec fn spec_escape(
    s: Seq<char>,
    i: int,
    acc: RegexAST,
    depth: int,
    charset: bool,
) -> (RegexAST, int)
    decreases s.len() - i,
{
    if !(0 <= i < s.len()) {
        (acc, i)
    } else {
        let c = s[i];
        let d2: int = if c == '{' {
            depth + 1
        } else if c == '}' {
            depth - 1
        } else {
            depth
        };
        if d2 == 0 {
            (acc, i + 1)
        } else {
            spec_escape(s, i + 1, spec_combine(charset, acc, RegexAST::Raw(c)), d2, charset)
        }
    }
}

/// One structural parsing frame. Scans `s` from `i` with accumulator
/// `acc`; `charset` is the frame's polarity and `bounded` says whether the
/// frame stops at the polarity's closing delimiter or runs to the end of
/// the input. Returns the accumulated tree and the index of the first
/// unconsumed character.
///
/// Ordinary characters and `.` merge by the ambient default combinator;
/// `*` wraps the whole accumulator so far; `(` opens a nested bounded
/// frame of the same polarity and `[` one of inverted polarity, both
/// merged by the ambient default combinator; `|` opens a nested frame of
/// the same polarity and boundedness and `{` a literal-escape frame, both
/// merged by the inverse combinator.
pub open spec fn spec_normal(
    s: Seq<char>,
    i: int,
    acc: RegexAST,
    charset: bool,
    bounded: bool,
) -> (RegexAST, int)
    decreases s.len() - i,
{
    if !(0 <= i < s.len()) {
        (acc, i)
    } else {
        let c = s[i];
        if c == '{' {
            let (x, j) = spec_escape(s, i + 1, RegexAST::Empty, 1, charset);
            spec_normal(
                s,
                spec_resume(j, i + 1, s.len() as int),
                spec_combine_inverse(charset, acc, x),
                charset,
                bounded,
            )
        } else if c == '(' {
            let (x, j) = spec_normal(s, i + 1, RegexAST::Empty, charset, true);
            spec_normal(
                s,
                spec_resume(j, i + 1, s.len() as int),
                spec_combine(charset, acc, x),
                charset,
                bounded,
            )
        } else if c == '[' {
            let (x, j) = spec_normal(s, i + 1, RegexAST::Empty, !charset, true);
            spec_normal(
                s,
                spec_resume(j, i + 1, s.len() as int),
                spec_combine(charset, acc, x),
                charset,
                bounded,
            )
        } else if c == '|' {
            let (x, j) = spec_normal(s, i + 1, RegexAST::Empty, charset, bounded);
            spec_normal(
                s,
                spec_resume(j, i + 1, s.len() as int),
                spec_combine_inverse(charset, acc, x),
                charset,
                bounded,
            )
        } else if c == '*' {
            spec_normal(s, i + 1, RegexAST::Star(Box::new(acc)), charset, bounded)
        } else if bounded && c == spec_closing(charset) {
            (acc, i + 1)
        } else if c == '.' {
            spec_normal(s, i + 1, spec_combine(charset, acc, RegexAST::Any), charset, bounded)
        } else {
            spec_normal(s, i + 1, spec_combine(charset, acc, RegexAST::Raw(c)), charset, bounded)
        }
    }
}

/// What parsing a whole pattern yields: the outermost frame, with
/// sequence polarity, unbounded, starting from an empty accumulator.
pub open spec fn spec_parse(s: Seq<char>) -> RegexAST {
    spec_normal(s, 0, RegexAST::Empty, false, false).0
}

impl RegexAST {
    /// Combine two trees sequentially, collapsing `Empty` operands away.
    pub fn chain(self, rhs: RegexAST) -> (r: RegexAST)
        ensures
            r == spec_chain(self, rhs),
    {
        match (self, rhs) {
            (RegexAST::Empty, RegexAST::Empty) => RegexAST::Empty,
            (RegexAST::Empty, rhs) => rhs,
            (lhs, RegexAST::Empty) => lhs,
            (lhs, rhs) => RegexAST::Cat(Box::new(lhs), Box::new(rhs)),
        }
    }

    /// Combine two trees as alternatives, collapsing `Empty` operands away.
    pub fn join(self, rhs: RegexAST) -> (r: RegexAST)
        ensures
            r == spec_join(self, rhs),
    {
        match (self, rhs) {
            (RegexAST::Empty, RegexAST::Empty) => RegexAST::Empty,
            (RegexAST::Empty, rhs) => rhs,
            (lhs, RegexAST::Empty) => lhs,
            (lhs, rhs) => RegexAST::Join(Box::new(lhs), Box::new(rhs)),
        }
    }

    /// The frame's ambient default combinator, chosen by its polarity.
    fn combine(charset: bool, a: RegexAST, b: RegexAST) -> (r: RegexAST)
        ensures
            r == spec_combine(charset, a, b),
    {
        if charset {
            a.join(b)
        } else {
            a.chain(b)
        }
    }

    /// The inverse of the frame's ambient default combinator.
    fn combine_inverse(charset: bool, a: RegexAST, b: RegexAST) -> (r: RegexAST)
        ensures
            r == spec_combine_inverse(charset, a, b),
    {
        if charset {
            a.chain(b)
        } else {
            a.join(b)
        }
    }

    /// A literal-escape frame: everything up to the depth-balancing `}` is
    /// literal content. The depth counter is wider than any possible input
    /// length, so it cannot overflow.
    fn escape_mode(input: &Vec<char>, i: usize, acc: RegexAST, depth: u128, charset: bool) -> (r: (
        RegexAST,
        usize,
    ))
        requires
            i <= input.len(),
            1 <= depth <= i + 1,
        ensures
            i <= r.1 <= input.len(),
            (r.0, r.1 as int) == spec_escape(input@, i as int, acc, depth as int, charset),
        decreases input.len() - i,
    {
        if i >= input.len() {
            return (acc, i);
        }
        let c = input[i];
        let d2: u128 = if c == '{' {
            depth + 1
        } else if c == '}' {
            depth - 1
        } else {
            depth
        };
        if d2 == 0 {
            (acc, i + 1)
        } else {
            Self::escape_mode(input, i + 1, Self::combine(charset, acc, RegexAST::Raw(c)), d2, charset)
        }
    }

    /// A structural parsing frame, scanning from `i` with accumulator
    /// `acc`; see `spec_normal` for the token-by-token behaviour.
    fn normal_mode(input: &Vec<char>, i: usize, acc: RegexAST, charset: bool, bounded: bool) -> (r:
        (RegexAST, usize))
        requires
            i <= input.len(),
        ensures
            i <= r.1 <= input.len(),
            (r.0, r.1 as int) == spec_normal(input@, i as int, acc, charset, bounded),
        decreases input.len() - i,
    {
        if i >= input.len() {
            return (acc, i);
        }
        let c = input[i];
        if c == '{' {
            let (x, j) = Self::escape_mode(input, i + 1, RegexAST::Empty, 1, charset);
            Self::normal_mode(input, j, Self::combine_inverse(charset, acc, x), charset, bounded)
        } else if c == '(' {
            let (x, j) = Self::normal_mode(input, i + 1, RegexAST::Empty, charset, true);
            Self::normal_mode(input, j, Self::combine(charset, acc, x), charset, bounded)
        } else if c == '[' {
            let (x, j) = Self::normal_mode(input, i + 1, RegexAST::Empty, !charset, true);
            Self::normal_mode(input, j, Self::combine(charset, acc, x), charset, bounded)
        } else if c == '|' {
            let (x, j) = Self::normal_mode(input, i + 1, RegexAST::Empty, charset, bounded);
            Self::normal_mode(input, j, Self::combine_inverse(charset, acc, x), charset, bounded)
        } else if c == '*' {
            Self::normal_mode(input, i + 1, RegexAST::Star(Box::new(acc)), charset, bounded)
        } else if bounded && c == (if charset { ']' } else { ')' }) {
            (acc, i + 1)
        } else if c == '.' {
            Self::normal_mode(input, i + 1, Self::combine(charset, acc, RegexAST::Any), charset, bounded)
        } else {
            Self::normal_mode(input, i + 1, Self::combine(charset, acc, RegexAST::Raw(c)), charset, bounded)
        }
    }

    /// Parse a pattern into its syntax tree. Total: every input, including
    /// one with unbalanced delimiters, yields some tree.
    pub fn new(input: &str) -> (r: Box<RegexAST>)
        ensures
            *r == spec_parse(input@),
    {
        let v = to_char_vec(input);
        let (ast, _) = Self::normal_mode(&v, 0, RegexAST::Empty, false, false);
        Box::new(ast)
    }
}

/// The textual rendering of a tree: `.` for the wildcard, the character
/// itself for a literal, the Greek epsilon for the empty tree, and
/// parenthesised forms for concatenation, alternation and repetition.
pub open spec fn spec_text(ast: RegexAST) -> Seq<char>
    decreases ast,
{
    match ast {
        RegexAST::Any => seq!['.'],
        RegexAST::Cat(a, b) => seq!['('] + spec_text(*a) + seq![')', '('] + spec_text(*b)
            + seq![')'],
        RegexAST::Raw(c) => seq![c],
        RegexAST::Join(a, b) => seq!['('] + spec_text(*a) + seq!['|'] + spec_text(*b) + seq![')'],
        RegexAST::Star(a) => seq!['('] + spec_text(*a) + seq!['*', ')'],
        RegexAST::Empty => seq!['\u{03b5}'],
    }
}

impl RegexAST {
    /// Render the tree as text, as `spec_text` lays it out.
    pub fn to_text(&self) -> (r: String)
        ensures
            r@ == spec_text(*self),
    {
        let mut out = String::new();
        self.write_text(&mut out);
        proof {
            assert(out@ =~= spec_text(*self));
        }
        out
    }

    /// Append the rendering of this tree to `out`.
    fn write_text(&self, out: &mut String)
        ensures
            final(out)@ == old(out)@ + spec_text(*self),
        decreases *self,
    {
        match self {
            RegexAST::Any => {
                crate::push_char(out, '.');
            },
            RegexAST::Cat(a, b) => {
                crate::push_char(out, '(');
                a.write_text(out);
                crate::push_char(out, ')');
                crate::push_char(out, '(');
                b.write_text(out);
                crate::push_char(out, ')');
            },
            RegexAST::Raw(c) => {
                crate::push_char(out, *c);
            },
            RegexAST::Join(a, b) => {
                crate::push_char(out, '(');
                a.write_text(out);
                crate::push_char(out, '|');
                b.write_text(out);
                crate::push_char(out, ')');
            },
            RegexAST::Star(a) => {
                crate::push_char(out, '(');
                a.write_text(out);
                crate::push_char(out, '*');
                crate::push_char(out, ')');
            },
            RegexAST::Empty => {
                crate::push_char(out, '\u{03b5}');
            },
        }
        proof {
            assert(out@ =~= old(out)@ + spec_text(*self));
        }
    }
}

/// Collects the characters of a string slice into a vector, in order.
fn to_char_vec(s: &str) -> (v: Vec<char>)
    ensures
        v@ == s@,
{
    let mut v: Vec<char> = Vec::new();
    let mut it = s.chars();
    loop
        invariant
            it.decrease() is Some,
            v@ + it.remaining() == s@,
        ensures
            v@ == s@,
        decreases it.decrease()->0,
    {
        match it.next() {
            Some(c) => {
                v.push(c);
            },
            None => {
                proof {
                    assert(v@ + it.remaining() =~= v@);
                }
                break ;
            },
        }
    }
    v
}

} // verus!
