//! Lexical tokens and their mathematical views.
use vstd::prelude::*;

verus! {

/// A decimal number as written: an optional sign, the digits before the
/// point and the digits after it (each a value from 0 to 9).
#[derive(Clone, Debug, PartialEq, Eq)]
pub struct Number {
    pub negative: bool,
    pub whole: Vec<u8>,
    pub frac: Vec<u8>,
}

pub struct NumberView {
    pub negative: bool,
    pub whole: Seq<u8>,
    pub frac: Seq<u8>,
}

/// One lexical unit.
#[derive(Clone, Debug, PartialEq, Eq)]
pub enum Token {
    /// An identifier.
    Symbol(Vec<char>),
    Number(Number),
    /// Reserved: no rule produces it yet.
    String(Vec<char>),
    /// A maximal run of operator characters.
    Operator(Vec<char>),
    Separator(char),
    /// A run of whitespace, kept so that the source can be rebuilt; its
    /// length is the number of whitespace characters in the run.
    Whitespace,
    /// "This rule does not apply here": always paired with a length of zero.
    Blank,
    /// A character that no rule accepts, kept by the recovering lexer.
    Unrecognized(char),
}

pub enum TokenView {
    Symbol(Seq<char>),
    Number(NumberView),
    String(Seq<char>),
    Operator(Seq<char>),
    Separator(char),
    Whitespace,
    Blank,
    Unrecognized(char),
}

impl DeepView for Number {
    type V = NumberView;

    open spec fn deep_view(&self) -> NumberView {
        NumberView { negative: self.negative, whole: self.whole@, frac: self.frac@ }
    }
}

impl DeepView for Token {
    type V = TokenView;

    open spec fn deep_view(&self) -> TokenView {
        match self {
            Token::Symbol(t) => TokenView::Symbol(t@),
            Token::Number(n) => TokenView::Number(n.deep_view()),
            Token::String(t) => TokenView::String(t@),
            Token::Operator(t) => TokenView::Operator(t@),
            Token::Separator(c) => TokenView::Separator(*c),
            Token::Whitespace => TokenView::Whitespace,
            Token::Blank => TokenView::Blank,
            Token::Unrecognized(c) => TokenView::Unrecognized(*c),
        }
    }
}

/// The value of a sequence of decimal digits, most significant first.
pub open spec fn digits_value(d: Seq<u8>) -> nat
    decreases d.len(),
{
    if d.len() == 0 {
        0
    } else {
        10 * digits_value(d.drop_last()) + d.last() as nat
    }
}

/// `10` to the power `k`.
pub open spec fn pow10(k: nat) -> nat
    decreases k,
{
    if k == 0 {
        1
    } else {
        10 * pow10((k - 1) as nat)
    }
}

impl NumberView {
    /// The number is `numerator() / denominator()`.
    pub open spec fn denominator(self) -> nat {
        pow10(self.frac.len())
    }

    pub open spec fn numerator(self) -> int {
        let m = (digits_value(self.whole) * pow10(self.frac.len()) + digits_value(self.frac)) as int;
        if self.negative {
            -m
        } else {
            m
        }
    }
}


fn copy_chars(v: &Vec<char>) -> (r: Vec<char>)
    ensures
        r@ == v@,
{
    let mut r: Vec<char> = Vec::new();
    let mut i: usize = 0;
    while i < v.len()
        invariant
            i <= v@.len(),
            r@ == v@.take(i as int),
        decreases v@.len() - i,
    {
        r.push(v[i]);
        assert(v@.take(i + 1) =~= v@.take(i as int).push(v@[i as int]));
        i = i + 1;
    }
    assert(v@.take(i as int) =~= v@);
    r
}

fn copy_digits(v: &Vec<u8>) -> (r: Vec<u8>)
    ensures
        r@ == v@,
{
    let mut r: Vec<u8> = Vec::new();
    let mut i: usize = 0;
    while i < v.len()
        invariant
            i <= v@.len(),
            r@ == v@.take(i as int),
        decreases v@.len() - i,
    {
        r.push(v[i]);
        assert(v@.take(i + 1) =~= v@.take(i as int).push(v@[i as int]));
        i = i + 1;
    }
    assert(v@.take(i as int) =~= v@);
    r
}

impl Number {
    pub fn duplicate(&self) -> (r: Number)
        ensures
            r.deep_view() == self.deep_view(),
    {
        Number { negative: self.negative, whole: copy_digits(&self.whole), frac: copy_digits(&self.frac) }
    }
}

impl Token {
    /// The number this token holds, if it is a number.
    pub fn number(&self) -> (r: Option<&Number>)
        ensures
            r matches Some(n) <==> self is Number,
            r matches Some(n) ==> *self == Token::Number(*n),
    {
        match self {
            Token::Number(n) => Some(n),
            _ => None,
        }
    }

    /// A token equal to this one.
    pub fn duplicate(&self) -> (r: Token)
        ensures
            r.deep_view() == self.deep_view(),
    {
        match self {
            Token::Symbol(t) => Token::Symbol(copy_chars(t)),
            Token::Number(n) => Token::Number(n.duplicate()),
            Token::String(t) => Token::String(copy_chars(t)),
            Token::Operator(t) => Token::Operator(copy_chars(t)),
            Token::Separator(c) => Token::Separator(*c),
            Token::Whitespace => Token::Whitespace,
            Token::Blank => Token::Blank,
            Token::Unrecognized(c) => Token::Unrecognized(*c),
        }
    }

    pub fn is_blank(&self) -> (r: bool)
        ensures
            r == (self is Blank),
    {
        match self {
            Token::Blank => true,
            _ => false,
        }
    }
}

} // verus!
