//! The token rules: numbers, symbols, operators and separators.
//!
//! Each rule reads from the front of its input and always succeeds: when it
//! does not apply it returns `Token::Blank` with a length of zero.
use vstd::prelude::*;
use vstd::slice::slice_subrange;
use crate::combinator::{run_len, Mapped, Parser, Transform};
use crate::token::{Number, NumberView, Token, TokenView};

verus! {

pub open spec fn is_digit(c: char) -> bool {
    '0' <= c <= '9'
}

pub open spec fn digit_class() -> spec_fn(char) -> bool {
    |c: char| is_digit(c)
}

/// First character of a symbol: an ASCII letter or `_`.
pub open spec fn is_ident_start(c: char) -> bool {
    c == '_' || ('A' <= c <= 'Z') || ('a' <= c <= 'z')
}

/// Later characters of a symbol: an ASCII letter, a digit or `_`.
pub open spec fn is_ident_char(c: char) -> bool {
    is_ident_start(c) || is_digit(c)
}

pub open spec fn ident_class() -> spec_fn(char) -> bool {
    |c: char| is_ident_char(c)
}

/// The operator characters `: = + - / * ^ & % | < > !`.
pub open spec fn is_operator_char(c: char) -> bool {
    c == ':' || c == '=' || c == '+' || c == '-' || c == '/' || c == '*' || c == '^' || c == '&'
        || c == '%' || c == '|' || c == '<' || c == '>' || c == '!'
}

pub open spec fn operator_class() -> spec_fn(char) -> bool {
    |c: char| is_operator_char(c)
}

/// The separator characters `, . ( ) { } [ ]`.
pub open spec fn is_separator_char(c: char) -> bool {
    c == ',' || c == '.' || c == '(' || c == ')' || c == '{' || c == '}' || c == '[' || c == ']'
}

/// The digit values of a sequence of digit characters.
pub open spec fn digit_values(s: Seq<char>) -> Seq<u8> {
    s.map_values(|c: char| (c as u32 - '0' as u32) as u8)
}

/// The value of a sequence of digit characters, most significant first.
pub open spec fn decimal_value(s: Seq<char>) -> nat
    decreases s.len(),
{
    if s.len() == 0 {
        0
    } else {
        10 * decimal_value(s.drop_last()) + (s.last() as u32 - '0' as u32) as nat
    }
}

pub open spec fn spec_natural(s: Seq<char>) -> (TokenView, nat) {
    let n = run_len(s, digit_class());
    if n == 0 {
        (TokenView::Blank, 0)
    } else {
        (
            TokenView::Number(
                NumberView { negative: false, whole: digit_values(s.take(n as int)), frac: seq![] },
            ),
            n,
        )
    }
}

/// A number token with its sign flipped; any other token unchanged.
pub open spec fn negate_view(t: TokenView) -> TokenView {
    match t {
        TokenView::Number(v) => TokenView::Number(
            NumberView { negative: !v.negative, whole: v.whole, frac: v.frac },
        ),
        _ => t,
    }
}

pub open spec fn spec_integer(s: Seq<char>) -> (TokenView, nat) {
    if s.len() > 0 && s[0] == '-' {
        let (t, n) = spec_natural(s.drop_first());
        if t is Blank {
            (TokenView::Blank, 0)
        } else {
            (negate_view(t), n + 1)
        }
    } else {
        spec_natural(s)
    }
}

pub open spec fn sign_of(t: TokenView) -> bool {
    match t {
        TokenView::Number(v) => v.negative,
        _ => false,
    }
}

/// The digits before the point; none where the integer part was absent.
pub open spec fn whole_of(t: TokenView) -> Seq<u8> {
    match t {
        TokenView::Number(v) => v.whole,
        _ => seq![],
    }
}

pub open spec fn spec_float(s: Seq<char>) -> (TokenView, nat) {
    let (t, n) = spec_integer(s);
    if n < s.len() && s[n as int] == '.' {
        let (f, m) = spec_natural(s.skip(n + 1 as int));
        if f is Blank {
            (t, n)
        } else {
            (
                TokenView::Number(
                    NumberView { negative: sign_of(t), whole: whole_of(t), frac: whole_of(f) },
                ),
                n + 1 + m,
            )
        }
    } else {
        (t, n)
    }
}

pub open spec fn spec_symbol(s: Seq<char>) -> (TokenView, nat) {
    if s.len() > 0 && is_ident_start(s[0]) {
        let n = 1 + run_len(s.drop_first(), ident_class());
        (TokenView::Symbol(s.take(n as int)), n)
    } else {
        (TokenView::Blank, 0)
    }
}

pub open spec fn spec_operator(s: Seq<char>) -> (TokenView, nat) {
    let n = run_len(s, operator_class());
    if n == 0 {
        (TokenView::Blank, 0)
    } else {
        (TokenView::Operator(s.take(n as int)), n)
    }
}

pub open spec fn spec_separator(s: Seq<char>) -> (TokenView, nat) {
    if s.len() > 0 && is_separator_char(s[0]) {
        (TokenView::Separator(s[0]), 1)
    } else {
        (TokenView::Blank, 0)
    }
}

fn is_digit_char(c: char) -> (r: bool)
    ensures
        r == is_digit(c),
{
    '0' <= c && c <= '9'
}

fn is_ident_start_char(c: char) -> (r: bool)
    ensures
        r == is_ident_start(c),
{
    c == '_' || ('A' <= c && c <= 'Z') || ('a' <= c && c <= 'z')
}

fn is_operator(c: char) -> (r: bool)
    ensures
        r == is_operator_char(c),
{
    c == ':' || c == '=' || c == '+' || c == '-' || c == '/' || c == '*' || c == '^' || c == '&'
        || c == '%' || c == '|' || c == '<' || c == '>' || c == '!'
}

fn is_separator(c: char) -> (r: bool)
    ensures
        r == is_separator_char(c),
{
    c == ',' || c == '.' || c == '(' || c == ')' || c == '{' || c == '}' || c == '[' || c == ']'
}

/// Unsigned integers: a maximal run of decimal digits.
#[derive(Clone, Copy, Debug)]
pub struct NaturalNumber;

impl Parser for NaturalNumber {
    type Output = Token;

    open spec fn spec_parse(&self, s: Seq<char>) -> Option<(TokenView, nat)> {
        Some(spec_natural(s))
    }

    fn parse(&self, input: &[char]) -> (r: Option<(Token, usize)>) {
        let ghost s = input@;
        let mut digits: Vec<u8> = Vec::new();
        let mut i: usize = 0;
        assert(s.skip(0) =~= s);
        while i < input.len() && is_digit_char(input[i])
            invariant
                s == input@,
                i <= s.len(),
                digits@ == digit_values(s.take(i as int)),
                run_len(s, digit_class()) == i + run_len(s.skip(i as int), digit_class()),
            decreases s.len() - i,
        {
            let c = input[i];
            digits.push((c as u32 - '0' as u32) as u8);
            proof {
                assert(s.skip(i as int).drop_first() =~= s.skip(i + 1));
                assert(digit_values(s.take(i + 1)) =~= digit_values(s.take(i as int)).push(
                    (c as u32 - '0' as u32) as u8,
                ));
            }
            i = i + 1;
        }
        if i == 0 {
            Some((Token::Blank, 0))
        } else {
            Some((Token::Number(Number { negative: false, whole: digits, frac: Vec::new() }), i))
        }
    }
}

/// Flips the sign of a number token.
#[derive(Clone, Copy, Debug)]
pub struct Negate;

impl Transform<Token> for Negate {
    type Output = Token;

    open spec fn spec_apply(&self, x: TokenView) -> TokenView {
        negate_view(x)
    }

    fn apply(&self, x: Token) -> (r: Token) {
        match x {
            Token::Number(n) => Token::Number(
                Number { negative: !n.negative, whole: n.whole, frac: n.frac },
            ),
            other => other,
        }
    }
}

/// Integers: digits, optionally after a `-`. A lone `-` is not consumed.
#[derive(Clone, Copy, Debug)]
pub struct Integer;

impl Parser for Integer {
    type Output = Token;

    open spec fn spec_parse(&self, s: Seq<char>) -> Option<(TokenView, nat)> {
        Some(spec_integer(s))
    }

    fn parse(&self, input: &[char]) -> (r: Option<(Token, usize)>) {
        if input.len() > 0 && input[0] == '-' {
            let rest = slice_subrange(input, 1, input.len());
            assert(rest@ =~= input@.drop_first());
            match Mapped(NaturalNumber, Negate).parse(rest) {
                Some((t, n)) => {
                    if t.is_blank() {
                        Some((Token::Blank, 0))
                    } else {
                        Some((t, n + 1))
                    }
                },
                None => None,
            }
        } else {
            NaturalNumber.parse(input)
        }
    }
}

/// Decimal numbers: an integer, then optionally `.` and digits. Without
/// digits after it the point is not consumed; without digits before it the
/// integer part is zero, but `-.` does not start a number.
#[derive(Clone, Copy, Debug)]
pub struct Float;

impl Parser for Float {
    type Output = Token;

    open spec fn spec_parse(&self, s: Seq<char>) -> Option<(TokenView, nat)> {
        Some(spec_float(s))
    }

    fn parse(&self, input: &[char]) -> (r: Option<(Token, usize)>) {
        let (t, n) = match Integer.parse(input) {
            Some(x) => x,
            None => {
                return None;
            },
        };
        if !(n < input.len() && input[n] == '.') {
            return Some((t, n));
        }
        let rest = slice_subrange(input, n + 1, input.len());
        assert(rest@ =~= input@.skip(n + 1));
        let (f, m) = match NaturalNumber.parse(rest) {
            Some(x) => x,
            None => {
                return None;
            },
        };
        match f {
            Token::Number(fr) => {
                let (negative, whole) = match t {
                    Token::Number(w) => (w.negative, w.whole),
                    _ => (false, Vec::new()),
                };
                Some((Token::Number(Number { negative, whole, frac: fr.whole }), n + 1 + m))
            },
            _ => Some((t, n)),
        }
    }
}

/// Identifiers: an ASCII letter or `_`, then letters, digits and `_`.
#[derive(Clone, Copy, Debug)]
pub struct Symbol;

impl Parser for Symbol {
    type Output = Token;

    open spec fn spec_parse(&self, s: Seq<char>) -> Option<(TokenView, nat)> {
        Some(spec_symbol(s))
    }

    fn parse(&self, input: &[char]) -> (r: Option<(Token, usize)>) {
        let ghost s = input@;
        if input.len() == 0 || !is_ident_start_char(input[0]) {
            return Some((Token::Blank, 0));
        }
        let mut text: Vec<char> = Vec::new();
        text.push(input[0]);
        let mut i: usize = 1;
        assert(s.drop_first().skip(0) =~= s.drop_first());
        assert(text@ =~= s.take(1));
        while i < input.len() && (is_ident_start_char(input[i]) || is_digit_char(input[i]))
            invariant
                s == input@,
                1 <= i <= s.len(),
                text@ == s.take(i as int),
                run_len(s.drop_first(), ident_class()) == (i - 1) + run_len(
                    s.skip(i as int),
                    ident_class(),
                ),
            decreases s.len() - i,
        {
            text.push(input[i]);
            proof {
                assert(s.skip(i as int).drop_first() =~= s.skip(i + 1));
                assert(s.take(i + 1) =~= s.take(i as int).push(s[i as int]));
            }
            i = i + 1;
        }
        assert(s.drop_first().skip(i - 1) =~= s.skip(i as int));
        Some((Token::Symbol(text), i))
    }
}

/// A maximal run of operator characters, not split any further.
#[derive(Clone, Copy, Debug)]
pub struct Operator;

impl Parser for Operator {
    type Output = Token;

    open spec fn spec_parse(&self, s: Seq<char>) -> Option<(TokenView, nat)> {
        Some(spec_operator(s))
    }

    fn parse(&self, input: &[char]) -> (r: Option<(Token, usize)>) {
        let ghost s = input@;
        let mut text: Vec<char> = Vec::new();
        let mut i: usize = 0;
        assert(s.skip(0) =~= s);
        while i < input.len() && is_operator(input[i])
            invariant
                s == input@,
                i <= s.len(),
                text@ == s.take(i as int),
                run_len(s, operator_class()) == i + run_len(s.skip(i as int), operator_class()),
            decreases s.len() - i,
        {
            text.push(input[i]);
            proof {
                assert(s.skip(i as int).drop_first() =~= s.skip(i + 1));
                assert(s.take(i + 1) =~= s.take(i as int).push(s[i as int]));
            }
            i = i + 1;
        }
        if i == 0 {
            Some((Token::Blank, 0))
        } else {
            Some((Token::Operator(text), i))
        }
    }
}

/// One separator character.
#[derive(Clone, Copy, Debug)]
pub struct Separator;

impl Parser for Separator {
    type Output = Token;

    open spec fn spec_parse(&self, s: Seq<char>) -> Option<(TokenView, nat)> {
        Some(spec_separator(s))
    }

    fn parse(&self, input: &[char]) -> (r: Option<(Token, usize)>) {
        if input.len() > 0 && is_separator(input[0]) {
            Some((Token::Separator(input[0]), 1))
        } else {
            Some((Token::Blank, 0))
        }
    }
}

} // verus!
