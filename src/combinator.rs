//! The combinator engine: rules over a slice of characters, and the ways
//! to build larger rules out of smaller ones.
//!
//! A rule never backtracks: a composite rule hands its second part the
//! input that its first part left, and nothing that was consumed is read
//! again.
use vstd::prelude::*;
use vstd::slice::slice_subrange;
use crate::token::{Token, TokenView};

verus! {

/// A parsing rule over characters.
///
/// `spec_parse(s)` is what the rule means on the input `s`: `None` when it
/// fails, or its output together with the number of characters consumed
/// from the front of `s`.
pub trait Parser {
    type Output: DeepView;

    spec fn spec_parse(&self, s: Seq<char>) -> Option<(<Self::Output as DeepView>::V, nat)>;

    fn parse(&self, input: &[char]) -> (r: Option<(Self::Output, usize)>)
        ensures
            r matches Some(x) ==> x.1 <= input@.len(),
            outcome(r) == self.spec_parse(input@),
    ;

    /// This rule with its output replaced by a copy of `t`.
    fn to(self, t: Token) -> (r: To<Self>) where Self: Sized
        ensures
            r.0 == self && r.1 == t,
    {
        To(self, t)
    }

    /// This rule after a run of whitespace.
    fn after_whitespace(self) -> (r: EatPrecedingWhitespace<Self>) where Self: Sized
        ensures
            r.0 == self,
    {
        EatPrecedingWhitespace(self)
    }

    /// This rule, run only after the literal `lit`.
    fn if_literal(self, lit: Vec<char>) -> (r: IfLiteral<Self>) where Self: Sized
        ensures
            r.0 == self && r.1 == lit,
    {
        IfLiteral(self, lit)
    }
}

/// The mathematical view of what `parse` returned.
pub open spec fn outcome<O: DeepView>(r: Option<(O, usize)>) -> Option<(O::V, nat)> {
    match r {
        Some((o, n)) => Some((o.deep_view(), n as nat)),
        None => None,
    }
}

/// Length of the longest prefix of `s` whose characters all satisfy `p`.
pub open spec fn run_len(s: Seq<char>, p: spec_fn(char) -> bool) -> nat
    decreases s.len(),
{
    if s.len() > 0 && p(s[0]) {
        1 + run_len(s.drop_first(), p)
    } else {
        0
    }
}

/// The characters skipped in front of a rule: space, tab and newline.
pub open spec fn is_whitespace(c: char) -> bool {
    c == ' ' || c == '\t' || c == '\n'
}

pub open spec fn whitespace_class() -> spec_fn(char) -> bool {
    |c: char| is_whitespace(c)
}

pub fn is_whitespace_char(c: char) -> (r: bool)
    ensures
        r == is_whitespace(c),
{
    c == ' ' || c == '\t' || c == '\n'
}

/// Number of whitespace characters at the front of `input[start..]`.
pub fn whitespace_run(input: &[char], start: usize) -> (r: usize)
    requires
        start <= input@.len(),
    ensures
        r == run_len(input@.skip(start as int), whitespace_class()),
        start + r <= input@.len(),
{
    let ghost s = input@;
    let mut i: usize = start;
    assert(s.skip(start as int).skip(0) =~= s.skip(start as int));
    while i < input.len() && is_whitespace_char(input[i])
        invariant
            s == input@,
            start <= i <= s.len(),
            run_len(s.skip(start as int), whitespace_class()) == (i - start) + run_len(
                s.skip(i as int),
                whitespace_class(),
            ),
        decreases s.len() - i,
    {
        assert(s.skip(i as int).drop_first() =~= s.skip(i + 1));
        i = i + 1;
    }
    i - start
}

/// Matches one given character.
#[derive(Clone, Copy, Debug)]
pub struct Char(pub char);

impl Parser for Char {
    type Output = char;

    open spec fn spec_parse(&self, s: Seq<char>) -> Option<(char, nat)> {
        if s.len() > 0 && s[0] == self.0 {
            Some((s[0], 1))
        } else {
            None
        }
    }

    fn parse(&self, input: &[char]) -> (r: Option<(char, usize)>) {
        if input.len() > 0 && input[0] == self.0 {
            Some((input[0], 1))
        } else {
            None
        }
    }
}

/// The rule that matches exactly the character `c`.
pub fn character(c: char) -> (r: Char)
    ensures
        r.0 == c,
        forall|s: Seq<char>| #[trigger] r.spec_parse(s) == (if s.len() > 0 && s[0] == c {
            Some((c, 1nat))
        } else {
            None
        }),
{
    Char(c)
}

/// Applies a rule to each character in turn, as long as it succeeds on
/// that single character, and collects the outputs in order. It always
/// succeeds, with no outputs at all when the first character is refused.
#[derive(Clone, Copy, Debug)]
pub struct TakeWhile<A>(pub A);

/// Outputs of `a` on the successive characters of `s`, and their count.
pub open spec fn spec_take_while<A: Parser>(a: A, s: Seq<char>) -> (Seq<<A::Output as DeepView>::V>, nat)
    decreases s.len(),
{
    if s.len() == 0 {
        (seq![], 0)
    } else {
        match a.spec_parse(s.take(1)) {
            Some((o, _)) => {
                let rest = spec_take_while(a, s.drop_first());
                (seq![o] + rest.0, rest.1 + 1)
            },
            None => (seq![], 0),
        }
    }
}

impl<A: Parser> Parser for TakeWhile<A> {
    type Output = Vec<A::Output>;

    open spec fn spec_parse(&self, s: Seq<char>) -> Option<(Seq<<A::Output as DeepView>::V>, nat)> {
        Some(spec_take_while(self.0, s))
    }

    fn parse(&self, input: &[char]) -> (r: Option<(Vec<A::Output>, usize)>) {
        let ghost s = input@;
        let mut values: Vec<A::Output> = Vec::new();
        let mut i: usize = 0;
        assert(s.skip(0) =~= s);
        loop
            invariant
                s == input@,
                i <= s.len(),
                values.deep_view().len() == i,
                spec_take_while(self.0, s) == (
                    values.deep_view() + spec_take_while(self.0, s.skip(i as int)).0,
                    (i + spec_take_while(self.0, s.skip(i as int)).1) as nat,
                ),
            decreases s.len() - i,
        {
            if i >= input.len() {
                proof {
                    assert(values.deep_view() + seq![] =~= values.deep_view());
                }
                return Some((values, i));
            }
            let one = slice_subrange(input, i, i + 1);
            assert(s.skip(i as int).take(1) =~= one@);
            match self.0.parse(one) {
                Some((o, _)) => {
                    let ghost before = values.deep_view();
                    let ghost ov = o.deep_view();
                    values.push(o);
                    proof {
                        assert(s.skip(i as int).drop_first() =~= s.skip(i + 1));
                        assert(values.deep_view() =~= before.push(ov));
                        let rest = spec_take_while(self.0, s.skip(i + 1));
                        assert(before + (seq![ov] + rest.0) =~= values.deep_view() + rest.0);
                    }
                    i = i + 1;
                },
                None => {
                    proof {
                        assert(values.deep_view() + seq![] =~= values.deep_view());
                    }
                    return Some((values, i));
                },
            }
        }
    }
}

/// Repeats `a` over single characters until it fails; see `TakeWhile`.
pub fn take_while<A: Parser>(a: A) -> (r: TakeWhile<A>)
    ensures
        r.0 == a,
        forall|s: Seq<char>| #[trigger] r.spec_parse(s) == Some(spec_take_while(a, s)),
{
    TakeWhile(a)
}

/// Runs `A`, then `B` on what `A` left; outputs both.
#[derive(Clone, Copy, Debug)]
pub struct Then<A, B>(pub A, pub B);

impl<A: Parser, B: Parser> Parser for Then<A, B> {
    type Output = (A::Output, B::Output);

    open spec fn spec_parse(&self, s: Seq<char>) -> Option<
        ((<A::Output as DeepView>::V, <B::Output as DeepView>::V), nat),
    > {
        match self.0.spec_parse(s) {
            Some((a, n)) => match self.1.spec_parse(s.skip(n as int)) {
                Some((b, m)) => Some(((a, b), n + m)),
                None => None,
            },
            None => None,
        }
    }

    fn parse(&self, input: &[char]) -> (r: Option<((A::Output, B::Output), usize)>) {
        match self.0.parse(input) {
            Some((a, n)) => {
                let rest = slice_subrange(input, n, input.len());
                assert(rest@ =~= input@.skip(n as int));
                match self.1.parse(rest) {
                    Some((b, m)) => Some(((a, b), n + m)),
                    None => None,
                }
            },
            None => None,
        }
    }
}

/// Skips a run of whitespace, then runs the rule on what follows. The
/// consumed length counts the skipped whitespace.
#[derive(Clone, Copy, Debug)]
pub struct EatPrecedingWhitespace<A>(pub A);

impl<A: Parser> Parser for EatPrecedingWhitespace<A> {
    type Output = A::Output;

    open spec fn spec_parse(&self, s: Seq<char>) -> Option<(<A::Output as DeepView>::V, nat)> {
        let w = run_len(s, whitespace_class());
        match self.0.spec_parse(s.skip(w as int)) {
            Some((o, n)) => Some((o, w + n)),
            None => None,
        }
    }

    fn parse(&self, input: &[char]) -> (r: Option<(A::Output, usize)>) {
        let w = whitespace_run(input, 0);
        assert(input@.skip(0) =~= input@);
        let rest = slice_subrange(input, w, input.len());
        assert(rest@ =~= input@.skip(w as int));
        match self.0.parse(rest) {
            Some((o, n)) => Some((o, w + n)),
            None => None,
        }
    }
}

/// Runs the rule only after a literal prefix: `None` consuming nothing
/// when the input does not start with the literal.
#[derive(Clone, Debug)]
pub struct IfLiteral<A>(pub A, pub Vec<char>);

impl<A: Parser> Parser for IfLiteral<A> {
    type Output = Option<A::Output>;

    open spec fn spec_parse(&self, s: Seq<char>) -> Option<(Option<<A::Output as DeepView>::V>, nat)> {
        let lit = self.1@;
        if lit.len() <= s.len() && s.take(lit.len() as int) == lit {
            match self.0.spec_parse(s.skip(lit.len() as int)) {
                Some((o, n)) => Some((Some(o), lit.len() + n)),
                None => None,
            }
        } else {
            Some((None, 0))
        }
    }

    fn parse(&self, input: &[char]) -> (r: Option<(Option<A::Output>, usize)>) {
        let lit = &self.1;
        if lit.len() > input.len() {
            return Some((None, 0));
        }
        let mut k: usize = 0;
        while k < lit.len()
            invariant
                lit@ == self.1@,
                lit.len() <= input.len(),
                k <= lit.len(),
                forall|j: int| 0 <= j < k ==> input@[j] == lit@[j],
            decreases lit.len() - k,
        {
            if input[k] != lit[k] {
                assert(input@.take(lit.len() as int)[k as int] != lit@[k as int]);
                return Some((None, 0));
            }
            k = k + 1;
        }
        assert(input@.take(lit.len() as int) =~= lit@);
        let rest = slice_subrange(input, lit.len(), input.len());
        assert(rest@ =~= input@.skip(lit.len() as int));
        match self.0.parse(rest) {
            Some((o, n)) => Some((Some(o), lit.len() + n)),
            None => None,
        }
    }
}

/// A function from one output to another, with its meaning.
pub trait Transform<I: DeepView> {
    type Output: DeepView;

    spec fn spec_apply(&self, x: I::V) -> <Self::Output as DeepView>::V;

    fn apply(&self, x: I) -> (r: Self::Output)
        ensures
            r.deep_view() == self.spec_apply(x.deep_view()),
    ;
}

/// Runs `A` and passes its output through `F`; the input consumed is the
/// same.
#[derive(Clone, Copy, Debug)]
pub struct Mapped<A, F>(pub A, pub F);

impl<A: Parser, F: Transform<A::Output>> Parser for Mapped<A, F> {
    type Output = F::Output;

    open spec fn spec_parse(&self, s: Seq<char>) -> Option<(<F::Output as DeepView>::V, nat)> {
        match self.0.spec_parse(s) {
            Some((o, n)) => Some((self.1.spec_apply(o), n)),
            None => None,
        }
    }

    fn parse(&self, input: &[char]) -> (r: Option<(F::Output, usize)>) {
        match self.0.parse(input) {
            Some((o, n)) => Some((self.1.apply(o), n)),
            None => None,
        }
    }
}

/// Runs `A` and replaces its output by a copy of a fixed token.
#[derive(Clone, Debug)]
pub struct To<A>(pub A, pub Token);

impl<A: Parser> Parser for To<A> {
    type Output = Token;

    open spec fn spec_parse(&self, s: Seq<char>) -> Option<(TokenView, nat)> {
        match self.0.spec_parse(s) {
            Some((_, n)) => Some((self.1.deep_view(), n)),
            None => None,
        }
    }

    fn parse(&self, input: &[char]) -> (r: Option<(Token, usize)>) {
        match self.0.parse(input) {
            Some((_, n)) => Some((self.1.duplicate(), n)),
            None => None,
        }
    }
}

/// Ordered alternatives: the result of `A` when it consumes something,
/// otherwise that of `B` on the same input.
#[derive(Clone, Copy, Debug)]
pub struct FirstOf<A, B>(pub A, pub B);

impl<A: Parser, B: Parser<Output = A::Output>> Parser for FirstOf<A, B> {
    type Output = A::Output;

    open spec fn spec_parse(&self, s: Seq<char>) -> Option<(<A::Output as DeepView>::V, nat)> {
        match self.0.spec_parse(s) {
            Some((o, n)) => if n > 0 {
                Some((o, n))
            } else {
                self.1.spec_parse(s)
            },
            None => self.1.spec_parse(s),
        }
    }

    fn parse(&self, input: &[char]) -> (r: Option<(A::Output, usize)>) {
        match self.0.parse(input) {
            Some((o, n)) => if n > 0 {
                Some((o, n))
            } else {
                self.1.parse(input)
            },
            None => self.1.parse(input),
        }
    }
}

} // verus!
