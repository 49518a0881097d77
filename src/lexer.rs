//! The lexer: splits a whole text into tokens, keeping whitespace, and
//! tracks line and column for diagnostics.
use vstd::prelude::*;
use vstd::slice::slice_subrange;
use crate::combinator::{is_whitespace, is_whitespace_char, run_len, whitespace_class, whitespace_run, FirstOf, Parser};
use crate::rules::{
    digit_class, ident_class, operator_class, spec_integer, spec_float, spec_operator, spec_separator, spec_symbol, Float, Operator, Separator, Symbol,
};
use crate::token::{Token, TokenView};

verus! {

/// Where a text starts: lines and columns count from 1.
#[derive(Clone, Debug)]
pub struct Location {
    pub filename: Option<Vec<char>>,
    pub line: usize,
    pub column: usize,
}

/// A character that no rule accepts, with where it stands.
#[derive(Clone, Copy, Debug, PartialEq, Eq)]
pub struct LexError {
    pub offset: usize,
    pub line: usize,
    pub column: usize,
}

/// Tokens in source order, each with the number of characters it covers.
#[derive(Clone, Debug)]
pub struct Tokens(pub Vec<(Token, usize)>);

/// Line and column after reading `t` from line `l`, column `c`: a newline
/// moves to column 1 of the next line, any other character one column on.
pub open spec fn advance(l: nat, c: nat, t: Seq<char>) -> (nat, nat)
    decreases t.len(),
{
    if t.len() == 0 {
        (l, c)
    } else {
        let (l2, c2) = advance(l, c, t.drop_last());
        if t.last() == '\n' {
            (l2 + 1, 1)
        } else {
            (l2, c2 + 1)
        }
    }
}

/// The token at the front of `s`: a whitespace run, or the first of
/// separator, operator, number and symbol that applies; `Blank` with
/// length zero when none does.
pub open spec fn spec_next_token(s: Seq<char>) -> (TokenView, nat) {
    if s.len() > 0 && is_whitespace(s[0]) {
        (TokenView::Whitespace, run_len(s, whitespace_class()))
    } else if spec_separator(s).1 > 0 {
        spec_separator(s)
    } else if spec_operator(s).1 > 0 {
        spec_operator(s)
    } else if spec_float(s).1 > 0 {
        spec_float(s)
    } else {
        spec_symbol(s)
    }
}

/// The tokens of `s` from position `i` on, or the offset of the first
/// character that no rule accepts.
pub open spec fn lex_from(s: Seq<char>, i: nat) -> Result<Seq<(TokenView, nat)>, nat>
    decreases s.len() - i,
{
    if i >= s.len() {
        Ok(seq![])
    } else {
        let (t, n) = spec_next_token(s.skip(i as int));
        if n == 0 || i + n > s.len() {
            Err(i)
        } else {
            match lex_from(s, i + n) {
                Ok(r) => Ok(seq![(t, n)] + r),
                Err(e) => Err(e),
            }
        }
    }
}

pub open spec fn token_views(v: Seq<(Token, usize)>) -> Seq<(TokenView, nat)> {
    v.map_values(|p: (Token, usize)| (p.0.deep_view(), p.1 as nat))
}

proof fn lemma_views_push(v: Seq<(Token, usize)>, p: (Token, usize))
    ensures
        token_views(v.push(p)) == token_views(v).push((p.0.deep_view(), p.1 as nat)),
{
    assert(token_views(v.push(p)) =~= token_views(v).push((p.0.deep_view(), p.1 as nat)));
}

pub open spec fn prepend(
    a: Seq<(TokenView, nat)>,
    r: Result<Seq<(TokenView, nat)>, nat>,
) -> Result<Seq<(TokenView, nat)>, nat> {
    match r {
        Ok(x) => Ok(a + x),
        Err(e) => Err(e),
    }
}

/// The text that tokens of the given lengths cover, starting at `start`.
pub open spec fn spans(s: Seq<char>, start: nat, r: Seq<(TokenView, nat)>) -> Seq<char>
    decreases r.len(),
{
    if r.len() == 0 {
        seq![]
    } else {
        s.subrange(start as int, (start + r[0].1) as int) + spans(s, start + r[0].1, r.drop_first())
    }
}

/// The line counting starts from: that of `start`, else 1.
pub open spec fn start_line(start: Option<Location>) -> nat {
    match start {
        Some(l) => l.line as nat,
        None => 1,
    }
}

/// The column counting starts from: that of `start`, else 1.
pub open spec fn start_column(start: Option<Location>) -> nat {
    match start {
        Some(l) => l.column as nat,
        None => 1,
    }
}

/// Whitespace run, separator, operator, number or symbol at the front.
pub fn next_token(input: &[char]) -> (r: (Token, usize))
    ensures
        (r.0.deep_view(), r.1 as nat) == spec_next_token(input@),
        r.1 <= input@.len(),
{
    if input.len() > 0 && is_whitespace_char(input[0]) {
        let n = whitespace_run(input, 0);
        assert(input@.skip(0) =~= input@);
        return (Token::Whitespace, n);
    }
    let rule = FirstOf(Separator, FirstOf(Operator, FirstOf(Float, Symbol)));
    match rule.parse(input) {
        Some(x) => x,
        None => (Token::Blank, 0),
    }
}

/// Splits `input` into tokens, whitespace included. Counting starts at
/// `start`, or at line 1, column 1. Fails at the first character that no
/// rule accepts.
pub fn tokenize(input: &[char], start: Option<Location>) -> (r: Result<Tokens, LexError>)
    requires
        match start {
            Some(l) => l.line + input@.len() <= usize::MAX && l.column + input@.len() <= usize::MAX,
            None => input@.len() < usize::MAX,
        },
    ensures
        ({
            match r {
                Ok(ts) => lex_from(input@, 0) == Ok::<Seq<(TokenView, nat)>, nat>(
                    token_views(ts.0@),
                ),
                Err(e) => lex_from(input@, 0) == Err::<Seq<(TokenView, nat)>, nat>(e.offset as nat)
                    && (e.line as nat, e.column as nat) == advance(
                    start_line(start),
                    start_column(start),
                    input@.take(e.offset as int),
                ),
            }
        }),
{
    let ghost s = input@;
    let (line0, col0) = match start {
        Some(l) => (l.line, l.column),
        None => (1, 1),
    };
    assert(line0 == start_line(start) && col0 == start_column(start));
    let mut line: usize = line0;
    let mut col: usize = col0;
    let mut tokens: Vec<(Token, usize)> = Vec::new();
    let mut i: usize = 0;
    assert(s.take(0) =~= seq![]);
    assert(token_views(tokens@) + lex_from(s, 0)->Ok_0 =~= lex_from(s, 0)->Ok_0);
    while i < input.len()
        invariant
            s == input@,
            i <= s.len(),
            line0 + s.len() <= usize::MAX,
            col0 + s.len() <= usize::MAX,
            line0 == start_line(start),
            col0 == start_column(start),
            lex_from(s, 0) == prepend(token_views(tokens@), lex_from(s, i as nat)),
            (line as nat, col as nat) == advance(line0 as nat, col0 as nat, s.take(i as int)),
            line <= line0 + i,
            col <= col0 + i,
        decreases s.len() - i,
    {
        let rest = slice_subrange(input, i, input.len());
        assert(rest@ =~= s.skip(i as int));
        let (t, n) = next_token(rest);
        if n == 0 {
            assert(lex_from(s, i as nat) == Err::<Seq<(TokenView, nat)>, nat>(i as nat));
            return Err(LexError { offset: i, line, column: col });
        }
        let ghost tv = t.deep_view();
        let mut k: usize = 0;
        while k < n
            invariant
                s == input@,
                i + n <= s.len(),
                k <= n,
                line0 + s.len() <= usize::MAX,
                col0 + s.len() <= usize::MAX,
                (line as nat, col as nat) == advance(line0 as nat, col0 as nat, s.take(i + k)),
                line <= line0 + i + k,
                col <= col0 + i + k,
            decreases n - k,
        {
            assert(s.take(i + k + 1).drop_last() =~= s.take(i + k));
            if input[i + k] == '\n' {
                line = line + 1;
                col = 1;
            } else {
                col = col + 1;
            }
            k = k + 1;
        }
        let ghost before = tokens@;
        tokens.push((t, n));
        proof {
            assert(token_views(tokens@) =~= token_views(before).push((tv, n as nat)));
            match lex_from(s, (i + n) as nat) {
                Ok(r) => {
                    assert(token_views(before) + (seq![(tv, n as nat)] + r) =~= token_views(
                        tokens@,
                    ) + r);
                },
                Err(e) => {},
            }
        }
        i = i + n;
    }
    Ok(Tokens(tokens))
}

/// Tokenizing covers the input exactly: the spans that the token lengths
/// mark out, laid end to end, give back the text.
pub proof fn lemma_tokens_rebuild_input(s: Seq<char>, r: Seq<(TokenView, nat)>)
    requires
        lex_from(s, 0) == Ok::<Seq<(TokenView, nat)>, nat>(r),
    ensures
        spans(s, 0, r) == s,
{
    lemma_rebuild_from(s, 0, r);
    assert(s.skip(0) =~= s);
}

proof fn lemma_rebuild_from(s: Seq<char>, i: nat, r: Seq<(TokenView, nat)>)
    requires
        i <= s.len(),
        lex_from(s, i) == Ok::<Seq<(TokenView, nat)>, nat>(r),
    ensures
        spans(s, i, r) == s.skip(i as int),
    decreases s.len() - i,
{
    if i >= s.len() {
        assert(s.skip(i as int) =~= seq![]);
    } else {
        let (t, n) = spec_next_token(s.skip(i as int));
        let r2 = lex_from(s, i + n)->Ok_0;
        lemma_rebuild_from(s, i + n, r2);
        assert(r.drop_first() =~= r2);
        assert(s.subrange(i as int, (i + n) as int) + s.skip((i + n) as int) =~= s.skip(i as int));
    }
}

/// What the recovering lexer produced: every character is covered by a
/// token, and each character that no rule accepts is also reported.
#[derive(Clone, Debug)]
pub struct Lexed {
    pub tokens: Tokens,
    pub errors: Vec<LexError>,
}

impl Lexed {
    /// Whether some character was not recognized.
    pub fn is_degraded(&self) -> (r: bool)
        ensures
            r == (self.errors@.len() > 0),
    {
        self.errors.len() > 0
    }
}

/// The next token, where a character that no rule accepts becomes an
/// `Unrecognized` token of length one.
pub open spec fn spec_next_or_unrecognized(s: Seq<char>) -> (TokenView, nat) {
    let (t, n) = spec_next_token(s);
    if n == 0 && s.len() > 0 {
        (TokenView::Unrecognized(s[0]), 1)
    } else {
        (t, n)
    }
}

/// The tokens of `s` from position `i` on when lexing goes on past
/// unrecognized characters, and the offsets of those characters.
pub open spec fn recover_from(s: Seq<char>, i: nat) -> (Seq<(TokenView, nat)>, Seq<nat>)
    decreases s.len() - i,
{
    if i >= s.len() {
        (seq![], seq![])
    } else {
        let (t, n) = spec_next_or_unrecognized(s.skip(i as int));
        if n == 0 || i + n > s.len() {
            (seq![], seq![])
        } else {
            let rest = recover_from(s, i + n);
            (
                seq![(t, n)] + rest.0,
                if t is Unrecognized {
                    seq![i] + rest.1
                } else {
                    rest.1
                },
            )
        }
    }
}

/// Splits `input` into tokens like `tokenize`, but goes on past a
/// character that no rule accepts: it becomes an `Unrecognized` token, and
/// its offset, line and column are reported in `errors`.
pub fn tokenize_recovering(input: &[char], start: Option<Location>) -> (r: Lexed)
    requires
        match start {
            Some(l) => l.line + input@.len() <= usize::MAX && l.column + input@.len() <= usize::MAX,
            None => input@.len() < usize::MAX,
        },
    ensures
        token_views(r.tokens.0@) == recover_from(input@, 0).0,
        r.errors@.map_values(|e: LexError| e.offset as nat) == recover_from(input@, 0).1,
        forall|k: int|
            0 <= k < r.errors@.len() ==> ((#[trigger] r.errors@[k]).line as nat, r.errors@[k].column as nat)
                == advance(
                start_line(start),
                start_column(start),
                input@.take(r.errors@[k].offset as int),
            ),
{
    let ghost s = input@;
    let (line0, col0) = match start {
        Some(l) => (l.line, l.column),
        None => (1, 1),
    };
    let mut line: usize = line0;
    let mut col: usize = col0;
    let mut tokens: Vec<(Token, usize)> = Vec::new();
    let mut errors: Vec<LexError> = Vec::new();
    let mut i: usize = 0;
    assert(s.take(0) =~= seq![]);
    assert(token_views(tokens@) + recover_from(s, 0).0 =~= recover_from(s, 0).0);
    assert(errors@.map_values(|e: LexError| e.offset as nat) + recover_from(s, 0).1
        =~= recover_from(s, 0).1);
    while i < input.len()
        invariant
            s == input@,
            i <= s.len(),
            line0 == start_line(start),
            col0 == start_column(start),
            line0 + s.len() <= usize::MAX,
            col0 + s.len() <= usize::MAX,
            recover_from(s, 0).0 == token_views(tokens@) + recover_from(s, i as nat).0,
            recover_from(s, 0).1 == errors@.map_values(|e: LexError| e.offset as nat)
                + recover_from(s, i as nat).1,
            forall|k: int|
                0 <= k < errors@.len() ==> ((#[trigger] errors@[k]).line as nat, errors@[k].column as nat)
                    == advance(line0 as nat, col0 as nat, s.take(errors@[k].offset as int)),
            (line as nat, col as nat) == advance(line0 as nat, col0 as nat, s.take(i as int)),
            line <= line0 + i,
            col <= col0 + i,
        decreases s.len() - i,
    {
        let rest = slice_subrange(input, i, input.len());
        assert(rest@ =~= s.skip(i as int));
        let (t0, n0) = next_token(rest);
        let unrecognized = n0 == 0;
        let (t, n) = if unrecognized {
            (Token::Unrecognized(input[i]), 1)
        } else {
            (t0, n0)
        };
        let ghost tv = t.deep_view();
        let ghost before_errors = errors@;
        if unrecognized {
            errors.push(LexError { offset: i, line, column: col });
            proof {
                assert(errors@.map_values(|e: LexError| e.offset as nat) =~= before_errors.map_values(
                    |e: LexError| e.offset as nat,
                ).push(i as nat));
            }
        }
        let mut k: usize = 0;
        while k < n
            invariant
                s == input@,
                i + n <= s.len(),
                k <= n,
                line0 + s.len() <= usize::MAX,
                col0 + s.len() <= usize::MAX,
                (line as nat, col as nat) == advance(line0 as nat, col0 as nat, s.take(i + k)),
                line <= line0 + i + k,
                col <= col0 + i + k,
            decreases n - k,
        {
            assert(s.take(i + k + 1).drop_last() =~= s.take(i + k));
            if input[i + k] == '\n' {
                line = line + 1;
                col = 1;
            } else {
                col = col + 1;
            }
            k = k + 1;
        }
        let ghost before = tokens@;
        let pair = (t, n);
        let ghost gp = pair;
        tokens.push(pair);
        proof {
            assert(tokens@ == before.push(gp));
            lemma_views_push(before, gp);
            let r = recover_from(s, (i + n) as nat);
            assert(token_views(before) + (seq![(tv, n as nat)] + r.0) =~= token_views(tokens@)
                + r.0);
            let eb = before_errors.map_values(|e: LexError| e.offset as nat);
            if unrecognized {
                assert(eb + (seq![i as nat] + r.1) =~= errors@.map_values(
                    |e: LexError| e.offset as nat,
                ) + r.1);
            }
        }
        i = i + n;
    }
    proof {
        assert(token_views(tokens@) + seq![] =~= token_views(tokens@));
        assert(errors@.map_values(|e: LexError| e.offset as nat) + seq![] =~= errors@.map_values(
            |e: LexError| e.offset as nat,
        ));
    }
    Lexed { tokens: Tokens(tokens), errors }
}

/// The recovering lexer covers the input exactly, unrecognized characters
/// included: the spans of its tokens, laid end to end, give back the text.
pub proof fn lemma_recovered_tokens_rebuild_input(s: Seq<char>)
    ensures
        spans(s, 0, recover_from(s, 0).0) == s,
{
    lemma_recovered_from(s, 0);
    assert(s.skip(0) =~= s);
}

proof fn lemma_recovered_from(s: Seq<char>, i: nat)
    requires
        i <= s.len(),
    ensures
        spans(s, i, recover_from(s, i).0) == s.skip(i as int),
    decreases s.len() - i,
{
    if i >= s.len() {
        assert(s.skip(i as int) =~= seq![]);
    } else {
        let (t, n) = spec_next_or_unrecognized(s.skip(i as int));
        lemma_next_token_bounded(s.skip(i as int));
        let r = recover_from(s, i);
        let r2 = recover_from(s, i + n).0;
        lemma_recovered_from(s, i + n);
        assert(r.0.drop_first() =~= r2);
        assert(s.subrange(i as int, (i + n) as int) + s.skip((i + n) as int) =~= s.skip(i as int));
    }
}

proof fn lemma_run_len_bounded(s: Seq<char>, p: spec_fn(char) -> bool)
    ensures
        run_len(s, p) <= s.len(),
    decreases s.len(),
{
    if s.len() > 0 && p(s[0]) {
        lemma_run_len_bounded(s.drop_first(), p);
    }
}

/// No rule consumes more than it is given.
proof fn lemma_next_token_bounded(s: Seq<char>)
    ensures
        spec_next_token(s).1 <= s.len(),
        spec_next_or_unrecognized(s).1 <= s.len(),
        s.len() > 0 ==> spec_next_or_unrecognized(s).1 > 0,
{
    lemma_run_len_bounded(s, whitespace_class());
    lemma_run_len_bounded(s, operator_class());
    lemma_run_len_bounded(s, digit_class());
    lemma_run_len_bounded(s.drop_first(), digit_class());
    lemma_run_len_bounded(s.drop_first(), ident_class());
    let n = spec_integer(s).1;
    if n < s.len() {
        lemma_run_len_bounded(s.skip(n + 1 as int), digit_class());
    }
}

} // verus!
