//! Laws that relate the rules and combinators to one another.
use vstd::prelude::*;
use crate::combinator::{is_whitespace, run_len, whitespace_class, EatPrecedingWhitespace, Parser, Then};
use crate::rules::{
    decimal_value, digit_class, digit_values, is_digit, spec_float, spec_integer, spec_natural,
    spec_operator, spec_separator, spec_symbol, Float, Integer, NaturalNumber, Operator, Separator,
    Symbol,
};
use crate::token::{digits_value, TokenView};

verus! {

proof fn lemma_digit_run(d: Seq<char>)
    requires
        forall|k: int| 0 <= k < d.len() ==> is_digit(#[trigger] d[k]),
    ensures
        run_len(d, digit_class()) == d.len(),
    decreases d.len(),
{
    if d.len() > 0 {
        lemma_digit_run(d.drop_first());
    }
}

proof fn lemma_digits_value(d: Seq<char>)
    requires
        forall|k: int| 0 <= k < d.len() ==> is_digit(#[trigger] d[k]),
    ensures
        digits_value(digit_values(d)) == decimal_value(d),
    decreases d.len(),
{
    if d.len() > 0 {
        lemma_digits_value(d.drop_last());
        assert(digit_values(d).drop_last() =~= digit_values(d.drop_last()));
    }
}

/// A string of one or more digits is read whole, as a non-negative number
/// whose value is the decimal value of the digits.
pub proof fn lemma_natural_reads_all_digits(d: Seq<char>)
    requires
        d.len() > 0,
        forall|k: int| 0 <= k < d.len() ==> is_digit(#[trigger] d[k]),
    ensures
        NaturalNumber.spec_parse(d) matches Some((TokenView::Number(v), n)) && n == d.len()
            && !v.negative && v.frac.len() == 0 && digits_value(v.whole) == decimal_value(d),
{
    lemma_digit_run(d);
    lemma_digits_value(d);
    assert(d.take(d.len() as int) =~= d);
}

/// On the empty string, or one that does not start with a digit, the
/// natural number rule does not apply.
pub proof fn lemma_natural_needs_digit(s: Seq<char>)
    requires
        s.len() == 0 || !is_digit(s[0]),
    ensures
        NaturalNumber.spec_parse(s) == Some((TokenView::Blank, 0nat)),
{
}

/// Sequencing: when `a` consumes exactly `s1` of `s1 + s2` and `b` reads
/// `s2`, the pair consumes `s1` and what `b` consumed, and outputs both.
pub proof fn lemma_then_sequencing<A: Parser, B: Parser>(
    a: A,
    b: B,
    s1: Seq<char>,
    s2: Seq<char>,
    oa: <A::Output as DeepView>::V,
    ob: <B::Output as DeepView>::V,
    m: nat,
)
    requires
        a.spec_parse(s1 + s2) == Some((oa, s1.len())),
        b.spec_parse(s2) == Some((ob, m)),
    ensures
        Then(a, b).spec_parse(s1 + s2) == Some(((oa, ob), s1.len() + m)),
{
    assert((s1 + s2).skip(s1.len() as int) =~= s2);
}

/// A token rule answers `Blank` exactly when it consumes nothing, and
/// then leaves the input as it was: applying it again gives `Blank` again.
pub proof fn lemma_blank_consumes_nothing(s: Seq<char>)
    ensures
        spec_natural(s).0 is Blank <==> spec_natural(s).1 == 0,
        spec_integer(s).0 is Blank <==> spec_integer(s).1 == 0,
        spec_float(s).0 is Blank <==> spec_float(s).1 == 0,
        spec_symbol(s).0 is Blank <==> spec_symbol(s).1 == 0,
        spec_operator(s).0 is Blank <==> spec_operator(s).1 == 0,
        spec_separator(s).0 is Blank <==> spec_separator(s).1 == 0,
        spec_natural(s).0 is Blank ==> NaturalNumber.spec_parse(s.skip(spec_natural(s).1 as int))
            == NaturalNumber.spec_parse(s),
        spec_integer(s).0 is Blank ==> Integer.spec_parse(s.skip(spec_integer(s).1 as int))
            == Integer.spec_parse(s),
        spec_float(s).0 is Blank ==> Float.spec_parse(s.skip(spec_float(s).1 as int))
            == Float.spec_parse(s),
        spec_symbol(s).0 is Blank ==> Symbol.spec_parse(s.skip(spec_symbol(s).1 as int))
            == Symbol.spec_parse(s),
        spec_operator(s).0 is Blank ==> Operator.spec_parse(s.skip(spec_operator(s).1 as int))
            == Operator.spec_parse(s),
        spec_separator(s).0 is Blank ==> Separator.spec_parse(s.skip(spec_separator(s).1 as int))
            == Separator.spec_parse(s),
{
    assert(s.skip(0) =~= s);
}

proof fn lemma_whitespace_run(w: Seq<char>, t: Seq<char>)
    requires
        forall|k: int| 0 <= k < w.len() ==> is_whitespace(#[trigger] w[k]),
        t.len() == 0 || !is_whitespace(t[0]),
    ensures
        run_len(w + t, whitespace_class()) == w.len(),
    decreases w.len(),
{
    if w.len() > 0 {
        assert((w + t).drop_first() =~= w.drop_first() + t);
        lemma_whitespace_run(w.drop_first(), t);
    } else {
        assert(w + t =~= t);
    }
}

/// Skipping whitespace: on whitespace `w` followed by text `t` that does
/// not start with whitespace, the rule reads `t`, and the consumed length
/// counts `w` too.
pub proof fn lemma_skip_whitespace<A: Parser>(a: A, w: Seq<char>, t: Seq<char>)
    requires
        forall|k: int| 0 <= k < w.len() ==> is_whitespace(#[trigger] w[k]),
        t.len() == 0 || !is_whitespace(t[0]),
    ensures
        EatPrecedingWhitespace(a).spec_parse(w + t) == match a.spec_parse(t) {
            Some((o, n)) => Some((o, w.len() + n)),
            None => None,
        },
{
    lemma_whitespace_run(w, t);
    assert((w + t).skip(w.len() as int) =~= t);
}

} // verus!
