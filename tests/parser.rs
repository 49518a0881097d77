use chant::combinator::{
    character, take_while, EatPrecedingWhitespace, IfLiteral, Mapped, Parser, Then, To,
};
use chant::rules::{Float, Integer, NaturalNumber, Negate, Operator, Separator, Symbol};
use chant::token::{Number, Token};

fn chars(s: &str) -> Vec<char> {
    s.chars().collect()
}

fn digits(s: &str) -> Vec<u8> {
    s.bytes().map(|b| b - b'0').collect()
}

fn number(negative: bool, whole: &str, frac: &str) -> Token {
    Token::Number(Number { negative, whole: digits(whole), frac: digits(frac) })
}

fn value(t: &Token) -> f64 {
    let n = t.number().expect("a number token");
    let whole: String = n.whole.iter().map(|d| (b'0' + d) as char).collect();
    let frac: String = n.frac.iter().map(|d| (b'0' + d) as char).collect();
    let text = format!("{}{}.{}", if n.negative { "-" } else { "" }, whole, frac);
    let text = if whole.is_empty() { text.replacen('.', "0.", 1) } else { text };
    text.parse::<f64>().unwrap()
}

fn sym(s: &str) -> Token {
    Token::Symbol(chars(s))
}

#[test]
fn integers() {
    let (t, n) = NaturalNumber.parse(&chars("123")).unwrap();
    assert_eq!((value(&t), n), (123., 3));
    assert_eq!(NaturalNumber.parse(&chars("-123")).unwrap().0, Token::Blank);
    let (t, n) = Integer.parse(&chars("-123")).unwrap();
    assert_eq!((value(&t), n), (-123., 4));
    let (t, n) = Integer.parse(&chars("123")).unwrap();
    assert_eq!((value(&t), n), (123., 3));
    let (t, n) = Integer.parse(&chars("123abc")).unwrap();
    assert_eq!((value(&t), n), (123., 3));
}

#[test]
fn symbol() {
    assert_eq!(Symbol.parse(&chars("_oki123")).unwrap(), (sym("_oki123"), 7));
    assert_eq!(Symbol.parse(&chars("1_oki123")).unwrap().0, Token::Blank);
}

#[test]
fn op() {
    assert_eq!(Operator.parse(&chars("+=")).unwrap(), (Token::Operator(chars("+=")), 2));
}

#[test]
fn num_then_symbol() {
    let ((a, b), n) = Then(Integer, Symbol).parse(&chars("123abc")).unwrap();
    assert_eq!((value(&a), b, n), (123., sym("abc"), 6));
}

#[test]
fn symbol_then_num() {
    let ((a, b), n) =
        Then(Symbol, Integer.after_whitespace()).parse(&chars("abc 123")).unwrap();
    assert_eq!((a, value(&b), n), (sym("abc"), 123., 7));
}

#[test]
fn sep() {
    assert_eq!(Separator.parse(&chars("(())")).unwrap(), (Token::Separator('('), 1));
}

#[test]
fn floats() {
    let (t, n) = Float.parse(&chars("-123.456")).unwrap();
    assert_eq!((value(&t), n), (-123.456, 8));
    let (t, n) = Float.parse(&chars("123")).unwrap();
    assert_eq!((value(&t), n), (123., 3));
    let (t, n) = Float.parse(&chars("123.")).unwrap();
    assert_eq!((value(&t), n), (123., 3));
    let (t, n) = Float.parse(&chars(".456")).unwrap();
    assert_eq!((value(&t), n), (0.456, 4));
    assert_eq!(Float.parse(&chars("-.456")).unwrap(), (Token::Blank, 0));
}

#[test]
fn digits_are_kept_exactly() {
    assert_eq!(Float.parse(&chars("-123.456")).unwrap(), (number(true, "123", "456"), 8));
    assert_eq!(Float.parse(&chars(".456")).unwrap(), (number(false, "", "456"), 4));
    assert_eq!(
        NaturalNumber.parse(&chars("98765432109876543210987")).unwrap(),
        (number(false, "98765432109876543210987", ""), 23)
    );
    assert_eq!(NaturalNumber.parse(&chars("0")).unwrap(), (number(false, "0", ""), 1));
}

#[test]
fn natural_number_blank_cases() {
    assert_eq!(NaturalNumber.parse(&chars("")).unwrap(), (Token::Blank, 0));
    assert_eq!(NaturalNumber.parse(&chars("a1")).unwrap(), (Token::Blank, 0));
}

#[test]
fn lone_minus_is_not_an_integer() {
    assert_eq!(Integer.parse(&chars("-")).unwrap(), (Token::Blank, 0));
    assert_eq!(Integer.parse(&chars("-x")).unwrap(), (Token::Blank, 0));
}

#[test]
fn float_stops_before_second_point() {
    assert_eq!(Float.parse(&chars("1.2.3")).unwrap(), (number(false, "1", "2"), 3));
    assert_eq!(Float.parse(&chars(".")).unwrap(), (Token::Blank, 0));
    assert_eq!(Float.parse(&chars("-0.5")).unwrap(), (number(true, "0", "5"), 4));
}

#[test]
fn symbol_is_ascii_only() {
    assert_eq!(Symbol.parse(&chars("Ab_9-x")).unwrap(), (sym("Ab_9"), 4));
    assert_eq!(Symbol.parse(&chars("é")).unwrap(), (Token::Blank, 0));
    assert_eq!(Symbol.parse(&chars("")).unwrap(), (Token::Blank, 0));
}

#[test]
fn operator_takes_maximal_run() {
    assert_eq!(Operator.parse(&chars(":=<>!x")).unwrap(), (Token::Operator(chars(":=<>!")), 5));
    assert_eq!(Operator.parse(&chars("a+")).unwrap(), (Token::Blank, 0));
}

#[test]
fn separator_on_empty_input() {
    assert_eq!(Separator.parse(&chars("")).unwrap(), (Token::Blank, 0));
    assert_eq!(Separator.parse(&chars("]")).unwrap(), (Token::Separator(']'), 1));
    assert_eq!(Separator.parse(&chars("a")).unwrap(), (Token::Blank, 0));
}

#[test]
fn whitespace_is_skipped_before_rule() {
    let (t, n) = EatPrecedingWhitespace(Integer).parse(&chars("   123")).unwrap();
    assert_eq!((value(&t), n), (123., 6));
    let (t, n) = EatPrecedingWhitespace(Integer).parse(&chars(" \t\n-4")).unwrap();
    assert_eq!((value(&t), n), (-4., 5));
}

#[test]
fn blank_twice_is_still_blank() {
    let input = chars("xyz");
    for _ in 0..2 {
        assert_eq!(NaturalNumber.parse(&input).unwrap(), (Token::Blank, 0));
        assert_eq!(Integer.parse(&input).unwrap(), (Token::Blank, 0));
        assert_eq!(Float.parse(&input).unwrap(), (Token::Blank, 0));
        assert_eq!(Operator.parse(&input).unwrap(), (Token::Blank, 0));
        assert_eq!(Separator.parse(&input).unwrap(), (Token::Blank, 0));
    }
    assert_eq!(input, chars("xyz"));
}

#[test]
fn then_fails_when_second_fails() {
    assert_eq!(Then(character('a'), character('b')).parse(&chars("ac")), None);
    assert_eq!(Then(character('a'), character('b')).parse(&chars("abc")), Some((('a', 'b'), 2)));
}

#[test]
fn take_while_collects_matches() {
    assert_eq!(take_while(character(' ')).parse(&chars("   x ")), Some((vec![' ', ' ', ' '], 3)));
    assert_eq!(take_while(character(' ')).parse(&chars("x")), Some((vec![], 0)));
    assert_eq!(take_while(character(' ')).parse(&chars("")), Some((vec![], 0)));
}

#[test]
fn character_matches_one() {
    assert_eq!(character('(').parse(&chars("((")), Some(('(', 1)));
    assert_eq!(character('(').parse(&chars(")")), None);
    assert_eq!(character('(').parse(&chars("")), None);
}

#[test]
fn to_replaces_output() {
    let rule = To(take_while(character(' ')), Token::Whitespace);
    assert_eq!(rule.parse(&chars("  a")), Some((Token::Whitespace, 2)));
    assert_eq!(To(character('x'), Token::Blank).parse(&chars("y")), None);
    assert_eq!(character('x').to(Token::Whitespace).parse(&chars("xy")), Some((Token::Whitespace, 1)));
}

#[test]
fn mapped_applies_transform() {
    assert_eq!(Mapped(NaturalNumber, Negate).parse(&chars("42")), Some((number(true, "42", ""), 2)));
    assert_eq!(Mapped(NaturalNumber, Negate).parse(&chars("x")), Some((Token::Blank, 0)));
}

#[test]
fn if_literal_checks_prefix() {
    let rule = IfLiteral(NaturalNumber, chars("0x"));
    assert_eq!(rule.parse(&chars("0x12")), Some((Some(number(false, "12", "")), 4)));
    assert_eq!(rule.parse(&chars("12")), Some((None, 0)));
    assert_eq!(rule.parse(&chars("0")), Some((None, 0)));
    assert_eq!(IfLiteral(character('='), chars("+")).parse(&chars("+-")), None);
    assert_eq!(character('=').if_literal(chars("+")).parse(&chars("+=")), Some((Some('='), 2)));
}

#[test]
fn number_accessor_is_fallible() {
    assert!(Token::Blank.number().is_none());
    assert!(sym("a").number().is_none());
    assert_eq!(number(false, "7", "").number(), Some(&Number { negative: false, whole: vec![7], frac: vec![] }));
    assert_eq!(sym("ab").duplicate(), sym("ab"));
}
