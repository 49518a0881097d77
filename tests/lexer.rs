use chant::lexer::{tokenize, tokenize_recovering, LexError, Location};
use chant::token::{Number, Token};

fn chars(s: &str) -> Vec<char> {
    s.chars().collect()
}

#[test]
fn four_spaces_are_one_whitespace_token() {
    let tokens = tokenize(&chars("    "), None).unwrap();
    assert_eq!(tokens.0, vec![(Token::Whitespace, 4)]);
}

#[test]
fn empty_input_gives_no_tokens() {
    assert_eq!(tokenize(&[], None).unwrap().0, vec![]);
}

#[test]
fn tokenizes_mixed_input() {
    let tokens = tokenize(&chars("x := -1.5,\n(y)"), None).unwrap();
    assert_eq!(
        tokens.0,
        vec![
            (Token::Symbol(chars("x")), 1),
            (Token::Whitespace, 1),
            (Token::Operator(chars(":=")), 2),
            (Token::Whitespace, 1),
            (Token::Operator(chars("-")), 1),
            (Token::Number(Number { negative: false, whole: vec![1], frac: vec![5] }), 3),
            (Token::Separator(','), 1),
            (Token::Whitespace, 1),
            (Token::Separator('('), 1),
            (Token::Symbol(chars("y")), 1),
            (Token::Separator(')'), 1),
        ]
    );
}

#[test]
fn token_spans_rebuild_the_input() {
    let text = "let a1 = (b+2.25) * c;\n  done";
    let input = chars(text);
    let result = tokenize(&input, None);
    assert!(result.is_err());
    let text = "let a1 = (b+2.25) * c\n  done";
    let input = chars(text);
    let tokens = tokenize(&input, None).unwrap();
    let mut at = 0;
    let mut rebuilt = String::new();
    for (_, len) in &tokens.0 {
        rebuilt.extend(&input[at..at + len]);
        at += len;
    }
    assert_eq!(rebuilt, text);
}

#[test]
fn unrecognized_character_reports_location() {
    let err = tokenize(&chars("ab\n  #"), None).unwrap_err();
    assert_eq!(err, LexError { offset: 5, line: 2, column: 3 });
    let start = Location { filename: Some(chars("f.ch")), line: 10, column: 4 };
    let err = tokenize(&chars("a ;"), Some(start)).unwrap_err();
    assert_eq!(err, LexError { offset: 2, line: 10, column: 6 });
}

#[test]
fn recovery_keeps_going_after_bad_character() {
    let input = chars("a # b\n$");
    let lexed = tokenize_recovering(&input, None);
    assert!(lexed.is_degraded());
    assert_eq!(
        lexed.tokens.0,
        vec![
            (Token::Symbol(chars("a")), 1),
            (Token::Whitespace, 1),
            (Token::Unrecognized('#'), 1),
            (Token::Whitespace, 1),
            (Token::Symbol(chars("b")), 1),
            (Token::Whitespace, 1),
            (Token::Unrecognized('$'), 1),
        ]
    );
    assert_eq!(
        lexed.errors,
        vec![
            LexError { offset: 2, line: 1, column: 3 },
            LexError { offset: 6, line: 2, column: 1 },
        ]
    );
    let total: usize = lexed.tokens.0.iter().map(|(_, n)| n).sum();
    assert_eq!(total, input.len());
}

#[test]
fn recovery_on_clean_input_matches_tokenize() {
    let input = chars("f(x) = 2.5");
    let lexed = tokenize_recovering(&input, None);
    assert!(!lexed.is_degraded());
    assert_eq!(lexed.tokens.0, tokenize(&input, None).unwrap().0);
}
