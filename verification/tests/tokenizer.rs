use textflow::token::{Token, Tokenizer};

fn collect(format: &str) -> Vec<Token<'_>> {
    let mut tokenizer = Tokenizer::new(format);
    let mut out = Vec::new();
    while let Some(token) = tokenizer.next() {
        out.push(token);
    }
    out
}

#[test]
fn tokenizer_yields_expected_tokens() {
    assert!(collect("").is_empty());
    assert_eq!(collect("x"), vec![Token::Literal(b"x")]);
    assert_eq!(collect("x\0y"), vec![Token::Literal("x\0y".as_bytes())]);
    assert!(collect("{").is_empty());
    assert_eq!(collect("x{"), vec![Token::Literal(b"x")]);
    assert_eq!(collect("x{y"), vec![Token::Literal(b"x")]);
    assert_eq!(collect("{}"), vec![Token::Argument(b"")]);
    assert_eq!(
        collect("x{}y{"),
        vec![Token::Literal(b"x"), Token::Argument(b""), Token::Literal(b"y")]
    );
    assert_eq!(collect("{\0}"), vec![Token::Argument("\0".as_bytes())]);
    assert_eq!(collect("{{y}"), vec![Token::Argument(b"{y")]);
    assert!(collect("{{{{xyz").is_empty());
    assert_eq!(
        collect("x{}{{}}}}"),
        vec![
            Token::Literal(b"x"),
            Token::Argument(b""),
            Token::Argument(b"{"),
            Token::Literal(b"}}}"),
        ]
    );
}

#[test]
fn tokenizer_keeps_literal_between_arguments() {
    assert_eq!(
        collect("Nice to meet {you}, where you been?"),
        vec![
            Token::Literal(b"Nice to meet "),
            Token::Argument(b"you"),
            Token::Literal(b", where you been?"),
        ]
    );
}

#[test]
fn unterminated_argument_drops_fragment_silently() {
    // Four opens and no close: everything from the first open is dropped.
    assert_eq!(collect("abc{{{{xyz"), vec![Token::Literal(b"abc")]);
}
