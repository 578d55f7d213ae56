use lox::scanner::{Literal, Scanner};
use lox::token::Token;
use lox::token_type::TokenType;

/// A small deterministic generator of source texts.
struct Texts {
    state: u64,
}

impl Texts {
    fn next(&mut self) -> u64 {
        self.state = self
            .state
            .wrapping_mul(6364136223846793005)
            .wrapping_add(1442695040888963407);
        self.state >> 33
    }

    fn text(&mut self) -> String {
        const ALPHABET: [char; 40] = [
            '(', ')', '{', '}', ',', '.', '-', '+', ';', '*', '!', '=', '<', '>', '/', '/', ' ',
            '\r', '\t', '\n', '\n', '"', '"', '0', '1', '9', '.', 'a', 'n', 'd', 'o', 'r', 'i',
            'f', '_', 'Z', '@', '\0', 'é', '∀',
        ];
        let length = (self.next() % 24) as usize;
        (0..length).map(|_| ALPHABET[(self.next() % 40) as usize]).collect()
    }
}

/// The length in bytes of the blanks and comments that `text` begins with.
fn discarded_prefix(text: &str) -> usize {
    let mut rest = text;
    loop {
        if rest.starts_with("//") {
            rest = &rest[rest.find('\n').unwrap_or(rest.len())..];
        } else if rest.starts_with(|c| c == ' ' || c == '\r' || c == '\t' || c == '\n') {
            rest = &rest[1..];
        } else {
            return text.len() - rest.len();
        }
    }
}

fn check(source: &str, tokens: &[Token]) {
    // Eof closes the scan and stands nowhere else.
    let (last, before) = tokens.split_last().expect("a scan is never empty");
    assert_eq!(last.token_type, TokenType::Eof, "{:?}", source);
    assert_eq!(last.lexeme, "");
    assert_eq!(last.line, 1 + source.matches('\n').count());
    assert!(before.iter().all(|token| token.token_type != TokenType::Eof));

    // Lines never fall.
    for pair in tokens.windows(2) {
        assert!(pair[0].line <= pair[1].line, "{:?}", source);
    }

    // The lexemes, with the blanks and comments between them, are the
    // source; each token stands on the line of its first character.
    let mut rest = source;
    for token in tokens {
        rest = &rest[discarded_prefix(rest)..];
        assert!(rest.starts_with(token.lexeme.as_str()), "{:?}", source);
        let consumed = source.len() - rest.len();
        assert_eq!(token.line, 1 + source[..consumed].matches('\n').count(), "{:?}", source);
        assert_eq!(token.lexeme.is_empty(), token.token_type == TokenType::Eof);
        rest = &rest[token.lexeme.len()..];
    }
    assert_eq!(rest, "", "{:?}", source);

    // Values go with kinds.
    for token in tokens {
        match token.token_type {
            TokenType::Number => {
                assert_eq!(token.literal, Literal::Number(token.lexeme.clone()));
                assert!(token.lexeme.parse::<f64>().is_ok());
                assert!(token.lexeme.chars().all(|c| c.is_ascii_digit() || c == '.'));
                assert!(token.lexeme.starts_with(|c: char| c.is_ascii_digit()));
                assert!(token.lexeme.ends_with(|c: char| c.is_ascii_digit()));
            }
            TokenType::String => {
                let inner = &token.lexeme[1..token.lexeme.len() - 1];
                assert!(!inner.contains('"'));
                assert_eq!(token.literal, Literal::String(inner.to_string()));
            }
            _ => assert_eq!(token.literal, Literal::Absent),
        }
    }
}

#[test]
fn generated_sources_keep_the_invariants() {
    let mut texts = Texts { state: 42 };
    for _ in 0..20000 {
        let source = texts.text();
        let tokens = Scanner::new(&source).scan_tokens();
        check(&source, &tokens);
    }
}

#[test]
fn a_long_source_is_scanned_in_full() {
    let line = "var total = total + 12.5; // add\n";
    let source = line.repeat(20000);
    let tokens = Scanner::new(&source).scan_tokens();
    assert_eq!(tokens.len(), 7 * 20000 + 1);
    assert_eq!(tokens[7 * 20000 - 1].token_type, TokenType::Semicolon);
    assert_eq!(tokens[7 * 20000 - 1].line, 20000);
    assert_eq!(tokens[7 * 20000].token_type, TokenType::Eof);
    assert_eq!(tokens[7 * 20000].line, 20001);
    for (i, token) in tokens[..7 * 20000].iter().enumerate() {
        assert_eq!(token.line, i / 7 + 1);
        assert_eq!(token.lexeme, ["var", "total", "=", "total", "+", "12.5", ";"][i % 7]);
    }
}
