use fire_ferrets::lexer::Lexer;
use fire_ferrets::token::{Span, Token, TokenKind};

fn collect(source: &str) -> Vec<Token> {
    let mut lexer = Lexer::new(source);
    let mut tokens = Vec::new();
    while let Some(token) = lexer.next() {
        tokens.push(token);
    }
    tokens
}

#[test]
fn test_lexer() {
    let test = "set variable 123
print variable * variable";
    let tokens = collect(test);
    assert_eq!(
        tokens,
        vec![
            Token {
                kind: TokenKind::SetKw,
                span: Span {
                    start: 0_usize,
                    end: 3_usize
                }
            },
            Token {
                kind: TokenKind::Ident,
                span: Span {
                    start: 4_usize,
                    end: 12_usize
                }
            },
            Token {
                kind: TokenKind::IntLit,
                span: Span {
                    start: 13_usize,
                    end: 16_usize
                }
            },
            Token {
                kind: TokenKind::Newline,
                span: Span {
                    start: 16_usize,
                    end: 17_usize
                }
            },
            Token {
                kind: TokenKind::Print,
                span: Span {
                    start: 17_usize,
                    end: 22_usize
                }
            },
            Token {
                kind: TokenKind::Ident,
                span: Span {
                    start: 23_usize,
                    end: 31_usize
                }
            },
            Token {
                kind: TokenKind::Multiply,
                span: Span {
                    start: 32_usize,
                    end: 33_usize
                }
            },
            Token {
                kind: TokenKind::Ident,
                span: Span {
                    start: 34_usize,
                    end: 42_usize
                }
            },
            Token {
                kind: TokenKind::Eof,
                span: Span {
                    start: 0_usize,
                    end: 0_usize
                }
            },
        ]
    )
}

#[test]
fn lexer_longest_match_and_keywords() {
    let tokens = collect("setx <= >= != == < > ( ) \"a\\\"b\" 12ab");
    let kinds: Vec<TokenKind> = tokens.iter().map(|t| t.kind).collect();
    assert_eq!(
        kinds,
        vec![
            TokenKind::Ident,
            TokenKind::LessEq,
            TokenKind::GreaterEq,
            TokenKind::NotEq,
            TokenKind::Equals,
            TokenKind::Less,
            TokenKind::Greater,
            TokenKind::LeftParen,
            TokenKind::RightParen,
            TokenKind::StringLit,
            TokenKind::IntLit,
            TokenKind::Ident,
            TokenKind::Eof,
        ]
    );
}

#[test]
fn lexer_error_token_and_end() {
    let mut lexer = Lexer::new("@ \r\n");
    assert_eq!(
        lexer.next(),
        Some(Token { kind: TokenKind::Error, span: Span { start: 0, end: 1 } })
    );
    assert_eq!(
        lexer.next(),
        Some(Token { kind: TokenKind::Newline, span: Span { start: 2, end: 4 } })
    );
    assert_eq!(
        lexer.next(),
        Some(Token { kind: TokenKind::Eof, span: Span { start: 0, end: 0 } })
    );
    assert_eq!(lexer.next(), None);
}

#[test]
fn lexer_spans_count_bytes() {
    let tokens = collect("\"é\" x");
    assert_eq!(tokens[0], Token { kind: TokenKind::StringLit, span: Span { start: 0, end: 4 } });
    assert_eq!(tokens[1], Token { kind: TokenKind::Ident, span: Span { start: 5, end: 6 } });
}

#[test]
fn unterminated_string_is_an_error_token() {
    let tokens = collect("\"abc");
    assert_eq!(tokens[0].kind, TokenKind::Error);
    assert_eq!(tokens[1].kind, TokenKind::Ident);
}

#[test]
fn token_kind_names() {
    assert_eq!(TokenKind::IntLit.name(), "integer literal");
    assert_eq!(TokenKind::Eof.name(), "EOF");
    assert_eq!(TokenKind::SetKw.name(), "set");
    assert_eq!(TokenKind::Multiply.infix_binding_power(), Some((11, 12)));
    assert_eq!(TokenKind::Not.prefix_binding_power(), Some(101));
    assert_eq!(TokenKind::Ident.infix_binding_power(), None);
}
