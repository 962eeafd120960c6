use slang::scanner::{first_unknown, scan_tokens};
use slang::token::{Literal, Token, TokenType};

fn kinds(src: &str) -> Vec<TokenType> {
    scan_tokens(src).iter().map(|t| t.ty).collect()
}

#[test]
fn operators_and_delimiters() {
    assert_eq!(
        kinds("( ) { } [ ] , . + += - -= * / % ! != < <= > >= = =="),
        vec![
            TokenType::LParen,
            TokenType::RParen,
            TokenType::LBrace,
            TokenType::RBrace,
            TokenType::LBracket,
            TokenType::RBracket,
            TokenType::Comma,
            TokenType::Dot,
            TokenType::Plus,
            TokenType::PlusAssign,
            TokenType::Minus,
            TokenType::MinusAssign,
            TokenType::Star,
            TokenType::Slash,
            TokenType::Percent,
            TokenType::Bang,
            TokenType::BangEqual,
            TokenType::Less,
            TokenType::LessEqual,
            TokenType::Greater,
            TokenType::GreaterEqual,
            TokenType::Assign,
            TokenType::Equal,
        ]
    );
}

#[test]
fn keywords_and_identifiers() {
    assert_eq!(
        kinds("if else elif true false for while fn struct and or print iffy _x x_1"),
        vec![
            TokenType::If,
            TokenType::Else,
            TokenType::Elif,
            TokenType::True,
            TokenType::False,
            TokenType::For,
            TokenType::While,
            TokenType::Function,
            TokenType::Struct,
            TokenType::And,
            TokenType::Or,
            TokenType::Print,
            TokenType::Identifier,
            TokenType::Unknown,
            TokenType::Identifier,
            TokenType::Identifier,
        ]
    );
    let ts = scan_tokens("x_1");
    assert_eq!(ts[0].lexeme, "x_1");
}

#[test]
fn numbers_carry_exact_values() {
    let ts = scan_tokens("12 3.25 4. 1.2.3");
    assert_eq!(ts.len(), 4);
    let lit = |t: &Token| match &t.literal {
        Literal::Number(n) => (n.numerator(), n.denominator()),
        _ => panic!("no number"),
    };
    assert_eq!(ts[0].ty, TokenType::Number);
    assert_eq!(lit(&ts[0]), (12, 1));
    assert_eq!(ts[0].lexeme, "12");
    assert_eq!(lit(&ts[1]), (13, 4));
    assert_eq!(lit(&ts[2]), (4, 1));
    assert_eq!(ts[3].ty, TokenType::Unknown);
    assert_eq!(ts[3].lexeme, "1.2.3");
}

#[test]
fn strings_and_unterminated_strings() {
    let ts = scan_tokens("\"hello world\" \"open");
    assert_eq!(ts.len(), 2);
    assert_eq!(ts[0].ty, TokenType::Str);
    assert_eq!(ts[0].lexeme, "hello world");
    assert!(matches!(&ts[0].literal, Literal::Str(s) if s == "hello world"));
    assert_eq!(ts[1].ty, TokenType::Unknown);
    assert_eq!(ts[1].lexeme, "open");
}

#[test]
fn comments_whitespace_and_lines() {
    let ts = scan_tokens("a # note\n\tb\r\nc");
    let tys: Vec<TokenType> = ts.iter().map(|t| t.ty).collect();
    assert_eq!(
        tys,
        vec![
            TokenType::Identifier,
            TokenType::NewLine,
            TokenType::Identifier,
            TokenType::NewLine,
            TokenType::NewLine,
            TokenType::Identifier,
        ]
    );
    let lines: Vec<usize> = ts.iter().map(|t| t.line).collect();
    assert_eq!(lines, vec![1, 1, 2, 2, 3, 4]);
}

#[test]
fn unicode_letters_and_digits() {
    let ts = scan_tokens("héllo ٣ $");
    assert_eq!(ts[0].ty, TokenType::Identifier);
    assert_eq!(ts[0].lexeme, "héllo");
    assert_eq!(ts[1].ty, TokenType::Unknown);
    assert_eq!(ts[2].ty, TokenType::Unknown);
    assert_eq!(ts[2].lexeme, "$");
}

#[test]
fn empty_source() {
    assert!(scan_tokens("").is_empty());
    assert!(scan_tokens("  \t # only a comment").is_empty());
    let lines: Vec<usize> = scan_tokens("\n\n").iter().map(|t| t.line).collect();
    assert_eq!(lines, vec![1, 2]);
}

#[test]
fn first_unknown_token_is_found() {
    let ts = scan_tokens("a + $ @");
    assert_eq!(first_unknown(&ts), Some(2));
    assert_eq!(ts[2].lexeme, "$");
    assert_eq!(first_unknown(&scan_tokens("a + b")), None);
}

#[test]
fn unicode_white_space_is_skipped() {
    assert_eq!(kinds("a\u{a0}\u{3000}b\u{2003}"), vec![TokenType::Identifier, TokenType::Identifier]);
}

#[test]
fn ordinary_expression_tokens() {
    assert_eq!(
        kinds("3 + 5 * 4"),
        vec![TokenType::Number, TokenType::Plus, TokenType::Number, TokenType::Star, TokenType::Number]
    );
    assert_eq!(
        kinds("a == b != c <= d >= e = f"),
        vec![
            TokenType::Identifier,
            TokenType::Equal,
            TokenType::Identifier,
            TokenType::BangEqual,
            TokenType::Identifier,
            TokenType::LessEqual,
            TokenType::Identifier,
            TokenType::GreaterEqual,
            TokenType::Identifier,
            TokenType::Assign,
            TokenType::Identifier,
        ]
    );
}
