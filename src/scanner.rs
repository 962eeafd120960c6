use vstd::prelude::*;
use itertools::Itertools;
use crate::number::Number;
use crate::token::{token_views, Literal, LiteralView, Token, TokenType, TokenView};

verus! {

pub uninterp spec fn is_numeric_char(c: char) -> bool;

pub uninterp spec fn is_alphabetic_char(c: char) -> bool;

/// Whether `c` has the Unicode `White_Space` property, the set that
/// `char::is_whitespace` documents.
pub open spec fn is_whitespace_char(c: char) -> bool {
    ('\u{9}' <= c <= '\u{d}') || c == ' ' || c == '\u{85}' || c == '\u{a0}' || c == '\u{1680}'
        || ('\u{2000}' <= c <= '\u{200a}') || c == '\u{2028}' || c == '\u{2029}' || c == '\u{202f}'
        || c == '\u{205f}' || c == '\u{3000}'
}

/// Relies on `char::is_numeric`: whether `c` is in a Unicode numeric
/// category (Nd, Nl, No).
#[verifier::external_body]
fn numeric(c: char) -> (r: bool)
    ensures
        r == is_numeric_char(c),
{
    c.is_numeric()
}

/// Relies on `char::is_alphabetic`: whether `c` has the Unicode `Alphabetic`
/// property.
#[verifier::external_body]
fn alphabetic(c: char) -> (r: bool)
    ensures
        r == is_alphabetic_char(c),
{
    c.is_alphabetic()
}

/// Whether `c` is numeric: among ASCII characters the digits, beyond ASCII
/// the Unicode numeric categories.
pub open spec fn numeric_class(c: char) -> bool {
    if (c as u32) < 128 {
        '0' <= c <= '9'
    } else {
        is_numeric_char(c)
    }
}

/// Whether `c` is alphabetic: among ASCII characters the letters, beyond ASCII
/// the Unicode `Alphabetic` property.
pub open spec fn alphabetic_class(c: char) -> bool {
    if (c as u32) < 128 {
        ('a' <= c <= 'z') || ('A' <= c <= 'Z')
    } else {
        is_alphabetic_char(c)
    }
}

fn is_numeric_class(c: char) -> (r: bool)
    ensures
        r == numeric_class(c),
{
    if (c as u32) < 128 {
        '0' <= c && c <= '9'
    } else {
        numeric(c)
    }
}

fn is_alphabetic_class(c: char) -> (r: bool)
    ensures
        r == alphabetic_class(c),
{
    if (c as u32) < 128 {
        ('a' <= c && c <= 'z') || ('A' <= c && c <= 'Z')
    } else {
        alphabetic(c)
    }
}

/// Whether `c` has the Unicode `White_Space` property.
fn whitespace(c: char) -> (r: bool)
    ensures
        r == is_whitespace_char(c),
{
    ('\u{9}' <= c && c <= '\u{d}') || c == ' ' || c == '\u{85}' || c == '\u{a0}' || c == '\u{1680}'
        || ('\u{2000}' <= c && c <= '\u{200a}') || c == '\u{2028}' || c == '\u{2029}' || c == '\u{202f}'
        || c == '\u{205f}' || c == '\u{3000}'
}

/// The characters of `s`, in order.
pub(crate) fn chars_of(s: &str) -> (r: Vec<char>)
    ensures
        r@ == s@,
{
    broadcast use vstd::string::axiom_spec_iter;
    let mut out: Vec<char> = Vec::new();
    for c in it: s.chars()
        invariant
            it.seq() == s@,
            out@ == it.seq().subrange(0, it.index() as int),
    {
        out.push(c);
    }
    assert(out@ =~= s@);
    out
}

/// Relies on `String`'s `FromIterator<&char>`: the string of these characters.
#[verifier::external_body]
pub(crate) fn string_of(cs: &Vec<char>, start: usize, end: usize) -> (r: String)
    requires
        start <= end <= cs.len(),
    ensures
        r@ == cs@.subrange(start as int, end as int),
{
    cs[start..end].iter().collect()
}

/// The runs of characters that the scanner reads in one go.
#[derive(Clone, Copy, PartialEq, Eq, Structural)]
pub enum RunKind {
    /// The inside of a string literal.
    Quoted,
    /// A number.
    Digits,
    /// An identifier or a keyword.
    Word,
    /// A comment, up to the end of its line.
    Comment,
}

/// Whether `c` continues a run of kind `kind`.
pub open spec fn in_run(kind: RunKind, c: char) -> bool {
    match kind {
        RunKind::Quoted => c != '"',
        RunKind::Digits => numeric_class(c) || c == '.',
        RunKind::Word => alphabetic_class(c) || numeric_class(c) || c == '_',
        RunKind::Comment => c != '\n',
    }
}

fn continues(kind: RunKind, c: char) -> (r: bool)
    ensures
        r == in_run(kind, c),
{
    match kind {
        RunKind::Quoted => c != '"',
        RunKind::Digits => is_numeric_class(c) || c == '.',
        RunKind::Word => is_alphabetic_class(c) || is_numeric_class(c) || c == '_',
        RunKind::Comment => c != '\n',
    }
}

/// The end of the longest run of kind `kind` that starts at `start`.
pub open spec fn run_end(cs: Seq<char>, start: int, kind: RunKind) -> int
    decreases cs.len() - start,
{
    if start >= cs.len() {
        cs.len() as int
    } else if !in_run(kind, cs[start]) {
        start
    } else {
        run_end(cs, start + 1, kind)
    }
}

proof fn lemma_run_end(cs: Seq<char>, start: int, end: int, kind: RunKind)
    requires
        0 <= start <= end <= cs.len(),
        forall|i: int| start <= i < end ==> in_run(kind, cs[i]),
        end < cs.len() ==> !in_run(kind, cs[end]),
    ensures
        run_end(cs, start, kind) == end,
    decreases end - start,
{
    if start < end {
        lemma_run_end(cs, start + 1, end, kind);
    }
}

/// Relies on `itertools::Itertools::peeking_take_while` on a peekable iterator:
/// it yields items while the predicate holds and leaves the first item that
/// fails it unconsumed; `count` gives how many it yielded.
#[verifier::external_body]
fn take_run(cs: &Vec<char>, start: usize, kind: RunKind) -> (n: usize)
    requires
        start <= cs.len(),
    ensures
        start + n <= cs.len(),
        forall|i: int| start <= i < start + n ==> in_run(kind, cs@[i]),
        start + n < cs.len() ==> !in_run(kind, cs@[start + n]),
{
    let mut it = cs[start..].iter().peekable();
    it.peeking_take_while(|c| continues(kind, **c)).count()
}

fn run(cs: &Vec<char>, start: usize, kind: RunKind) -> (end: usize)
    requires
        start <= cs.len(),
    ensures
        end == run_end(cs@, start as int, kind),
        start <= end <= cs.len(),
{
    let end = start + take_run(cs, start, kind);
    proof {
        lemma_run_end(cs@, start as int, end as int, kind);
    }
    end
}

/// The value of a digit character.
pub open spec fn digit_value(c: char) -> int {
    c as int - '0' as int
}

/// Reads the digits of `s` from `i` on, with numerator `num` and denominator
/// `den` so far. Fails on a character that is neither an ASCII digit nor the
/// one decimal point, and where either part outgrows an `i64`.
pub open spec fn decimal_from(s: Seq<char>, i: int, num: int, den: int, dot: bool) -> Option<(int, int)>
    decreases s.len() - i,
{
    if i >= s.len() {
        Some((num, den))
    } else if s[i] == '.' {
        if dot {
            None
        } else {
            decimal_from(s, i + 1, num, den, true)
        }
    } else if '0' <= s[i] <= '9' {
        let n2 = num * 10 + digit_value(s[i]);
        let d2 = if dot { den * 10 } else { den };
        if n2 > i64::MAX || d2 > i64::MAX {
            None
        } else {
            decimal_from(s, i + 1, n2, d2, dot)
        }
    } else {
        None
    }
}

/// The exact value of a decimal numeral such as `12`, `3.25` or `4.`.
pub open spec fn decimal_of(s: Seq<char>) -> Option<Number> {
    match decimal_from(s, 0, 0, 1, false) {
        Some((n, d)) => Some(Number::ratio(n, d)->Ok_0),
        None => None,
    }
}

/// The kind of a word: a keyword, or an identifier.
pub open spec fn keyword(s: Seq<char>) -> TokenType {
    if s == "if"@ {
        TokenType::If
    } else if s == "else"@ {
        TokenType::Else
    } else if s == "elif"@ {
        TokenType::Elif
    } else if s == "true"@ {
        TokenType::True
    } else if s == "false"@ {
        TokenType::False
    } else if s == "for"@ {
        TokenType::For
    } else if s == "while"@ {
        TokenType::While
    } else if s == "fn"@ {
        TokenType::Function
    } else if s == "struct"@ {
        TokenType::Struct
    } else if s == "and"@ {
        TokenType::And
    } else if s == "or"@ {
        TokenType::Or
    } else if s == "print"@ {
        TokenType::Print
    } else {
        TokenType::Identifier
    }
}

/// A token without a literal over the characters `start..end`.
pub open spec fn plain(ty: TokenType, cs: Seq<char>, start: int, end: int, line: usize) -> TokenView {
    TokenView { ty, lexeme: cs.subrange(start, end), literal: LiteralView::Empty, line }
}

/// The line after `line`; it stays at the largest `usize`.
pub open spec fn next_line(line: usize) -> usize {
    if line < usize::MAX {
        (line + 1) as usize
    } else {
        line
    }
}

/// A string literal whose opening quote is at `pos - 1`.
pub open spec fn string_token(cs: Seq<char>, pos: int, line: usize) -> (TokenView, int) {
    let e = run_end(cs, pos, RunKind::Quoted);
    if e < cs.len() {
        (TokenView { ty: TokenType::Str, lexeme: cs.subrange(pos, e), literal: LiteralView::Str(cs.subrange(pos, e)), line }, e + 1)
    } else {
        (plain(TokenType::Unknown, cs, pos, e, line), e)
    }
}

/// A number whose first character is at `pos - 1`.
pub open spec fn number_token(cs: Seq<char>, pos: int, line: usize) -> (TokenView, int) {
    let e = run_end(cs, pos, RunKind::Digits);
    match decimal_of(cs.subrange(pos - 1, e)) {
        Some(n) => (TokenView { ty: TokenType::Number, lexeme: cs.subrange(pos - 1, e), literal: LiteralView::Number(n), line }, e),
        None => (plain(TokenType::Unknown, cs, pos - 1, e, line), e),
    }
}

/// A keyword or identifier whose first character is at `pos - 1`.
pub open spec fn word_token(cs: Seq<char>, pos: int, line: usize) -> (TokenView, int) {
    let e = run_end(cs, pos, RunKind::Word);
    (plain(keyword(cs.subrange(pos - 1, e)), cs, pos - 1, e, line), e)
}

/// The kind of a one-character token, if `c` is one.
pub open spec fn single(c: char) -> Option<TokenType> {
    if c == '(' {
        Some(TokenType::LParen)
    } else if c == ')' {
        Some(TokenType::RParen)
    } else if c == '{' {
        Some(TokenType::LBrace)
    } else if c == '}' {
        Some(TokenType::RBrace)
    } else if c == '[' {
        Some(TokenType::LBracket)
    } else if c == ']' {
        Some(TokenType::RBracket)
    } else if c == ',' {
        Some(TokenType::Comma)
    } else if c == '*' {
        Some(TokenType::Star)
    } else if c == '/' {
        Some(TokenType::Slash)
    } else if c == '%' {
        Some(TokenType::Percent)
    } else if c == '.' {
        Some(TokenType::Dot)
    } else {
        None
    }
}

/// The kinds of an operator that may be followed by `=`: alone, and with it.
pub open spec fn with_equal(c: char) -> Option<(TokenType, TokenType)> {
    if c == '+' {
        Some((TokenType::Plus, TokenType::PlusAssign))
    } else if c == '-' {
        Some((TokenType::Minus, TokenType::MinusAssign))
    } else if c == '!' {
        Some((TokenType::Bang, TokenType::BangEqual))
    } else if c == '<' {
        Some((TokenType::Less, TokenType::LessEqual))
    } else if c == '>' {
        Some((TokenType::Greater, TokenType::GreaterEqual))
    } else if c == '=' {
        Some((TokenType::Assign, TokenType::Equal))
    } else {
        None
    }
}

/// The token that starts at `pos`, where it ends, and the line after it.
pub open spec fn next_token(cs: Seq<char>, pos: int, line: usize) -> (TokenView, int, usize) {
    let c = cs[pos];
    if c == '\n' || c == '\r' {
        (plain(TokenType::NewLine, cs, pos, pos + 1, line), pos + 1, next_line(line))
    } else if single(c) is Some {
        (plain(single(c)->Some_0, cs, pos, pos + 1, line), pos + 1, line)
    } else if c == '#' {
        let e = run_end(cs, pos + 1, RunKind::Comment);
        (plain(TokenType::Hash, cs, pos, e, line), e, line)
    } else if with_equal(c) is Some {
        if pos + 1 < cs.len() && cs[pos + 1] == '=' {
            (plain(with_equal(c)->Some_0.1, cs, pos, pos + 2, line), pos + 2, line)
        } else {
            (plain(with_equal(c)->Some_0.0, cs, pos, pos + 1, line), pos + 1, line)
        }
    } else if c == '"' {
        let (t, e) = string_token(cs, pos + 1, line);
        (t, e, line)
    } else if numeric_class(c) {
        let (t, e) = number_token(cs, pos + 1, line);
        (t, e, line)
    } else if alphabetic_class(c) {
        let (t, e) = word_token(cs, pos + 1, line);
        (t, e, line)
    } else if is_whitespace_char(c) {
        (plain(TokenType::WhiteSpace, cs, pos, pos + 1, line), pos + 1, line)
    } else {
        (plain(TokenType::Unknown, cs, pos, pos + 1, line), pos + 1, line)
    }
}

/// The tokens from `pos` on, without white space and comments.
pub open spec fn scan_from(cs: Seq<char>, pos: int, line: usize) -> Seq<TokenView>
    decreases cs.len() - pos,
{
    if pos < 0 || pos >= cs.len() {
        Seq::empty()
    } else {
        let (t, p2, l2) = next_token(cs, pos, line);
        let rest = if pos < p2 <= cs.len() {
            scan_from(cs, p2, l2)
        } else {
            Seq::empty()
        };
        if t.ty == TokenType::WhiteSpace || t.ty == TokenType::Hash {
            rest
        } else {
            seq![t] + rest
        }
    }
}



fn plain_token(cs: &Vec<char>, ty: TokenType, start: usize, end: usize, line: usize) -> (t: Token)
    requires
        start <= end <= cs.len(),
    ensures
        t@ == plain(ty, cs@, start as int, end as int, line),
{
    Token::new(ty, string_of(cs, start, end), Literal::Empty, line)
}

fn parse_decimal(cs: &Vec<char>, start: usize, end: usize) -> (r: Option<Number>)
    requires
        start <= end <= cs.len(),
    ensures
        r == decimal_of(cs@.subrange(start as int, end as int)),
{
    let ghost s = cs@.subrange(start as int, end as int);
    let mut num: i64 = 0;
    let mut den: i64 = 1;
    let mut dot = false;
    let mut i: usize = start;
    while i < end
        invariant
            start <= i <= end <= cs.len(),
            s == cs@.subrange(start as int, end as int),
            0 <= num,
            1 <= den,
            decimal_from(s, 0, 0, 1, false) == decimal_from(s, i - start, num as int, den as int, dot),
        decreases end - i,
    {
        let c = cs[i];
        assert(s[i - start] == c);
        if c == '.' {
            if dot {
                return None;
            }
            dot = true;
        } else if '0' <= c && c <= '9' {
            let n2: i128 = (num as i128) * 10 + ((c as u32 - '0' as u32) as i128);
            let d2: i128 = if dot { (den as i128) * 10 } else { den as i128 };
            if n2 > i64::MAX as i128 || d2 > i64::MAX as i128 {
                return None;
            }
            num = n2 as i64;
            den = d2 as i64;
        } else {
            return None;
        }
        i += 1;
    }
    Number::new(num, den)
}

fn is_word(lex: &String, w: &str) -> (r: bool)
    ensures
        r == (lex@ == w@),
{
    *lex == String::from_str(w)
}

fn keyword_of(lex: &String) -> (r: TokenType)
    ensures
        r == keyword(lex@),
{
    if is_word(lex, "if") {
        TokenType::If
    } else if is_word(lex, "else") {
        TokenType::Else
    } else if is_word(lex, "elif") {
        TokenType::Elif
    } else if is_word(lex, "true") {
        TokenType::True
    } else if is_word(lex, "false") {
        TokenType::False
    } else if is_word(lex, "for") {
        TokenType::For
    } else if is_word(lex, "while") {
        TokenType::While
    } else if is_word(lex, "fn") {
        TokenType::Function
    } else if is_word(lex, "struct") {
        TokenType::Struct
    } else if is_word(lex, "and") {
        TokenType::And
    } else if is_word(lex, "or") {
        TokenType::Or
    } else if is_word(lex, "print") {
        TokenType::Print
    } else {
        TokenType::Identifier
    }
}

/// A string literal whose opening quote stands just before `pos`.
fn scan_string(cs: &Vec<char>, pos: usize, line: usize) -> (r: (Token, usize))
    requires
        1 <= pos <= cs.len(),
    ensures
        (r.0@, r.1 as int) == string_token(cs@, pos as int, line),
        pos <= r.1 <= cs.len(),
{
    let e = run(cs, pos, RunKind::Quoted);
    if e < cs.len() {
        let text = string_of(cs, pos, e);
        let lit = string_of(cs, pos, e);
        (Token::new(TokenType::Str, text, Literal::Str(lit), line), e + 1)
    } else {
        (plain_token(cs, TokenType::Unknown, pos, e, line), e)
    }
}

/// A number whose first character stands just before `pos`.
fn scan_number(cs: &Vec<char>, pos: usize, line: usize) -> (r: (Token, usize))
    requires
        1 <= pos <= cs.len(),
    ensures
        (r.0@, r.1 as int) == number_token(cs@, pos as int, line),
        pos <= r.1 <= cs.len(),
{
    let e = run(cs, pos, RunKind::Digits);
    match parse_decimal(cs, pos - 1, e) {
        Some(n) => (Token::new(TokenType::Number, string_of(cs, pos - 1, e), Literal::Number(n), line), e),
        None => (plain_token(cs, TokenType::Unknown, pos - 1, e, line), e),
    }
}

/// A keyword or an identifier whose first character stands just before `pos`.
fn scan_identifier(cs: &Vec<char>, pos: usize, line: usize) -> (r: (Token, usize))
    requires
        1 <= pos <= cs.len(),
    ensures
        (r.0@, r.1 as int) == word_token(cs@, pos as int, line),
        pos <= r.1 <= cs.len(),
{
    let e = run(cs, pos, RunKind::Word);
    let lexeme = string_of(cs, pos - 1, e);
    let ty = keyword_of(&lexeme);
    (Token::new(ty, lexeme, Literal::Empty, line), e)
}

/// The end of a comment that goes on from `pos`: the next line break, or the end.
fn skip_comment(cs: &Vec<char>, pos: usize) -> (r: usize)
    requires
        pos <= cs.len(),
    ensures
        r == run_end(cs@, pos as int, RunKind::Comment),
        pos <= r <= cs.len(),
{
    run(cs, pos, RunKind::Comment)
}

fn single_of(c: char) -> (r: Option<TokenType>)
    ensures
        r == single(c),
{
    if c == '(' {
        Some(TokenType::LParen)
    } else if c == ')' {
        Some(TokenType::RParen)
    } else if c == '{' {
        Some(TokenType::LBrace)
    } else if c == '}' {
        Some(TokenType::RBrace)
    } else if c == '[' {
        Some(TokenType::LBracket)
    } else if c == ']' {
        Some(TokenType::RBracket)
    } else if c == ',' {
        Some(TokenType::Comma)
    } else if c == '*' {
        Some(TokenType::Star)
    } else if c == '/' {
        Some(TokenType::Slash)
    } else if c == '%' {
        Some(TokenType::Percent)
    } else if c == '.' {
        Some(TokenType::Dot)
    } else {
        None
    }
}

fn with_equal_of(c: char) -> (r: Option<(TokenType, TokenType)>)
    ensures
        r == with_equal(c),
{
    if c == '+' {
        Some((TokenType::Plus, TokenType::PlusAssign))
    } else if c == '-' {
        Some((TokenType::Minus, TokenType::MinusAssign))
    } else if c == '!' {
        Some((TokenType::Bang, TokenType::BangEqual))
    } else if c == '<' {
        Some((TokenType::Less, TokenType::LessEqual))
    } else if c == '>' {
        Some((TokenType::Greater, TokenType::GreaterEqual))
    } else if c == '=' {
        Some((TokenType::Assign, TokenType::Equal))
    } else {
        None
    }
}

/// Splits source text into tokens, numbering lines from 1. White space and
/// comments are dropped; characters that start no token become `Unknown` tokens.
pub fn scan_tokens(source: &str) -> (r: Vec<Token>)
    ensures
        token_views(r@) == scan_from(source@, 0, 1),
{
    let cs = chars_of(source);
    let mut out: Vec<Token> = Vec::new();
    let mut pos: usize = 0;
    let mut line: usize = 1;
    assert(token_views(out@) + scan_from(cs@, 0, 1) =~= scan_from(cs@, 0, 1));
    while pos < cs.len()
        invariant
            pos <= cs.len(),
            cs@ == source@,
            token_views(out@) + scan_from(cs@, pos as int, line) == scan_from(cs@, 0, 1),
        decreases cs.len() - pos,
    {
        let c = cs[pos];
        let (t, p2, l2): (Token, usize, usize) = if c == '\n' || c == '\r' {
            let l2 = if line < usize::MAX { line + 1 } else { line };
            (plain_token(&cs, TokenType::NewLine, pos, pos + 1, line), pos + 1, l2)
        } else if let Some(ty) = single_of(c) {
            (plain_token(&cs, ty, pos, pos + 1, line), pos + 1, line)
        } else if c == '#' {
            let e = skip_comment(&cs, pos + 1);
            (plain_token(&cs, TokenType::Hash, pos, e, line), e, line)
        } else if let Some((alone, joined)) = with_equal_of(c) {
            if pos + 1 < cs.len() && cs[pos + 1] == '=' {
                (plain_token(&cs, joined, pos, pos + 2, line), pos + 2, line)
            } else {
                (plain_token(&cs, alone, pos, pos + 1, line), pos + 1, line)
            }
        } else if c == '"' {
            let (t, e) = scan_string(&cs, pos + 1, line);
            (t, e, line)
        } else if is_numeric_class(c) {
            let (t, e) = scan_number(&cs, pos + 1, line);
            (t, e, line)
        } else if is_alphabetic_class(c) {
            let (t, e) = scan_identifier(&cs, pos + 1, line);
            (t, e, line)
        } else if whitespace(c) {
            (plain_token(&cs, TokenType::WhiteSpace, pos, pos + 1, line), pos + 1, line)
        } else {
            (plain_token(&cs, TokenType::Unknown, pos, pos + 1, line), pos + 1, line)
        };
        assert(next_token(cs@, pos as int, line) == (t@, p2 as int, l2));
        let ghost before = token_views(out@);
        if t.ty != TokenType::WhiteSpace && t.ty != TokenType::Hash {
            let ghost tv = t@;
            out.push(t);
            assert(token_views(out@) =~= before.push(tv));
            assert(before + scan_from(cs@, pos as int, line) =~= token_views(out@) + scan_from(cs@, p2 as int, l2));
        }
        pos = p2;
        line = l2;
    }
    assert(token_views(out@) + scan_from(cs@, pos as int, line) =~= token_views(out@));
    out
}

/// The position of the first `Unknown` token: the lexical error to report.
pub fn first_unknown(tokens: &Vec<Token>) -> (r: Option<usize>)
    ensures
        match r {
            Some(i) => i < tokens.len() && tokens@[i as int].ty == TokenType::Unknown && forall|k: int|
                0 <= k < i ==> tokens@[k].ty != TokenType::Unknown,
            None => forall|k: int| 0 <= k < tokens.len() ==> tokens@[k].ty != TokenType::Unknown,
        },
{
    let mut i: usize = 0;
    while i < tokens.len()
        invariant
            i <= tokens.len(),
            forall|k: int| 0 <= k < i ==> tokens@[k].ty != TokenType::Unknown,
        decreases tokens.len() - i,
    {
        if tokens[i].ty == TokenType::Unknown {
            return Some(i);
        }
        i += 1;
    }
    None
}

} // verus!
