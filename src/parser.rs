use vstd::prelude::*;
use crate::error::ParseError;
use crate::token::{token_views, Literal, LiteralView, Token, TokenType, TokenView};
use crate::tree::{lemma_views_push, views, Atom, AtomView, Op, S, SView};

verus! {

/// The tokens of `ts` as a stack: the first token is on top, at the end.
pub open spec fn stack_of(ts: Seq<TokenView>) -> Seq<TokenView> {
    Seq::new(ts.len(), |i: int| ts[ts.len() - 1 - i])
}

/// The kind of the token on top of the stack; `EOF` when it is empty.
pub open spec fn peek_ty(st: Seq<TokenView>) -> TokenType {
    if st.len() == 0 {
        TokenType::EOF
    } else {
        st.last().ty
    }
}

/// The error that reports the token on top of the stack.
pub open spec fn error_at(st: Seq<TokenView>) -> ParseError {
    if st.len() == 0 {
        ParseError { ty: TokenType::EOF, line: 0 }
    } else {
        ParseError { ty: st.last().ty, line: st.last().line }
    }
}

/// The operator that a token stands for after a complete operand.
pub open spec fn infix_op(ty: TokenType) -> Option<Op> {
    match ty {
        TokenType::Plus => Some(Op::Plus),
        TokenType::Minus => Some(Op::Minus),
        TokenType::Star => Some(Op::Multiply),
        TokenType::Slash => Some(Op::Divide),
        TokenType::Percent => Some(Op::Mod),
        TokenType::Equal => Some(Op::Equal),
        TokenType::BangEqual => Some(Op::NotEqual),
        TokenType::Less => Some(Op::Less),
        TokenType::Greater => Some(Op::Greater),
        TokenType::And => Some(Op::And),
        TokenType::Or => Some(Op::Or),
        TokenType::LBracket => Some(Op::Indexing),
        TokenType::Dot => Some(Op::Access),
        _ => None,
    }
}

/// Left and right binding powers: logic < comparison < additive <
/// multiplicative < negation < indexing and access. Equal powers on both
/// sides would make an operator right-associative; `l < r` makes it left-associative.
pub open spec fn binding_power(op: Op) -> (u8, u8) {
    match op {
        Op::And | Op::Or => (1, 2),
        Op::Equal | Op::NotEqual | Op::Less | Op::Greater => (3, 4),
        Op::Plus | Op::Minus => (5, 6),
        Op::Multiply | Op::Divide | Op::Mod => (7, 8),
        Op::Indexing | Op::Access => (11, 12),
    }
}

/// The right binding power of prefix negation.
pub const NEGATE_BP: u8 = 9;

/// One operand: a literal, an identifier, a parenthesised expression, an
/// array literal, or a negated operand.
pub open spec fn parse_primary(st: Seq<TokenView>) -> Result<(SView, Seq<TokenView>), ParseError>
    decreases st.len(), 1nat,
{
    if st.len() == 0 {
        Err(error_at(st))
    } else {
        let t = st.last();
        let rest = st.drop_last();
        match t.ty {
            TokenType::Number => match t.literal {
                LiteralView::Number(n) => Ok((SView::Atom(AtomView::Num(n)), rest)),
                _ => Err(error_at(st)),
            },
            TokenType::Str => Ok((SView::Atom(AtomView::Str(t.lexeme)), rest)),
            TokenType::Identifier => Ok((SView::Atom(AtomView::Identifier(t.lexeme)), rest)),
            TokenType::True => Ok((SView::Atom(AtomView::Bool(true)), rest)),
            TokenType::False => Ok((SView::Atom(AtomView::Bool(false)), rest)),
            TokenType::LParen => match parse_bp(rest, 0) {
                Err(e) => Err(e),
                Ok((e, r2)) => if peek_ty(r2) == TokenType::RParen {
                    Ok((e, r2.drop_last()))
                } else {
                    Err(error_at(r2))
                },
            },
            TokenType::LBracket => if peek_ty(rest) == TokenType::RBracket {
                Ok((SView::Atom(AtomView::Array(Seq::empty())), rest.drop_last()))
            } else {
                parse_elems(rest, Seq::empty())
            },
            TokenType::Minus => match parse_bp(rest, NEGATE_BP) {
                Err(e) => Err(e),
                Ok((e, r2)) => Ok((SView::Cons(Op::Minus, seq![e]), r2)),
            },
            _ => Err(error_at(st)),
        }
    }
}

/// The elements of an array literal after `acc`, up to the closing bracket.
pub open spec fn parse_elems(st: Seq<TokenView>, acc: Seq<SView>) -> Result<(SView, Seq<TokenView>), ParseError>
    decreases st.len(), 3nat,
{
    match parse_bp(st, 0) {
        Err(e) => Err(e),
        Ok((e, r2)) => if peek_ty(r2) == TokenType::RBracket {
            Ok((SView::Atom(AtomView::Array(acc.push(e))), r2.drop_last()))
        } else if peek_ty(r2) == TokenType::Comma && r2.len() <= st.len() {
            parse_elems(r2.drop_last(), acc.push(e))
        } else {
            Err(error_at(r2))
        },
    }
}

/// An expression whose operators all bind at least as tightly as `bp`.
pub open spec fn parse_bp(st: Seq<TokenView>, bp: u8) -> Result<(SView, Seq<TokenView>), ParseError>
    decreases st.len(), 2nat,
{
    match parse_primary(st) {
        Err(e) => Err(e),
        Ok((lhs, rest)) => if rest.len() < st.len() {
            parse_loop(rest, bp, lhs)
        } else {
            Err(error_at(rest))
        },
    }
}

/// Folds the operators that follow the operand `lhs` into it.
pub open spec fn parse_loop(st: Seq<TokenView>, bp: u8, lhs: SView) -> Result<(SView, Seq<TokenView>), ParseError>
    decreases st.len(), 0nat,
{
    match infix_op(peek_ty(st)) {
        None => Ok((lhs, st)),
        Some(op) => if binding_power(op).0 < bp || st.len() == 0 {
            Ok((lhs, st))
        } else if op == Op::Indexing {
            match parse_bp(st.drop_last(), 0) {
                Err(e) => Err(e),
                Ok((i, r2)) => if peek_ty(r2) == TokenType::RBracket && r2.len() < st.len() {
                    parse_loop(r2.drop_last(), bp, SView::Cons(op, seq![lhs, i]))
                } else {
                    Err(error_at(r2))
                },
            }
        } else {
            match parse_bp(st.drop_last(), binding_power(op).1) {
                Err(e) => Err(e),
                Ok((rhs, r2)) => if r2.len() < st.len() {
                    parse_loop(r2, bp, SView::Cons(op, seq![lhs, rhs]))
                } else {
                    Err(error_at(r2))
                },
            }
        },
    }
}

/// What an exec parse step owes: the spec's tree and the tokens left, or its error.
pub open spec fn parsed(
    spec_r: Result<(SView, Seq<TokenView>), ParseError>,
    r: Result<S, ParseError>,
    before: Seq<TokenView>,
    after: Seq<TokenView>,
) -> bool {
    match spec_r {
        Ok((e, rest)) => r is Ok && r->Ok_0@ == e && after == rest && after.len() < before.len(),
        Err(err) => r == Err::<S, ParseError>(err),
    }
}

/// An error found at the end of the tokens, reported on `end`, the line of the
/// last token of the input.
pub open spec fn at_end(
    r: Result<(SView, Seq<TokenView>), ParseError>,
    end: usize,
) -> Result<(SView, Seq<TokenView>), ParseError> {
    match r {
        Err(e) => if e.ty == TokenType::EOF && e.line == 0 {
            Err(ParseError { ty: TokenType::EOF, line: end })
        } else {
            r
        },
        Ok(_) => r,
    }
}

/// The tokens still to be parsed, next one last, and the line of the last
/// token of the input.
pub struct Lexer {
    tokens: Vec<Token>,
    end_line: usize,
}

impl Lexer {
    pub closed spec fn stack(&self) -> Seq<TokenView> {
        token_views(self.tokens@)
    }

    /// The line of the last token of the input, 0 where it had none.
    pub closed spec fn end_line(&self) -> usize {
        self.end_line
    }

    pub fn new(tokens: Vec<Token>) -> (r: Lexer)
        ensures
            r.stack() == stack_of(token_views(tokens@)),
            r.end_line() == if tokens@.len() > 0 { tokens@.last().line } else { 0 },
    {
        let end_line = if tokens.len() > 0 { tokens[tokens.len() - 1].line } else { 0 };
        let ghost orig = tokens@;
        let mut tokens = tokens;
        let mut out: Vec<Token> = Vec::new();
        while tokens.len() > 0
            invariant
                tokens.len() + out.len() == orig.len(),
                tokens@ == orig.subrange(0, tokens.len() as int),
                forall|k: int| 0 <= k < out.len() ==> out@[k] == orig[orig.len() - 1 - k],
            decreases tokens.len(),
        {
            let t = tokens.pop().unwrap();
            out.push(t);
        }
        assert(token_views(out@) =~= stack_of(token_views(orig)));
        Lexer { tokens: out, end_line }
    }

    fn next(&mut self) -> (t: Token)
        ensures
            old(self).stack().len() > 0 ==> t@ == old(self).stack().last() && final(self).stack()
                == old(self).stack().drop_last(),
            old(self).stack().len() == 0 ==> t.ty == TokenType::EOF && final(self).stack() == old(
                self,
            ).stack(),
    {
        let ghost v = self.tokens@;
        let r = match self.tokens.pop() {
            Some(t) => t,
            None => Token::from_ty(TokenType::EOF),
        };
        proof {
            if v.len() > 0 {
                assert(token_views(v.drop_last()) =~= token_views(v).drop_last());
            }
        }
        r
    }

    fn peek(&self) -> (r: TokenType)
        ensures
            r == peek_ty(self.stack()),
    {
        if self.tokens.len() == 0 {
            TokenType::EOF
        } else {
            self.tokens[self.tokens.len() - 1].ty
        }
    }

    fn line(&self) -> (r: usize)
        ensures
            self.stack().len() > 0 ==> r == self.stack().last().line,
            self.stack().len() == 0 ==> r == 0,
    {
        if self.tokens.len() == 0 {
            0
        } else {
            self.tokens[self.tokens.len() - 1].line
        }
    }

    fn error_here(&self) -> (r: ParseError)
        ensures
            r == error_at(self.stack()),
    {
        ParseError { ty: self.peek(), line: self.line() }
    }
}

fn infix_op_of(ty: TokenType) -> (r: Option<Op>)
    ensures
        r == infix_op(ty),
{
    match ty {
        TokenType::Plus => Some(Op::Plus),
        TokenType::Minus => Some(Op::Minus),
        TokenType::Star => Some(Op::Multiply),
        TokenType::Slash => Some(Op::Divide),
        TokenType::Percent => Some(Op::Mod),
        TokenType::Equal => Some(Op::Equal),
        TokenType::BangEqual => Some(Op::NotEqual),
        TokenType::Less => Some(Op::Less),
        TokenType::Greater => Some(Op::Greater),
        TokenType::And => Some(Op::And),
        TokenType::Or => Some(Op::Or),
        TokenType::LBracket => Some(Op::Indexing),
        TokenType::Dot => Some(Op::Access),
        _ => None,
    }
}

fn infix_binding_power(op: &Op) -> (r: (u8, u8))
    ensures
        r == binding_power(*op),
{
    match op {
        Op::And | Op::Or => (1, 2),
        Op::Equal | Op::NotEqual | Op::Less | Op::Greater => (3, 4),
        Op::Plus | Op::Minus => (5, 6),
        Op::Multiply | Op::Divide | Op::Mod => (7, 8),
        Op::Indexing | Op::Access => (11, 12),
    }
}

fn pair(op: Op, a: S, b: S) -> (r: S)
    ensures
        r@ == SView::Cons(op, seq![a@, b@]),
{
    let mut v: Vec<S> = Vec::new();
    proof {
        lemma_views_push(v@, a);
        lemma_views_push(v@.push(a), b);
        assert(views(v@) =~= Seq::<SView>::empty());
    }
    v.push(a);
    v.push(b);
    assert(views(v@) =~= seq![a@, b@]);
    S::Cons(op, v)
}

/// Parses one expression from the lexer. Running out of tokens is reported as
/// `EOF` on the line of the input's last token.
pub fn expr(lexer: &mut Lexer) -> (r: Result<S, ParseError>)
    ensures
        parsed(at_end(parse_bp(old(lexer).stack(), 0), old(lexer).end_line()), r, old(lexer).stack(), final(lexer).stack()),
{
    let end = lexer.end_line;
    match expr_bp(lexer, 0) {
        Err(e) => if e.ty == TokenType::EOF && e.line == 0 {
            Err(ParseError { ty: TokenType::EOF, line: end })
        } else {
            Err(e)
        },
        Ok(t) => Ok(t),
    }
}

fn primary(lexer: &mut Lexer) -> (r: Result<S, ParseError>)
    ensures
        parsed(parse_primary(old(lexer).stack()), r, old(lexer).stack(), final(lexer).stack()),
    decreases old(lexer).stack().len(), 1nat,
{
    if lexer.tokens.len() == 0 {
        return Err(lexer.error_here());
    }
    let ghost st = lexer.stack();
    let err = lexer.error_here();
    let t = lexer.next();
    match t.ty {
        TokenType::Number => match t.literal {
            Literal::Number(n) => Ok(S::Atom(Atom::Num(n))),
            _ => Err(err),
        },
        TokenType::Str => Ok(S::Atom(Atom::Str(t.lexeme))),
        TokenType::Identifier => Ok(S::Atom(Atom::Identifier(t.lexeme))),
        TokenType::True => Ok(S::Atom(Atom::Bool(true))),
        TokenType::False => Ok(S::Atom(Atom::Bool(false))),
        TokenType::LParen => {
            let e = match expr_bp(lexer, 0) {
                Ok(e) => e,
                Err(e) => {
                    return Err(e);
                },
            };
            if lexer.peek() == TokenType::RParen {
                lexer.next();
                Ok(e)
            } else {
                Err(lexer.error_here())
            }
        },
        TokenType::LBracket => {
            if lexer.peek() == TokenType::RBracket {
                lexer.next();
                let v: Vec<S> = Vec::new();
                assert(views(v@) =~= Seq::<SView>::empty());
                Ok(S::Atom(Atom::Array(v)))
            } else {
                let acc: Vec<S> = Vec::new();
                assert(views(acc@) =~= Seq::<SView>::empty());
                elements(lexer, acc)
            }
        },
        TokenType::Minus => {
            let e = match expr_bp(lexer, NEGATE_BP) {
                Ok(e) => e,
                Err(e) => {
                    return Err(e);
                },
            };
            let mut v: Vec<S> = Vec::new();
            proof {
                lemma_views_push(v@, e);
                assert(views(v@) =~= Seq::<SView>::empty());
            }
            v.push(e);
            assert(views(v@) =~= seq![v@[0]@]);
            Ok(S::Cons(Op::Minus, v))
        },
        _ => Err(err),
    }
}

fn elements(lexer: &mut Lexer, acc: Vec<S>) -> (r: Result<S, ParseError>)
    ensures
        parsed(parse_elems(old(lexer).stack(), views(acc@)), r, old(lexer).stack(), final(lexer).stack()),
    decreases old(lexer).stack().len(), 3nat,
{
    let mut acc = acc;
    let e = match expr_bp(lexer, 0) {
        Ok(e) => e,
        Err(e) => {
            return Err(e);
        },
    };
    proof {
        lemma_views_push(acc@, e);
    }
    acc.push(e);
    if lexer.peek() == TokenType::RBracket {
        lexer.next();
        Ok(S::Atom(Atom::Array(acc)))
    } else if lexer.peek() == TokenType::Comma {
        lexer.next();
        elements(lexer, acc)
    } else {
        Err(lexer.error_here())
    }
}

fn expr_bp(lexer: &mut Lexer, bp: u8) -> (r: Result<S, ParseError>)
    ensures
        parsed(parse_bp(old(lexer).stack(), bp), r, old(lexer).stack(), final(lexer).stack()),
    decreases old(lexer).stack().len(), 2nat,
{
    let ghost st0 = lexer.stack();
    let mut lhs = match primary(lexer) {
        Ok(l) => l,
        Err(e) => {
            return Err(e);
        },
    };
    loop
        invariant
            st0 == old(lexer).stack(),
            lexer.stack().len() < st0.len(),
            parse_bp(st0, bp) == parse_loop(lexer.stack(), bp, lhs@),
        decreases lexer.stack().len(),
    {
        let op = match infix_op_of(lexer.peek()) {
            Some(op) => op,
            None => {
                return Ok(lhs);
            },
        };
        let (l_bp, r_bp) = infix_binding_power(&op);
        if l_bp < bp || lexer.tokens.len() == 0 {
            return Ok(lhs);
        }
        lexer.next();
        if op == Op::Indexing {
            let i = match expr_bp(lexer, 0) {
                Ok(i) => i,
                Err(e) => {
                    return Err(e);
                },
            };
            if lexer.peek() != TokenType::RBracket {
                return Err(lexer.error_here());
            }
            lexer.next();
            lhs = pair(op, lhs, i);
        } else {
            let rhs = match expr_bp(lexer, r_bp) {
                Ok(r) => r,
                Err(e) => {
                    return Err(e);
                },
            };
            lhs = pair(op, lhs, rhs);
        }
    }
}

} // verus!
