use vstd::prelude::*;
use crate::error::ParseError;
use crate::parser::{binding_power, infix_op, parse_bp, parse_elems, parse_loop, parse_primary, stack_of};
use crate::token::{token_views, Literal, LiteralView, Token, TokenType, TokenView};
use crate::tree::{lemma_views_index, lemma_views_len, views, Atom, AtomView, Op, S, SView};

verus! {

/// A token with no text, no literal and no line.
pub open spec fn mark(ty: TokenType) -> TokenView {
    TokenView { ty, lexeme: Seq::empty(), literal: LiteralView::Empty, line: 0 }
}

/// The token that stands for an operator.
pub open spec fn op_token(op: Op) -> TokenType {
    match op {
        Op::Plus => TokenType::Plus,
        Op::Minus => TokenType::Minus,
        Op::Multiply => TokenType::Star,
        Op::Divide => TokenType::Slash,
        Op::Mod => TokenType::Percent,
        Op::Equal => TokenType::Equal,
        Op::NotEqual => TokenType::BangEqual,
        Op::Less => TokenType::Less,
        Op::Greater => TokenType::Greater,
        Op::And => TokenType::And,
        Op::Or => TokenType::Or,
        Op::Indexing => TokenType::LBracket,
        Op::Access => TokenType::Dot,
    }
}

/// The canonical token form of a tree: every operator application in
/// parentheses, infix where it has two operands, prefix where it has one;
/// indexing as `a[i]`; arrays as bracketed lists.
pub open spec fn print_view(e: SView) -> Seq<TokenView>
    decreases e,
{
    match e {
        SView::Atom(a) => match a {
            AtomView::Num(n) => seq![TokenView { ty: TokenType::Number, lexeme: Seq::empty(), literal: LiteralView::Number(n), line: 0 }],
            AtomView::Str(s) => seq![TokenView { ty: TokenType::Str, lexeme: s, literal: LiteralView::Str(s), line: 0 }],
            AtomView::Bool(b) => seq![mark(if b { TokenType::True } else { TokenType::False })],
            AtomView::Identifier(s) => seq![TokenView { ty: TokenType::Identifier, lexeme: s, literal: LiteralView::Empty, line: 0 }],
            AtomView::Array(xs) => seq![mark(TokenType::LBracket)] + print_list(xs) + seq![mark(TokenType::RBracket)],
        },
        SView::Cons(op, xs) => if xs.len() == 2 && op == Op::Indexing {
            seq![mark(TokenType::LParen)] + print_view(xs[0]) + seq![mark(TokenType::LBracket)] + print_view(xs[1])
                + seq![mark(TokenType::RBracket), mark(TokenType::RParen)]
        } else if xs.len() == 2 {
            seq![mark(TokenType::LParen)] + print_view(xs[0]) + seq![mark(op_token(op))] + print_view(xs[1])
                + seq![mark(TokenType::RParen)]
        } else {
            seq![mark(TokenType::LParen), mark(op_token(op))] + print_list(xs) + seq![mark(TokenType::RParen)]
        },
    }
}

/// The token forms of trees, separated by commas.
pub open spec fn print_list(xs: Seq<SView>) -> Seq<TokenView>
    decreases xs,
{
    if xs.len() == 0 {
        Seq::empty()
    } else if xs.len() == 1 {
        print_view(xs[0])
    } else {
        print_view(xs[0]) + seq![mark(TokenType::Comma)] + print_list(xs.drop_first())
    }
}

/// Whether every tree of `xs` is printable.
pub open spec fn all_printable(xs: Seq<SView>) -> bool
    decreases xs,
{
    if xs.len() == 0 {
        true
    } else {
        printable(xs[0]) && all_printable(xs.drop_first())
    }
}

/// The trees whose token form parses back to themselves: two operands for
/// each operator, or one for a negation, and printable array elements.
pub open spec fn printable(e: SView) -> bool
    decreases e,
{
    match e {
        SView::Atom(a) => match a {
            AtomView::Array(xs) => all_printable(xs),
            _ => true,
        },
        SView::Cons(op, xs) => if xs.len() == 2 {
            printable(xs[0]) && printable(xs[1])
        } else {
            xs.len() == 1 && op == Op::Minus && printable(xs[0])
        },
    }
}

proof fn lemma_stack_concat(a: Seq<TokenView>, b: Seq<TokenView>)
    ensures
        stack_of(a + b) == stack_of(b) + stack_of(a),
{
    assert(stack_of(a + b) =~= stack_of(b) + stack_of(a));
}

proof fn lemma_stack_one(t: TokenView)
    ensures
        stack_of(seq![t]) == seq![t],
{
    assert(stack_of(seq![t]) =~= seq![t]);
}

proof fn lemma_op_token(op: Op)
    ensures
        infix_op(op_token(op)) == Some(op),
{
}

proof fn lemma_primary(e: SView, rest: Seq<TokenView>)
    requires
        printable(e),
    ensures
        parse_primary(rest + stack_of(print_view(e))) == Ok::<(SView, Seq<TokenView>), ParseError>((e, rest)),
    decreases e, 1nat,
{
    match e {
        SView::Atom(AtomView::Array(xs)) => {
            lemma_primary_array(e, rest);
        },
        SView::Atom(a) => {
            let t = print_view(e)[0];
            assert(print_view(e) =~= seq![t]);
            lemma_stack_one(t);
            assert((rest + seq![t]).drop_last() =~= rest);
        },
        SView::Cons(op, xs) => {
            if xs.len() == 2 && op == Op::Indexing {
                lemma_primary_index(e, rest);
            } else if xs.len() == 2 {
                lemma_primary_binary(e, rest);
            } else {
                lemma_primary_negation(e, rest);
            }
        },
    }
}

proof fn lemma_first_token(e: SView)
    ensures
        print_view(e).len() > 0,
        print_view(e)[0].ty != TokenType::RBracket,
        print_view(e)[0].ty != TokenType::Comma,
{
}

proof fn lemma_primary_array(e: SView, rest: Seq<TokenView>)
    requires
        printable(e),
        e matches SView::Atom(AtomView::Array(xs)),
    ensures
        parse_primary(rest + stack_of(print_view(e))) == Ok::<(SView, Seq<TokenView>), ParseError>((e, rest)),
    decreases e, 0nat,
{
    let xs = e->Atom_0->Array_0;
    let lb = mark(TokenType::LBracket);
    let rb = mark(TokenType::RBracket);
    lemma_stack_one(lb);
    lemma_stack_one(rb);
    lemma_stack_concat(seq![lb], print_list(xs));
    lemma_stack_concat(seq![lb] + print_list(xs), seq![rb]);
    let body = stack_of(print_list(xs));
    let st = rest + stack_of(print_view(e));
    assert(st =~= rest + seq![rb] + body + seq![lb]);
    assert(st.drop_last() =~= rest + seq![rb] + body);
    if xs.len() == 0 {
        assert(body =~= Seq::<TokenView>::empty());
        assert(rest + seq![rb] + body =~= rest + seq![rb]);
        assert((rest + seq![rb]).drop_last() =~= rest);
        assert(xs =~= Seq::<SView>::empty());
    } else {
        lemma_elems(xs, rest, Seq::empty());
        lemma_list_top(xs);
        assert(xs =~= Seq::<SView>::empty() + xs);
    }
}

proof fn lemma_list_top(xs: Seq<SView>)
    requires
        xs.len() > 0,
    ensures
        print_list(xs).len() > 0,
        stack_of(print_list(xs)).last().ty != TokenType::RBracket,
    decreases xs,
{
    lemma_first_token(xs[0]);
    if xs.len() > 1 {
        assert(print_list(xs)[0] == print_view(xs[0])[0]);
    }
}

proof fn lemma_elems(xs: Seq<SView>, rest: Seq<TokenView>, acc: Seq<SView>)
    requires
        xs.len() > 0,
        all_printable(xs),
    ensures
        parse_elems(rest + seq![mark(TokenType::RBracket)] + stack_of(print_list(xs)), acc) == Ok::<
            (SView, Seq<TokenView>),
            ParseError,
        >((SView::Atom(AtomView::Array(acc + xs)), rest)),
    decreases xs, 0nat,
{
    let rb = mark(TokenType::RBracket);
    let c = mark(TokenType::Comma);
    let x = xs[0];
    let sx = stack_of(print_view(x));
    let st = rest + seq![rb] + stack_of(print_list(xs));
    lemma_first_token(x);
    if xs.len() == 1 {
        assert(print_list(xs) == print_view(x));
        let tail = rest + seq![rb];
        assert(st =~= tail + sx);
        lemma_primary(x, tail);
        assert(parse_bp(st, 0) == Ok::<(SView, Seq<TokenView>), ParseError>((x, tail)));
        assert(parse_loop(tail, 0, x) == Ok::<(SView, Seq<TokenView>), ParseError>((x, tail)));
        assert(tail.drop_last() =~= rest);
        assert(acc.push(x) =~= acc + xs);
    } else {
        let more = xs.drop_first();
        lemma_stack_one(c);
        lemma_stack_concat(print_view(x), seq![c]);
        lemma_stack_concat(print_view(x) + seq![c], print_list(more));
        let tail = rest + seq![rb] + stack_of(print_list(more)) + seq![c];
        assert(st =~= tail + sx);
        lemma_primary(x, tail);
        assert(parse_loop(tail, 0, x) == Ok::<(SView, Seq<TokenView>), ParseError>((x, tail)));
        assert(parse_bp(st, 0) == Ok::<(SView, Seq<TokenView>), ParseError>((x, tail)));
        assert(tail.drop_last() =~= rest + seq![rb] + stack_of(print_list(more)));
        lemma_list_top(more);
        lemma_elems(more, rest, acc.push(x));
        assert(acc.push(x) + more =~= acc + xs);
    }
}

#[verifier::rlimit(40)]
proof fn lemma_primary_index(e: SView, rest: Seq<TokenView>)
    requires
        printable(e),
        e matches SView::Cons(op, xs) && xs.len() == 2 && op == Op::Indexing,
    ensures
        parse_primary(rest + stack_of(print_view(e))) == Ok::<(SView, Seq<TokenView>), ParseError>((e, rest)),
    decreases e, 0nat,
{
    let xs = e->Cons_1;
    let l = mark(TokenType::LParen);
    let r = mark(TokenType::RParen);
    lemma_stack_one(l);
    let a = xs[0];
    let b = xs[1];
    let sa = stack_of(print_view(a));
    let sb = stack_of(print_view(b));
    assert(xs =~= seq![a, b]);
    let lb = mark(TokenType::LBracket);
    let rb = mark(TokenType::RBracket);
    lemma_stack_one(lb);
    assert(stack_of(seq![rb, r]) =~= seq![r, rb]);
    lemma_stack_concat(seq![l], print_view(a));
    lemma_stack_concat(seq![l] + print_view(a), seq![lb]);
    lemma_stack_concat(seq![l] + print_view(a) + seq![lb], print_view(b));
    lemma_stack_concat(seq![l] + print_view(a) + seq![lb] + print_view(b), seq![rb, r]);
    let st = rest + stack_of(print_view(e));
    let tail = rest + seq![r, rb];
    let rest2 = tail + sb + seq![lb];
    assert(st =~= rest2 + sa + seq![l]);
    assert(st.drop_last() =~= rest2 + sa);
    lemma_primary(a, rest2);
    assert(rest2.drop_last() =~= tail + sb);
    lemma_primary(b, tail);
    assert(parse_loop(tail, 0, b) == Ok::<(SView, Seq<TokenView>), ParseError>((b, tail)));
    assert(parse_bp(tail + sb, 0) == Ok::<(SView, Seq<TokenView>), ParseError>((b, tail)));
    assert(tail.drop_last() =~= rest + seq![r]);
    assert((rest + seq![r]).drop_last() =~= rest);
    assert(parse_loop(rest + seq![r], 0, e) == Ok::<(SView, Seq<TokenView>), ParseError>((e, rest + seq![r])));
    assert(parse_loop(rest2, 0, a) == parse_loop(rest + seq![r], 0, e));
}

#[verifier::rlimit(40)]
proof fn lemma_primary_binary(e: SView, rest: Seq<TokenView>)
    requires
        printable(e),
        e matches SView::Cons(op, xs) && xs.len() == 2 && op != Op::Indexing,
    ensures
        parse_primary(rest + stack_of(print_view(e))) == Ok::<(SView, Seq<TokenView>), ParseError>((e, rest)),
    decreases e, 0nat,
{
    let op = e->Cons_0;
    let xs = e->Cons_1;
    let l = mark(TokenType::LParen);
    let r = mark(TokenType::RParen);
    lemma_stack_one(l);
    lemma_stack_one(r);
    let a = xs[0];
    let b = xs[1];
    let sa = stack_of(print_view(a));
    let sb = stack_of(print_view(b));
    assert(xs =~= seq![a, b]);
    let o = mark(op_token(op));
    lemma_stack_one(o);
    lemma_op_token(op);
    lemma_stack_concat(seq![l], print_view(a));
    lemma_stack_concat(seq![l] + print_view(a), seq![o]);
    lemma_stack_concat(seq![l] + print_view(a) + seq![o], print_view(b));
    lemma_stack_concat(seq![l] + print_view(a) + seq![o] + print_view(b), seq![r]);
    let st = rest + stack_of(print_view(e));
    let tail = rest + seq![r];
    let rest2 = tail + sb + seq![o];
    assert(st =~= rest2 + sa + seq![l]);
    assert(st.drop_last() =~= rest2 + sa);
    lemma_primary(a, rest2);
    assert(rest2.drop_last() =~= tail + sb);
    lemma_primary(b, tail);
    let rbp = binding_power(op).1;
    assert(parse_loop(tail, rbp, b) == Ok::<(SView, Seq<TokenView>), ParseError>((b, tail)));
    assert(parse_bp(tail + sb, rbp) == Ok::<(SView, Seq<TokenView>), ParseError>((b, tail)));
    assert(tail.drop_last() =~= rest);
    assert(parse_loop(tail, 0, e) == Ok::<(SView, Seq<TokenView>), ParseError>((e, tail)));
    assert(parse_loop(rest2, 0, a) == parse_loop(tail, 0, e));
}

#[verifier::rlimit(40)]
proof fn lemma_primary_negation(e: SView, rest: Seq<TokenView>)
    requires
        printable(e),
        e matches SView::Cons(op, xs) && xs.len() != 2,
    ensures
        parse_primary(rest + stack_of(print_view(e))) == Ok::<(SView, Seq<TokenView>), ParseError>((e, rest)),
    decreases e, 0nat,
{
    let xs = e->Cons_1;
    let l = mark(TokenType::LParen);
    let r = mark(TokenType::RParen);
    lemma_stack_one(r);
    let x = xs[0];
    let sx = stack_of(print_view(x));
    let m = mark(TokenType::Minus);
    assert(xs =~= seq![x]);
    assert(print_list(xs) == print_view(x));
    assert(stack_of(seq![l, m]) =~= seq![m, l]);
    lemma_stack_concat(seq![l, m], print_view(x));
    lemma_stack_concat(seq![l, m] + print_view(x), seq![r]);
    let st = rest + stack_of(print_view(e));
    let tail = rest + seq![r];
    assert(st =~= tail + sx + seq![m] + seq![l]);
    assert(st.drop_last() =~= tail + sx + seq![m]);
    assert((tail + sx + seq![m]).drop_last() =~= tail + sx);
    lemma_primary(x, tail);
    assert(parse_loop(tail, 9, x) == Ok::<(SView, Seq<TokenView>), ParseError>((x, tail)));
    assert(parse_bp(tail + sx, 9) == Ok::<(SView, Seq<TokenView>), ParseError>((x, tail)));
    assert(parse_primary(tail + sx + seq![m]) == Ok::<(SView, Seq<TokenView>), ParseError>((e, tail)));
    assert(tail.drop_last() =~= rest);
    assert(parse_loop(tail, 0, e) == Ok::<(SView, Seq<TokenView>), ParseError>((e, tail)));
}

/// Parsing the canonical token form of a printable tree gives the tree back
/// and uses every token; so the tree that comes back evaluates as the printed one.
pub proof fn reparse_printed(e: SView)
    requires
        printable(e),
    ensures
        parse_bp(stack_of(print_view(e)), 0) == Ok::<(SView, Seq<TokenView>), ParseError>((e, Seq::empty())),
{
    lemma_primary(e, Seq::empty());
    assert(Seq::<TokenView>::empty() + stack_of(print_view(e)) =~= stack_of(print_view(e)));
}


proof fn lemma_token_views_concat(a: Seq<Token>, b: Seq<Token>)
    ensures
        token_views(a + b) == token_views(a) + token_views(b),
{
    assert(token_views(a + b) =~= token_views(a) + token_views(b));
}

fn push_mark(out: &mut Vec<Token>, ty: TokenType)
    ensures
        token_views(final(out)@) == token_views(old(out)@) + seq![mark(ty)],
{
    let t = Token::from_ty(ty);
    proof {
        lemma_token_views_concat(out@, seq![t]);
        assert(t@ == mark(ty));
        assert(token_views(seq![t]) =~= seq![mark(ty)]);
    }
    out.push(t);
    assert(out@ =~= old(out)@ + seq![t]);
}

fn append_tokens(out: &mut Vec<Token>, more: Vec<Token>)
    ensures
        token_views(final(out)@) == token_views(old(out)@) + token_views(more@),
{
    let mut more = more;
    proof {
        lemma_token_views_concat(out@, more@);
    }
    out.append(&mut more);
}

fn op_token_of(op: Op) -> (r: TokenType)
    ensures
        r == op_token(op),
{
    match op {
        Op::Plus => TokenType::Plus,
        Op::Minus => TokenType::Minus,
        Op::Multiply => TokenType::Star,
        Op::Divide => TokenType::Slash,
        Op::Mod => TokenType::Percent,
        Op::Equal => TokenType::Equal,
        Op::NotEqual => TokenType::BangEqual,
        Op::Less => TokenType::Less,
        Op::Greater => TokenType::Greater,
        Op::And => TokenType::And,
        Op::Or => TokenType::Or,
        Op::Indexing => TokenType::LBracket,
        Op::Access => TokenType::Dot,
    }
}

proof fn lemma_print_list_push(xs: Seq<SView>, x: SView)
    requires
        xs.len() >= 1,
    ensures
        print_list(xs.push(x)) == print_list(xs) + seq![mark(TokenType::Comma)] + print_view(x),
    decreases xs.len(),
{
    let c = seq![mark(TokenType::Comma)];
    assert(xs.push(x)[0] == xs[0]);
    if xs.len() == 1 {
        assert(xs.push(x).drop_first() =~= seq![x]);
        assert(print_list(seq![x]) == print_view(x));
        assert(print_list(xs) == print_view(xs[0]));
    } else {
        assert(xs.push(x).drop_first() =~= xs.drop_first().push(x));
        lemma_print_list_push(xs.drop_first(), x);
        assert(print_list(xs.push(x)) =~= print_list(xs) + c + print_view(x));
    }
}

fn list_tokens(xs: &Vec<S>) -> (r: Vec<Token>)
    ensures
        token_views(r@) == print_list(views(xs@)),
    decreases xs,
{
    let ghost vs = views(xs@);
    proof {
        lemma_views_len(xs@);
    }
    let mut out: Vec<Token> = Vec::new();
    let mut i: usize = 0;
    assert(token_views(out@) =~= print_list(vs.subrange(0, 0)));
    while i < xs.len()
        invariant
            i <= xs.len(),
            vs == views(xs@),
            vs.len() == xs.len(),
            token_views(out@) == print_list(vs.subrange(0, i as int)),
        decreases xs.len() - i,
    {
        proof {
            lemma_views_index(xs@, i as int);
        }
        let ghost pre = vs.subrange(0, i as int);
        let ghost next = vs.subrange(0, i as int + 1);
        assert(pre.push(xs@[i as int]@) =~= next);
        assert(decreases_to!(xs => xs@[i as int]));
        let item = xs[i].to_tokens();
        if i == 0 {
            assert(next =~= seq![xs@[0]@]);
            proof {
                lemma_token_views_concat(out@, item@);
            }
            append_tokens(&mut out, item);
            assert(token_views(out@) =~= print_list(next));
        } else {
            proof {
                lemma_print_list_push(pre, xs@[i as int]@);
            }
            push_mark(&mut out, TokenType::Comma);
            append_tokens(&mut out, item);
        }
        i += 1;
    }
    assert(vs.subrange(0, xs.len() as int) =~= vs);
    out
}

impl S {
    /// The canonical token form of the tree; see `print_view`.
    pub fn to_tokens(&self) -> (r: Vec<Token>)
        ensures
            token_views(r@) == print_view(self@),
        decreases self,
    {
        let mut out: Vec<Token> = Vec::new();
        match self {
            S::Atom(a) => match a {
                Atom::Num(n) => {
                    let t = Token::new(TokenType::Number, String::new(), Literal::Number(*n), 0);
                    out.push(t);
                    assert(token_views(out@) =~= print_view(self@));
                },
                Atom::Str(s) => {
                    let t = Token::new(TokenType::Str, s.clone(), Literal::Str(s.clone()), 0);
                    out.push(t);
                    assert(token_views(out@) =~= print_view(self@));
                },
                Atom::Bool(b) => {
                    push_mark(&mut out, if *b { TokenType::True } else { TokenType::False });
                    assert(token_views(out@) =~= print_view(self@));
                },
                Atom::Identifier(s) => {
                    let t = Token::new(TokenType::Identifier, s.clone(), Literal::Empty, 0);
                    out.push(t);
                    assert(token_views(out@) =~= print_view(self@));
                },
                Atom::Array(xs) => {
                    push_mark(&mut out, TokenType::LBracket);
                    append_tokens(&mut out, list_tokens(xs));
                    push_mark(&mut out, TokenType::RBracket);
                    assert(token_views(out@) =~= print_view(self@));
                },
            },
            S::Cons(op, xs) => {
                proof {
                    lemma_views_len(xs@);
                }
                if xs.len() == 2 {
                    proof {
                        lemma_views_index(xs@, 0);
                        lemma_views_index(xs@, 1);
                    }
                    assert(decreases_to!(xs => xs@[0]));
                    assert(decreases_to!(xs => xs@[1]));
                    push_mark(&mut out, TokenType::LParen);
                    append_tokens(&mut out, xs[0].to_tokens());
                    if *op == Op::Indexing {
                        push_mark(&mut out, TokenType::LBracket);
                        append_tokens(&mut out, xs[1].to_tokens());
                        push_mark(&mut out, TokenType::RBracket);
                    } else {
                        push_mark(&mut out, op_token_of(*op));
                        append_tokens(&mut out, xs[1].to_tokens());
                    }
                    push_mark(&mut out, TokenType::RParen);
                    assert(token_views(out@) =~= print_view(self@));
                } else {
                    push_mark(&mut out, TokenType::LParen);
                    push_mark(&mut out, op_token_of(*op));
                    append_tokens(&mut out, list_tokens(xs));
                    push_mark(&mut out, TokenType::RParen);
                    assert(token_views(out@) =~= print_view(self@));
                }
            },
        }
        out
    }
}

} // verus!
