use vstd::prelude::*;
use crate::number::Number;
use crate::scanner::{chars_of, string_of};
use crate::tree::{lemma_views_index, lemma_views_len, views, Atom, AtomView, Op, S, SView};

verus! {

/// The character of a decimal digit.
pub open spec fn digit_char(d: int) -> char {
    if d == 0 {
        '0'
    } else if d == 1 {
        '1'
    } else if d == 2 {
        '2'
    } else if d == 3 {
        '3'
    } else if d == 4 {
        '4'
    } else if d == 5 {
        '5'
    } else if d == 6 {
        '6'
    } else if d == 7 {
        '7'
    } else if d == 8 {
        '8'
    } else {
        '9'
    }
}

/// The decimal digits of `n`, without leading zeros.
pub open spec fn digits(n: nat) -> Seq<char>
    decreases n,
{
    if n < 10 {
        seq![digit_char(n as int)]
    } else {
        digits(n / 10).push(digit_char((n % 10) as int))
    }
}

/// An integer in decimal, with a leading `-` when it is negative.
pub open spec fn int_text(n: int) -> Seq<char> {
    if n < 0 {
        seq!['-'] + digits((-n) as nat)
    } else {
        digits(n as nat)
    }
}

/// A number as `n`, or as the exact fraction `n/d` where it is not whole. This
/// is not the decimal form in which a print statement shows a number.
pub open spec fn number_text(n: Number) -> Seq<char> {
    if n.denom() == 1 {
        int_text(n.numer())
    } else {
        int_text(n.numer()) + seq!['/'] + int_text(n.denom())
    }
}

/// The symbol of an operator.
pub open spec fn op_text(op: Op) -> Seq<char> {
    match op {
        Op::Plus => seq!['+'],
        Op::Minus => seq!['-'],
        Op::Multiply => seq!['*'],
        Op::Divide => seq!['/'],
        Op::Mod => seq!['%'],
        Op::Equal => seq!['=', '='],
        Op::NotEqual => seq!['!', '='],
        Op::Less => seq!['<'],
        Op::Greater => seq!['>'],
        Op::And => seq!['a', 'n', 'd'],
        Op::Or => seq!['o', 'r'],
        Op::Indexing => seq!['[', ']'],
        Op::Access => seq!['.'],
    }
}

/// The text form of a tree: leaves as their values (strings verbatim, arrays
/// as `[a, b]`), an application as `(op a b)`.
pub open spec fn text_of(e: SView) -> Seq<char>
    decreases e,
{
    match e {
        SView::Atom(a) => match a {
            AtomView::Num(n) => number_text(n),
            AtomView::Str(s) => s,
            AtomView::Bool(b) => if b { seq!['t', 'r', 'u', 'e'] } else { seq!['f', 'a', 'l', 's', 'e'] },
            AtomView::Identifier(s) => s,
            AtomView::Array(xs) => seq!['['] + text_list(xs) + seq![']'],
        },
        SView::Cons(op, xs) => seq!['('] + op_text(op) + text_args(xs) + seq![')'],
    }
}

/// The text forms of trees, separated by `, `.
pub open spec fn text_list(xs: Seq<SView>) -> Seq<char>
    decreases xs,
{
    if xs.len() == 0 {
        Seq::empty()
    } else if xs.len() == 1 {
        text_of(xs[0])
    } else {
        text_list(xs.drop_last()) + seq![',', ' '] + text_of(xs.last())
    }
}

/// The text forms of operands, each after a space.
pub open spec fn text_args(xs: Seq<SView>) -> Seq<char>
    decreases xs,
{
    if xs.len() == 0 {
        Seq::empty()
    } else {
        text_args(xs.drop_last()) + seq![' '] + text_of(xs.last())
    }
}

fn digit(d: u64) -> (r: char)
    requires
        d < 10,
    ensures
        r == digit_char(d as int),
{
    if d == 0 {
        '0'
    } else if d == 1 {
        '1'
    } else if d == 2 {
        '2'
    } else if d == 3 {
        '3'
    } else if d == 4 {
        '4'
    } else if d == 5 {
        '5'
    } else if d == 6 {
        '6'
    } else if d == 7 {
        '7'
    } else if d == 8 {
        '8'
    } else {
        '9'
    }
}

fn push_digits(out: &mut Vec<char>, n: u64)
    ensures
        final(out)@ == old(out)@ + digits(n as nat),
    decreases n,
{
    let ghost start = out@;
    if n >= 10 {
        push_digits(out, n / 10);
    }
    out.push(digit(n % 10));
    if n >= 10 {
        assert(out@ =~= start + digits(n as nat));
    } else {
        assert(out@ =~= start + digits(n as nat));
    }
}

fn push_int(out: &mut Vec<char>, n: i64)
    ensures
        final(out)@ == old(out)@ + int_text(n as int),
{
    let ghost start = out@;
    if n < 0 {
        out.push('-');
        let m: u64 = (-(n as i128)) as u64;
        push_digits(out, m);
        assert(out@ =~= start + int_text(n as int));
    } else {
        push_digits(out, n as u64);
    }
}

fn push_str(out: &mut Vec<char>, s: &String)
    ensures
        final(out)@ == old(out)@ + s@,
{
    let mut cs = chars_of(s.as_str());
    out.append(&mut cs);
}

fn push_op(out: &mut Vec<char>, op: Op)
    ensures
        final(out)@ == old(out)@ + op_text(op),
{
    let ghost start = out@;
    match op {
        Op::Plus => out.push('+'),
        Op::Minus => out.push('-'),
        Op::Multiply => out.push('*'),
        Op::Divide => out.push('/'),
        Op::Mod => out.push('%'),
        Op::Equal => {
            out.push('=');
            out.push('=');
        },
        Op::NotEqual => {
            out.push('!');
            out.push('=');
        },
        Op::Less => out.push('<'),
        Op::Greater => out.push('>'),
        Op::And => {
            out.push('a');
            out.push('n');
            out.push('d');
        },
        Op::Or => {
            out.push('o');
            out.push('r');
        },
        Op::Indexing => {
            out.push('[');
            out.push(']');
        },
        Op::Access => out.push('.'),
    }
    assert(out@ =~= start + op_text(op));
}

fn push_text(out: &mut Vec<char>, e: &S)
    ensures
        final(out)@ == old(out)@ + text_of(e@),
    decreases e,
{
    let ghost start = out@;
    match e {
        S::Atom(a) => match a {
            Atom::Num(n) => {
                push_int(out, n.numerator());
                if n.denominator() != 1 {
                    out.push('/');
                    push_int(out, n.denominator());
                }
                assert(out@ =~= start + text_of(e@));
            },
            Atom::Str(s) => push_str(out, s),
            Atom::Bool(b) => {
                if *b {
                    out.push('t');
                    out.push('r');
                    out.push('u');
                    out.push('e');
                } else {
                    out.push('f');
                    out.push('a');
                    out.push('l');
                    out.push('s');
                    out.push('e');
                }
                assert(out@ =~= start + text_of(e@));
            },
            Atom::Identifier(s) => push_str(out, s),
            Atom::Array(xs) => {
                out.push('[');
                push_list(out, xs, false);
                out.push(']');
                assert(out@ =~= start + text_of(e@));
            },
        },
        S::Cons(op, xs) => {
            out.push('(');
            push_op(out, *op);
            push_list(out, xs, true);
            out.push(')');
            assert(out@ =~= start + text_of(e@));
        },
    }
}

/// Pushes the text of `xs`: each after a space where `args`, else separated by `, `.
fn push_list(out: &mut Vec<char>, xs: &Vec<S>, args: bool)
    ensures
        final(out)@ == old(out)@ + if args { text_args(views(xs@)) } else { text_list(views(xs@)) },
    decreases xs,
{
    let ghost start = out@;
    let ghost vs = views(xs@);
    proof {
        lemma_views_len(xs@);
    }
    let mut i: usize = 0;
    assert(vs.subrange(0, 0) =~= Seq::<SView>::empty());
    assert(out@ =~= start + if args { text_args(vs.subrange(0, 0)) } else { text_list(vs.subrange(0, 0)) });
    while i < xs.len()
        invariant
            i <= xs.len(),
            vs == views(xs@),
            vs.len() == xs.len(),
            out@ == start + if args { text_args(vs.subrange(0, i as int)) } else { text_list(vs.subrange(0, i as int)) },
        decreases xs.len() - i,
    {
        proof {
            lemma_views_index(xs@, i as int);
        }
        let ghost pre = vs.subrange(0, i as int);
        let ghost next = vs.subrange(0, i as int + 1);
        assert(next.drop_last() =~= pre);
        assert(next.last() == xs@[i as int]@);
        assert(decreases_to!(xs => xs@[i as int]));
        let ghost before = out@;
        if args {
            out.push(' ');
        } else if i > 0 {
            out.push(',');
            out.push(' ');
        }
        push_text(out, &xs[i]);
        proof {
            if !args && i == 0 {
                assert(next =~= seq![xs@[0]@]);
            }
        }
        assert(out@ =~= start + if args { text_args(next) } else { text_list(next) });
        i += 1;
    }
    assert(vs.subrange(0, xs.len() as int) =~= vs);
}

impl S {
    /// The text form of the tree; see `text_of`. Numbers that are not whole
    /// appear as exact fractions, not in the decimal print form.
    pub fn to_text(&self) -> (r: String)
        ensures
            r@ == text_of(self@),
    {
        let mut out: Vec<char> = Vec::new();
        push_text(&mut out, self);
        assert(out@ =~= text_of(self@));
        string_of(&out, 0, out.len())
    }
}

impl Atom {
    /// The text form of a value; see `text_of`. A number that is not whole
    /// appears as an exact fraction `n/d`, not in the decimal print form.
    pub fn to_text(&self) -> (r: String)
        ensures
            r@ == text_of(SView::Atom(self@)),
    {
        let mut out: Vec<char> = Vec::new();
        push_text(&mut out, &S::Atom(self.copy()));
        assert(out@ =~= text_of(SView::Atom(self@)));
        string_of(&out, 0, out.len())
    }
}

impl Op {
    /// The symbol of the operator.
    pub fn to_text(&self) -> (r: String)
        ensures
            r@ == op_text(*self),
    {
        let mut out: Vec<char> = Vec::new();
        push_op(&mut out, *self);
        assert(out@ =~= op_text(*self));
        string_of(&out, 0, out.len())
    }
}

} // verus!
