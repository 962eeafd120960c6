use vstd::prelude::*;
use crate::number::Number;

verus! {

/// Operators of the expression tree.
#[derive(Debug, Clone, Copy, PartialEq, Eq, Structural)]
pub enum Op {
    Plus,
    /// Binary subtraction with two operands, negation with one.
    Minus,
    Multiply,
    Divide,
    Mod,
    Equal,
    NotEqual,
    Less,
    Greater,
    And,
    Or,
    Indexing,
    Access,
}

/// A leaf of the expression tree, and also a runtime value.
#[derive(Debug)]
pub enum Atom {
    Num(Number),
    Str(String),
    Bool(bool),
    /// The elements of an array; after evaluation each is a literal leaf.
    Array(Vec<S>),
    /// A variable reference: never the result of an evaluation.
    Identifier(String),
}

/// An expression tree: a leaf, or an operator applied to operands.
#[derive(Debug)]
pub enum S {
    Atom(Atom),
    Cons(Op, Vec<S>),
}

/// The mathematical model of an `Atom`.
pub enum AtomView {
    Num(Number),
    Str(Seq<char>),
    Bool(bool),
    Array(Seq<SView>),
    Identifier(Seq<char>),
}

/// The mathematical model of an `S`.
pub enum SView {
    Atom(AtomView),
    Cons(Op, Seq<SView>),
}

/// The models of a sequence of trees.
pub open spec fn views(xs: Seq<S>) -> Seq<SView>
    decreases xs,
{
    if xs.len() == 0 {
        Seq::empty()
    } else {
        views(xs.drop_last()).push(xs.last().view())
    }
}

impl Atom {
    pub open spec fn view(&self) -> AtomView
        decreases self,
    {
        match self {
            Atom::Num(n) => AtomView::Num(*n),
            Atom::Str(s) => AtomView::Str(s@),
            Atom::Bool(b) => AtomView::Bool(*b),
            Atom::Array(v) => AtomView::Array(views(v@)),
            Atom::Identifier(s) => AtomView::Identifier(s@),
        }
    }
}

impl S {
    pub open spec fn view(&self) -> SView
        decreases self,
    {
        match self {
            S::Atom(a) => SView::Atom(a.view()),
            S::Cons(op, xs) => SView::Cons(*op, views(xs@)),
        }
    }
}

} // verus!

verus! {

pub proof fn lemma_views_push(xs: Seq<S>, x: S)
    ensures
        views(xs.push(x)) == views(xs).push(x@),
{
    assert(xs.push(x).drop_last() =~= xs);
}

pub proof fn lemma_views_len(xs: Seq<S>)
    ensures
        views(xs).len() == xs.len(),
    decreases xs.len(),
{
    if xs.len() > 0 {
        lemma_views_len(xs.drop_last());
    }
}

pub proof fn lemma_views_index(xs: Seq<S>, i: int)
    requires
        0 <= i < xs.len(),
    ensures
        views(xs).len() == xs.len(),
        views(xs)[i] == xs[i]@,
    decreases xs.len(),
{
    lemma_views_len(xs);
    if i < xs.len() - 1 {
        lemma_views_index(xs.drop_last(), i);
    }
}

impl Atom {
    /// A copy that owns its own strings and children.
    pub fn copy(&self) -> (r: Atom)
        ensures
            r@ == self@,
        decreases self,
    {
        match self {
            Atom::Num(n) => Atom::Num(*n),
            Atom::Str(s) => Atom::Str(s.clone()),
            Atom::Bool(b) => Atom::Bool(*b),
            Atom::Array(xs) => Atom::Array(copy_all(xs)),
            Atom::Identifier(s) => Atom::Identifier(s.clone()),
        }
    }
}

impl S {
    /// A copy that owns its own strings and children.
    pub fn copy(&self) -> (r: S)
        ensures
            r@ == self@,
        decreases self,
    {
        match self {
            S::Atom(a) => S::Atom(a.copy()),
            S::Cons(op, xs) => S::Cons(*op, copy_all(xs)),
        }
    }
}

fn copy_all(xs: &Vec<S>) -> (r: Vec<S>)
    ensures
        views(r@) == views(xs@),
    decreases xs,
{
    let mut out: Vec<S> = Vec::new();
    let mut i: usize = 0;
    while i < xs.len()
        invariant
            i <= xs.len(),
            views(out@) == views(xs@.subrange(0, i as int)),
        decreases xs.len() - i,
    {
        assert(decreases_to!(xs => xs@[i as int]));
        let c = xs[i].copy();
        proof {
            lemma_views_push(out@, c);
            lemma_views_push(xs@.subrange(0, i as int), xs@[i as int]);
            assert(xs@.subrange(0, i as int).push(xs@[i as int]) =~= xs@.subrange(0, i as int + 1));
        }
        out.push(c);
        i += 1;
    }
    assert(xs@.subrange(0, xs.len() as int) =~= xs@);
    out
}

} // verus!
