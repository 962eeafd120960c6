use vstd::prelude::*;
use crate::error::{EvalError, Failure};
use crate::number::Number;
use crate::tree::{lemma_views_index, lemma_views_len, views, Atom, AtomView, Op, S, SView};

verus! {

/// Whether a value is the result of an evaluation: no identifier, and arrays
/// whose elements are evaluated leaves.
pub open spec fn evaluated(v: AtomView) -> bool
    decreases v,
{
    match v {
        AtomView::Identifier(_) => false,
        AtomView::Array(xs) => all_leaves(xs),
        _ => true,
    }
}

/// Whether every tree of `xs` is a leaf holding an evaluated value.
pub open spec fn all_leaves(xs: Seq<SView>) -> bool
    decreases xs,
{
    if xs.len() == 0 {
        true
    } else {
        all_leaves(xs.drop_last()) && match xs.last() {
            SView::Atom(a) => evaluated(a),
            _ => false,
        }
    }
}

pub proof fn lemma_all_leaves_index(xs: Seq<SView>, i: int)
    requires
        all_leaves(xs),
        0 <= i < xs.len(),
    ensures
        xs[i] is Atom && evaluated(xs[i]->Atom_0),
    decreases xs.len(),
{
    if i < xs.len() - 1 {
        lemma_all_leaves_index(xs.drop_last(), i);
    }
}

/// A numeric result as a value.
pub open spec fn num_result(r: Result<Number, EvalError>) -> Result<AtomView, Failure> {
    match r {
        Ok(n) => Ok(AtomView::Num(n)),
        Err(e) => Err(e.view()),
    }
}

/// Binary `+`: numbers add, strings concatenate.
pub open spec fn add_spec(a: AtomView, b: AtomView) -> Result<AtomView, Failure> {
    match (a, b) {
        (AtomView::Num(x), AtomView::Num(y)) => num_result(x.add_spec(y)),
        (AtomView::Str(x), AtomView::Str(y)) => Ok(AtomView::Str(x + y)),
        _ => Err(Failure::TypeMismatch),
    }
}

/// Binary `-`, `*`, `/`, `%`: defined on numbers only.
pub open spec fn arith_spec(op: Op, a: AtomView, b: AtomView) -> Result<AtomView, Failure> {
    match (a, b) {
        (AtomView::Num(x), AtomView::Num(y)) => match op {
            Op::Minus => num_result(x.sub_spec(y)),
            Op::Multiply => num_result(x.mul_spec(y)),
            Op::Divide => num_result(x.div_spec(y)),
            _ => num_result(x.rem_spec(y)),
        },
        _ => Err(Failure::TypeMismatch),
    }
}

/// Whether two values are equal: numbers by value, strings and booleans by
/// content, arrays element by element; values of different kinds never are.
pub open spec fn values_equal(a: AtomView, b: AtomView) -> bool
    decreases a,
{
    match (a, b) {
        (AtomView::Num(x), AtomView::Num(y)) => x.same_value(y),
        (AtomView::Str(x), AtomView::Str(y)) => x == y,
        (AtomView::Bool(x), AtomView::Bool(y)) => x == y,
        (AtomView::Array(xs), AtomView::Array(ys)) => xs.len() == ys.len() && elems_equal(xs, ys),
        _ => false,
    }
}

/// Whether the first `xs.len()` elements of two arrays are pairwise equal
/// leaves.
pub open spec fn elems_equal(xs: Seq<SView>, ys: Seq<SView>) -> bool
    decreases xs,
{
    if xs.len() == 0 {
        true
    } else {
        elems_equal(xs.drop_last(), ys) && match (xs.last(), ys[xs.len() - 1]) {
            (SView::Atom(a), SView::Atom(b)) => values_equal(a, b),
            _ => false,
        }
    }
}

/// `==`: defined on two numbers, two strings, two booleans or two arrays.
pub open spec fn equal_spec(a: AtomView, b: AtomView) -> Result<bool, Failure> {
    match (a, b) {
        (AtomView::Num(_), AtomView::Num(_)) => Ok(values_equal(a, b)),
        (AtomView::Str(_), AtomView::Str(_)) => Ok(values_equal(a, b)),
        (AtomView::Bool(_), AtomView::Bool(_)) => Ok(values_equal(a, b)),
        (AtomView::Array(_), AtomView::Array(_)) => Ok(values_equal(a, b)),
        _ => Err(Failure::TypeMismatch),
    }
}

/// `<` and `>`: defined on numbers only.
pub open spec fn order_spec(op: Op, a: AtomView, b: AtomView) -> Result<AtomView, Failure> {
    match (a, b) {
        (AtomView::Num(x), AtomView::Num(y)) => Ok(
            AtomView::Bool(if op == Op::Less { x.less_spec(y) } else { y.less_spec(x) }),
        ),
        _ => Err(Failure::TypeMismatch),
    }
}

/// `and` and `or`: defined on booleans only.
pub open spec fn logic_spec(op: Op, a: AtomView, b: AtomView) -> Result<AtomView, Failure> {
    match (a, b) {
        (AtomView::Bool(x), AtomView::Bool(y)) => Ok(
            AtomView::Bool(if op == Op::And { x && y } else { x || y }),
        ),
        _ => Err(Failure::TypeMismatch),
    }
}

/// Indexing: an array by a whole number in range.
pub open spec fn index_spec(a: AtomView, i: AtomView) -> Result<AtomView, Failure> {
    match a {
        AtomView::Array(xs) => match i {
            AtomView::Num(n) => {
                if n.denom() > 0 && n.numer() >= 0 && n.numer() % n.denom() == 0 && n.numer() / n.denom() < xs.len() {
                    match xs[n.numer() / n.denom()] {
                        SView::Atom(v) => Ok(v),
                        _ => Err(Failure::Shape),
                    }
                } else {
                    Err(Failure::Shape)
                }
            },
            _ => Err(Failure::TypeMismatch),
        },
        _ => Err(Failure::Shape),
    }
}

/// Member access: the one field is the length of an array, `len`.
pub open spec fn access_spec(a: AtomView, field: SView) -> Result<AtomView, Failure> {
    match (a, field) {
        (AtomView::Array(xs), SView::Atom(AtomView::Identifier(name))) => {
            if name == seq!['l', 'e', 'n'] && xs.len() <= i64::MAX {
                Ok(AtomView::Num(Number::ratio(xs.len() as int, 1)->Ok_0))
            } else {
                Err(Failure::Shape)
            }
        },
        _ => Err(Failure::Shape),
    }
}

/// Unary `-`: defined on numbers only.
pub open spec fn negate_spec(a: AtomView) -> Result<AtomView, Failure> {
    match a {
        AtomView::Num(x) => num_result(x.neg_spec()),
        _ => Err(Failure::TypeMismatch),
    }
}

/// The operators with two evaluated operands, that is all but `Access`.
pub open spec fn binary_spec(op: Op, a: AtomView, b: AtomView) -> Result<AtomView, Failure> {
    match op {
        Op::Plus => add_spec(a, b),
        Op::Minus | Op::Multiply | Op::Divide | Op::Mod => arith_spec(op, a, b),
        Op::Equal => match equal_spec(a, b) {
            Ok(e) => Ok(AtomView::Bool(e)),
            Err(f) => Err(f),
        },
        Op::NotEqual => match equal_spec(a, b) {
            Ok(e) => Ok(AtomView::Bool(!e)),
            Err(f) => Err(f),
        },
        Op::Less | Op::Greater => order_spec(op, a, b),
        Op::And | Op::Or => logic_spec(op, a, b),
        _ => index_spec(a, b),
    }
}

/// The model of an exec result.
pub open spec fn result_view(r: Result<Atom, EvalError>) -> Result<AtomView, Failure> {
    match r {
        Ok(a) => Ok(a@),
        Err(e) => Err(e.view()),
    }
}

fn from_number(r: Result<Number, EvalError>) -> (out: Result<Atom, EvalError>)
    ensures
        result_view(out) == num_result(r),
{
    match r {
        Ok(n) => Ok(Atom::Num(n)),
        Err(e) => Err(e),
    }
}

fn atoms_equal(a: &Atom, b: &Atom) -> (r: bool)
    ensures
        r == values_equal(a@, b@),
    decreases a,
{
    match (a, b) {
        (Atom::Num(x), Atom::Num(y)) => x.same(y),
        (Atom::Str(x), Atom::Str(y)) => x.eq(y),
        (Atom::Bool(x), Atom::Bool(y)) => *x == *y,
        (Atom::Array(xs), Atom::Array(ys)) => arrays_equal(xs, ys),
        _ => false,
    }
}

proof fn lemma_elems_unequal(xs: Seq<SView>, ys: Seq<SView>, k: int)
    requires
        0 <= k <= xs.len(),
        !elems_equal(xs.subrange(0, k), ys),
    ensures
        !elems_equal(xs, ys),
    decreases xs.len() - k,
{
    if k == xs.len() {
        assert(xs.subrange(0, k) =~= xs);
    } else {
        assert(xs.subrange(0, k + 1).drop_last() =~= xs.subrange(0, k));
        lemma_elems_unequal(xs, ys, k + 1);
    }
}

fn arrays_equal(xs: &Vec<S>, ys: &Vec<S>) -> (r: bool)
    ensures
        r == (views(xs@).len() == views(ys@).len() && elems_equal(views(xs@), views(ys@))),
    decreases xs,
{
    let ghost vx = views(xs@);
    let ghost vy = views(ys@);
    proof {
        lemma_views_len(xs@);
        lemma_views_len(ys@);
    }
    if xs.len() != ys.len() {
        return false;
    }
    let mut i: usize = 0;
    while i < xs.len()
        invariant
            i <= xs.len() == ys.len(),
            vx == views(xs@),
            vy == views(ys@),
            vx.len() == xs.len(),
            vy.len() == ys.len(),
            elems_equal(vx.subrange(0, i as int), vy),
        decreases xs.len() - i,
    {
        proof {
            lemma_views_index(xs@, i as int);
            lemma_views_index(ys@, i as int);
        }
        let ghost next = vx.subrange(0, i as int + 1);
        assert(next.drop_last() =~= vx.subrange(0, i as int));
        assert(next.last() == vx[i as int]);
        assert(decreases_to!(xs => xs@[i as int]));
        let same = match (&xs[i], &ys[i]) {
            (S::Atom(a), S::Atom(b)) => {
                assert(decreases_to!(xs@[i as int] => *a));
                atoms_equal(a, b)
            },
            _ => false,
        };
        if !same {
            proof {
                lemma_elems_unequal(vx, vy, i as int + 1);
            }
            return false;
        }
        i += 1;
    }
    assert(vx.subrange(0, xs.len() as int) =~= vx);
    true
}

fn equal_values(a: &Atom, b: &Atom) -> (r: Result<bool, EvalError>)
    ensures
        match r {
            Ok(e) => equal_spec(a@, b@) == Ok::<bool, Failure>(e),
            Err(e) => equal_spec(a@, b@) == Err::<bool, Failure>(e.view()),
        },
{
    match (a, b) {
        (Atom::Num(_), Atom::Num(_)) | (Atom::Str(_), Atom::Str(_)) | (Atom::Bool(_), Atom::Bool(_))
        | (Atom::Array(_), Atom::Array(_)) => Ok(atoms_equal(a, b)),
        _ => Err(EvalError::TypeMismatch),
    }
}

impl Atom {
    /// Applies a binary operator other than `Access` to two values.
    pub fn binary(op: Op, a: &Atom, b: &Atom) -> (r: Result<Atom, EvalError>)
        requires
            op != Op::Access,
        ensures
            result_view(r) == binary_spec(op, a@, b@),
    {
        match op {
            Op::Plus => match (a, b) {
                (Atom::Num(x), Atom::Num(y)) => from_number(x.add(y)),
                (Atom::Str(x), Atom::Str(y)) => {
                    let s = x.clone().concat(y.as_str());
                    Ok(Atom::Str(s))
                },
                _ => Err(EvalError::TypeMismatch),
            },
            Op::Minus | Op::Multiply | Op::Divide | Op::Mod => match (a, b) {
                (Atom::Num(x), Atom::Num(y)) => from_number(
                    match op {
                        Op::Minus => x.sub(y),
                        Op::Multiply => x.mul(y),
                        Op::Divide => x.div(y),
                        _ => x.rem(y),
                    },
                ),
                _ => Err(EvalError::TypeMismatch),
            },
            Op::Equal => match equal_values(a, b) {
                Ok(e) => Ok(Atom::Bool(e)),
                Err(f) => Err(f),
            },
            Op::NotEqual => match equal_values(a, b) {
                Ok(e) => Ok(Atom::Bool(!e)),
                Err(f) => Err(f),
            },
            Op::Less | Op::Greater => match (a, b) {
                (Atom::Num(x), Atom::Num(y)) => Ok(
                    Atom::Bool(if op == Op::Less { x.less(y) } else { y.less(x) }),
                ),
                _ => Err(EvalError::TypeMismatch),
            },
            Op::And | Op::Or => match (a, b) {
                (Atom::Bool(x), Atom::Bool(y)) => Ok(
                    Atom::Bool(if op == Op::And { *x && *y } else { *x || *y }),
                ),
                _ => Err(EvalError::TypeMismatch),
            },
            _ => a.index(b),
        }
    }

    /// The element of an array at a whole-number index.
    pub fn index(&self, i: &Atom) -> (r: Result<Atom, EvalError>)
        ensures
            result_view(r) == index_spec(self@, i@),
    {
        match self {
            Atom::Array(xs) => match i {
                Atom::Num(n) => {
                    let num = n.numerator();
                    let den = n.denominator();
                    if num >= 0 && num % den == 0 && ((num / den) as u64) < (xs.len() as u64) {
                        let k = (num / den) as usize;
                        proof {
                            lemma_views_index(xs@, k as int);
                        }
                        match &xs[k] {
                            S::Atom(v) => Ok(v.copy()),
                            _ => Err(EvalError::Shape),
                        }
                    } else {
                        proof {
                            lemma_views_len(xs@);
                        }
                        Err(EvalError::Shape)
                    }
                },
                _ => Err(EvalError::TypeMismatch),
            },
            _ => Err(EvalError::Shape),
        }
    }

    /// Member access by a field name that is not evaluated.
    pub fn access(&self, field: &S) -> (r: Result<Atom, EvalError>)
        ensures
            result_view(r) == access_spec(self@, field@),
    {
        match (self, field) {
            (Atom::Array(xs), S::Atom(Atom::Identifier(name))) => {
                proof {
                    lemma_views_len(xs@);
                }
                let len_name = String::from_str("len");
                proof {
                    reveal_strlit("len");
                    assert(len_name@ =~= seq!['l', 'e', 'n']);
                }
                if *name == len_name && (xs.len() as u64) <= (i64::MAX as u64) {
                    Ok(Atom::Num(Number::from_int(xs.len() as i64)))
                } else {
                    Err(EvalError::Shape)
                }
            },
            _ => Err(EvalError::Shape),
        }
    }

    /// Unary minus.
    pub fn negate(&self) -> (r: Result<Atom, EvalError>)
        ensures
            result_view(r) == negate_spec(self@),
    {
        match self {
            Atom::Num(x) => from_number(x.neg()),
            _ => Err(EvalError::TypeMismatch),
        }
    }
}

} // verus!
