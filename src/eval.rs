use vstd::prelude::*;
use crate::error::{EvalError, Failure};
use crate::statement::{env_evaluated, lookup, Env, State};
use crate::tree::{lemma_views_index, lemma_views_len, lemma_views_push, views, Atom, AtomView, Op, S, SView};
use crate::value::{access_spec, all_leaves, binary_spec, evaluated, lemma_all_leaves_index, negate_spec, result_view};

verus! {

/// The value of an expression tree in an environment.
pub open spec fn eval_spec(e: SView, env: Env) -> Result<AtomView, Failure>
    decreases e,
{
    match e {
        SView::Atom(a) => match a {
            AtomView::Identifier(name) => match lookup(env, name) {
                Some(v) => Ok(v),
                None => Err(Failure::Undefined(name)),
            },
            AtomView::Array(xs) => match eval_seq(xs, env) {
                Ok(vs) => Ok(AtomView::Array(vs)),
                Err(f) => Err(f),
            },
            _ => Ok(a),
        },
        SView::Cons(op, xs) => {
            if xs.len() == 2 {
                match eval_spec(xs[0], env) {
                    Err(f) => Err(f),
                    Ok(l) => if op == Op::Access {
                        access_spec(l, xs[1])
                    } else {
                        match eval_spec(xs[1], env) {
                            Err(f) => Err(f),
                            Ok(r) => binary_spec(op, l, r),
                        }
                    },
                }
            } else if xs.len() == 1 && op == Op::Minus {
                match eval_spec(xs[0], env) {
                    Err(f) => Err(f),
                    Ok(v) => negate_spec(v),
                }
            } else {
                Err(Failure::Shape)
            }
        },
    }
}

/// The elements of an array, each evaluated left to right and held as a leaf;
/// the first failure stops the rest.
pub open spec fn eval_seq(xs: Seq<SView>, env: Env) -> Result<Seq<SView>, Failure>
    decreases xs,
{
    if xs.len() == 0 {
        Ok(Seq::empty())
    } else {
        match eval_seq(xs.drop_last(), env) {
            Err(f) => Err(f),
            Ok(vs) => match eval_spec(xs.last(), env) {
                Err(f) => Err(f),
                Ok(v) => Ok(vs.push(SView::Atom(v))),
            },
        }
    }
}

proof fn lemma_lookup_evaluated(env: Env, name: Seq<char>)
    requires
        env_evaluated(env),
    ensures
        lookup(env, name) is Some ==> evaluated(lookup(env, name)->Some_0),
    decreases env.len(),
{
    if env.len() > 0 {
        let e2 = env.drop_last();
        assert forall|i: int, k: Seq<char>| 0 <= i < e2.len() && #[trigger] e2[i].contains_key(k) implies evaluated(e2[i][k]) by {
            assert(env[i] == e2[i]);
        }
        lemma_lookup_evaluated(e2, name);
        if env.last().contains_key(name) {
            assert(env[env.len() - 1].contains_key(name));
        }
    }
}

/// In an environment whose bindings are evaluated, what an expression
/// evaluates to is evaluated too.
pub proof fn lemma_eval_evaluated(e: SView, env: Env)
    requires
        env_evaluated(env),
    ensures
        eval_spec(e, env) is Ok ==> evaluated(eval_spec(e, env)->Ok_0),
    decreases e,
{
    match e {
        SView::Atom(a) => match a {
            AtomView::Identifier(name) => lemma_lookup_evaluated(env, name),
            AtomView::Array(xs) => lemma_eval_seq_evaluated(xs, env),
            _ => {},
        },
        SView::Cons(op, xs) => {
            if xs.len() == 2 {
                lemma_eval_evaluated(xs[0], env);
                lemma_eval_evaluated(xs[1], env);
                if op == Op::Indexing {
                    let l = eval_spec(xs[0], env);
                    let r = eval_spec(xs[1], env);
                    if l is Ok && r is Ok {
                        if let (AtomView::Array(ys), AtomView::Num(n)) = (l->Ok_0, r->Ok_0) {
                            let k = n.numer() / n.denom();
                            if n.denom() > 0 && n.numer() >= 0 && n.numer() % n.denom() == 0 && k < ys.len() {
                                assert(k >= 0) by (nonlinear_arith)
                                    requires
                                        n.denom() > 0,
                                        n.numer() >= 0,
                                        k == n.numer() / n.denom(),
                                ;
                                lemma_all_leaves_index(ys, k);
                            }
                        }
                    }
                }
            } else if xs.len() == 1 {
                lemma_eval_evaluated(xs[0], env);
            }
        },
    }
}

proof fn lemma_eval_seq_evaluated(xs: Seq<SView>, env: Env)
    requires
        env_evaluated(env),
    ensures
        eval_seq(xs, env) is Ok ==> all_leaves(eval_seq(xs, env)->Ok_0),
    decreases xs,
{
    if xs.len() > 0 {
        lemma_eval_seq_evaluated(xs.drop_last(), env);
        lemma_eval_evaluated(xs.last(), env);
        if eval_seq(xs, env) is Ok {
            let vs = eval_seq(xs, env)->Ok_0;
            assert(vs.drop_last() =~= eval_seq(xs.drop_last(), env)->Ok_0);
        }
    }
}

/// Evaluates an expression tree against the environment, which it only reads.
/// In a well-formed state the value is evaluated: no identifier anywhere in it.
pub fn eval_expr(expr: &S, state: &State) -> (r: Result<Atom, EvalError>)
    ensures
        result_view(r) == eval_spec(expr@, state@.scopes),
        state.wf() && r is Ok ==> evaluated(r->Ok_0@),
    decreases expr,
{
    proof {
        if state.wf() {
            lemma_eval_evaluated(expr@, state@.scopes);
        }
    }
    match expr {
        S::Atom(a) => match a {
            Atom::Identifier(name) => match state.get_variable(name) {
                Some(v) => Ok(v.copy()),
                None => Err(EvalError::Undefined(name.clone())),
            },
            Atom::Array(xs) => match eval_all(xs, state) {
                Ok(vs) => Ok(Atom::Array(vs)),
                Err(f) => Err(f),
            },
            _ => Ok(a.copy()),
        },
        S::Cons(op, xs) => {
            proof {
                lemma_views_len(xs@);
            }
            if xs.len() == 2 {
                proof {
                    lemma_views_index(xs@, 0);
                    lemma_views_index(xs@, 1);
                }
                assert(decreases_to!(xs => xs@[0]));
                let l = match eval_expr(&xs[0], state) {
                    Ok(l) => l,
                    Err(f) => {
                        return Err(f);
                    },
                };
                if *op == Op::Access {
                    l.access(&xs[1])
                } else {
                    assert(decreases_to!(xs => xs@[1]));
                    let r = match eval_expr(&xs[1], state) {
                        Ok(r) => r,
                        Err(f) => {
                            return Err(f);
                        },
                    };
                    Atom::binary(*op, &l, &r)
                }
            } else if xs.len() == 1 && *op == Op::Minus {
                proof {
                    lemma_views_index(xs@, 0);
                }
                assert(decreases_to!(xs => xs@[0]));
                match eval_expr(&xs[0], state) {
                    Ok(v) => v.negate(),
                    Err(f) => Err(f),
                }
            } else {
                Err(EvalError::Shape)
            }
        },
    }
}

proof fn lemma_eval_seq_err(xs: Seq<S>, k: int, env: Env, f: Failure)
    requires
        0 <= k <= xs.len(),
        eval_seq(views(xs.subrange(0, k)), env) == Err::<Seq<SView>, Failure>(f),
    ensures
        eval_seq(views(xs), env) == Err::<Seq<SView>, Failure>(f),
    decreases xs.len() - k,
{
    if k == xs.len() {
        assert(xs.subrange(0, k) =~= xs);
    } else {
        let pre = xs.subrange(0, k);
        assert(pre.push(xs[k]) =~= xs.subrange(0, k + 1));
        lemma_views_push(pre, xs[k]);
        assert(views(pre.push(xs[k])).drop_last() =~= views(pre));
        lemma_eval_seq_err(xs, k + 1, env, f);
    }
}

/// Evaluates the elements of an array literal.
fn eval_all(xs: &Vec<S>, state: &State) -> (r: Result<Vec<S>, EvalError>)
    ensures
        match r {
            Ok(vs) => eval_seq(views(xs@), state@.scopes) == Ok::<Seq<SView>, Failure>(views(vs@)),
            Err(f) => eval_seq(views(xs@), state@.scopes) == Err::<Seq<SView>, Failure>(f.view()),
        },
    decreases xs,
{
    let ghost env = state@.scopes;
    let mut out: Vec<S> = Vec::new();
    let mut i: usize = 0;
    assert(views(xs@.subrange(0, 0)) =~= Seq::<SView>::empty());
    while i < xs.len()
        invariant
            i <= xs.len(),
            env == state@.scopes,
            eval_seq(views(xs@.subrange(0, i as int)), env) == Ok::<Seq<SView>, Failure>(views(out@)),
        decreases xs.len() - i,
    {
        let ghost pre = xs@.subrange(0, i as int);
        proof {
            assert(pre.push(xs@[i as int]) =~= xs@.subrange(0, i as int + 1));
            lemma_views_push(pre, xs@[i as int]);
            assert(views(pre.push(xs@[i as int])).drop_last() =~= views(pre));
        }
        assert(decreases_to!(xs => xs@[i as int]));
        match eval_expr(&xs[i], state) {
            Ok(v) => {
                let leaf = S::Atom(v);
                proof {
                    lemma_views_push(out@, leaf);
                }
                out.push(leaf);
            },
            Err(f) => {
                proof {
                    lemma_eval_seq_err(xs@, i as int + 1, env, f.view());
                }
                return Err(f);
            },
        }
        i += 1;
    }
    assert(xs@.subrange(0, xs.len() as int) =~= xs@);
    Ok(out)
}

} // verus!
