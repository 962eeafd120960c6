use vstd::prelude::*;
use crate::error::Failure;
use crate::eval::eval_spec;
use crate::statement::{
    block_spec, declare_spec, exec_spec, lemma_scope_of, lookup, same_kind, scope_of, stmts_spec,
    while_spec, Block, Env, StateView, Stmt, While,
};
use crate::tree::{AtomView, SView};

verus! {

/// Whether `env` binds `name` in no scope.
pub open spec fn unbound(env: Env, name: Seq<char>) -> bool {
    forall|i: int| 0 <= i < env.len() ==> !(#[trigger] env[i]).contains_key(name)
}

proof fn lemma_lookup_none(env: Env, name: Seq<char>)
    ensures
        lookup(env, name) is None <==> unbound(env, name),
    decreases env.len(),
{
    if env.len() > 0 {
        lemma_lookup_none(env.drop_last(), name);
        if !unbound(env, name) {
            let i = choose|i: int| 0 <= i < env.len() && (#[trigger] env[i]).contains_key(name);
            if i < env.len() - 1 {
                assert(env.drop_last()[i] == env[i]);
            }
        }
    }
}

proof fn lemma_lookup_after_bind(env: Env, name: Seq<char>, v: AtomView)
    requires
        scope_of(env, name) is Some,
    ensures
        lookup(env.update(scope_of(env, name)->Some_0, env[scope_of(env, name)->Some_0].insert(name, v)), name)
            == Some(v),
    decreases env.len(),
{
    lemma_scope_of(env, name);
    let i = scope_of(env, name)->Some_0;
    let env2 = env.update(i, env[i].insert(name, v));
    if i < env.len() - 1 {
        assert(!env.last().contains_key(name));
        assert(env2.last() == env.last());
        assert(env2.drop_last() =~= env.drop_last().update(i, env[i].insert(name, v)));
        lemma_lookup_after_bind(env.drop_last(), name, v);
    }
}

/// Evaluating a bare identifier that no active scope binds fails with an
/// undefined-variable error that names it.
pub proof fn undefined_identifier_fails(env: Env, name: Seq<char>)
    requires
        unbound(env, name),
    ensures
        eval_spec(SView::Atom(AtomView::Identifier(name)), env) == Err::<AtomView, Failure>(
            Failure::Undefined(name),
        ),
{
    lemma_lookup_none(env, name);
}

/// A declaration without the alias flag keeps the kind of a bound name: a
/// value of another kind is refused with an error that names both values and
/// changes nothing;
/// a value of the same kind replaces it, and a later lookup sees the new value.
pub proof fn declaration_keeps_kind(name: Seq<char>, rhs: SView, st: StateView)
    requires
        lookup(st.scopes, name) is Some,
        eval_spec(rhs, st.scopes) is Ok,
    ensures
        ({
            let old_v = lookup(st.scopes, name)->Some_0;
            let v = eval_spec(rhs, st.scopes)->Ok_0;
            let (st2, r) = declare_spec(name, rhs, false, st);
            &&& !same_kind(old_v, v) ==> st2 == st && r == Err::<(), Failure>(
                Failure::Redeclared(name, old_v, v),
            )
            &&& same_kind(old_v, v) ==> r is Ok && lookup(st2.scopes, name) == Some(v)
        }),
{
    lemma_scope_of(st.scopes, name);
    let v = eval_spec(rhs, st.scopes)->Ok_0;
    lemma_lookup_after_bind(st.scopes, name, v);
}

/// `st2` has the scopes of `st`, each with the same names bound, except that
/// the innermost one may bind more.
pub open spec fn keeps_outer(st: StateView, st2: StateView) -> bool {
    &&& st2.scopes.len() == st.scopes.len()
    &&& forall|i: int| 0 <= i < st.scopes.len() - 1 ==> (#[trigger] st2.scopes[i]).dom() == st.scopes[i].dom()
    &&& st.scopes.len() >= 1 ==> st.scopes.last().dom().subset_of(st2.scopes.last().dom())
}

/// `st2` has the scopes of `st`, each with the same names bound.
pub open spec fn keeps_all(st: StateView, st2: StateView) -> bool {
    &&& st2.scopes.len() == st.scopes.len()
    &&& forall|i: int| 0 <= i < st.scopes.len() ==> (#[trigger] st2.scopes[i]).dom() == st.scopes[i].dom()
}

proof fn lemma_stmt_keeps(s: Stmt, st: StateView, fuel: nat)
    requires
        st.scopes.len() >= 1,
    ensures
        keeps_outer(st, exec_spec(s, st, fuel).0),
    decreases s, 0nat,
{
    match s {
        Stmt::Dec(d) => {
            let name = d.lhs@;
            lemma_scope_of(st.scopes, name);
            match (scope_of(st.scopes, name), eval_spec(d.rhs@, st.scopes)) {
                (Some(i), Ok(v)) => {
                    assert(st.scopes[i].insert(name, v).dom() =~= st.scopes[i].dom());
                },
                _ => {},
            }
        },
        Stmt::IfStmt(c) => {
            lemma_block_keeps(c.then_block, st, fuel);
            lemma_block_keeps(c.else_block, st, fuel);
        },
        Stmt::WhileStmt(w) => {
            lemma_while_keeps(w, st, fuel, fuel);
        },
        _ => {},
    }
}

proof fn lemma_stmts_keep(ss: Seq<Stmt>, st: StateView, fuel: nat)
    requires
        st.scopes.len() >= 1,
    ensures
        keeps_outer(st, stmts_spec(ss, st, fuel).0),
    decreases ss, 0nat,
{
    if ss.len() > 0 {
        lemma_stmts_keep(ss.drop_last(), st, fuel);
        let st1 = stmts_spec(ss.drop_last(), st, fuel).0;
        lemma_stmt_keeps(ss.last(), st1, fuel);
    }
}

proof fn lemma_block_keeps(b: Block, st: StateView, fuel: nat)
    requires
        st.scopes.len() >= 1,
    ensures
        keeps_all(st, block_spec(b, st, fuel).0),
    decreases b, 0nat,
{
    let inner = StateView { scopes: st.scopes.push(Map::empty()), printed: st.printed };
    lemma_stmts_keep(b.stmts@, inner, fuel);
    let st1 = stmts_spec(b.stmts@, inner, fuel).0;
    assert forall|i: int| 0 <= i < st.scopes.len() implies (#[trigger] block_spec(b, st, fuel).0.scopes[i]).dom()
        == st.scopes[i].dom() by {
        assert(inner.scopes[i] == st.scopes[i]);
        assert(st1.scopes[i].dom() == inner.scopes[i].dom());
    }
}

proof fn lemma_while_keeps(w: While, st: StateView, fuel: nat, left: nat)
    requires
        st.scopes.len() >= 1,
    ensures
        keeps_all(st, while_spec(w, st, fuel, left).0),
    decreases w, left,
{
    lemma_block_keeps(w.loop_block, st, fuel);
    if left > 0 {
        let st1 = block_spec(w.loop_block, st, fuel).0;
        lemma_while_keeps(w, st1, fuel, (left - 1) as nat);
    }
}

/// A block leaves the environment with the same scopes, each binding the same
/// names as before, whatever it declares inside and however it ends: a name
/// that was bound nowhere before the block is bound nowhere after it.
pub proof fn block_scope_isolation(b: Block, st: StateView, fuel: nat, name: Seq<char>)
    requires
        st.scopes.len() >= 1,
    ensures
        keeps_all(st, block_spec(b, st, fuel).0),
        unbound(st.scopes, name) ==> unbound(block_spec(b, st, fuel).0.scopes, name),
{
    lemma_block_keeps(b, st, fuel);
    let st2 = block_spec(b, st, fuel).0;
    if unbound(st.scopes, name) {
        assert forall|i: int| 0 <= i < st2.scopes.len() implies !(#[trigger] st2.scopes[i]).contains_key(name) by {
            assert(st2.scopes[i].dom() == st.scopes[i].dom());
            assert(!st.scopes[i].contains_key(name));
        }
    }
}

} // verus!
