use vstd::prelude::*;
use crate::error::{EvalError, Failure};
use crate::eval::{eval_expr, eval_spec, lemma_eval_evaluated};
use crate::value::evaluated;
use crate::tree::{Atom, AtomView, S, SView};

verus! {

/// The model of an environment: its scopes, outermost first.
pub type Env = Seq<Map<Seq<char>, AtomView>>;

/// Whether every value that `env` binds is evaluated.
pub open spec fn env_evaluated(env: Env) -> bool {
    forall|i: int, k: Seq<char>| 0 <= i < env.len() && #[trigger] env[i].contains_key(k) ==> evaluated(env[i][k])
}

/// The binding of `name` in the innermost scope that has one.
pub open spec fn lookup(env: Env, name: Seq<char>) -> Option<AtomView>
    decreases env.len(),
{
    if env.len() == 0 {
        None
    } else if env.last().contains_key(name) {
        Some(env.last()[name])
    } else {
        lookup(env.drop_last(), name)
    }
}

/// The index of the innermost scope that binds `name`.
pub open spec fn scope_of(env: Env, name: Seq<char>) -> Option<int>
    decreases env.len(),
{
    if env.len() == 0 {
        None
    } else if env.last().contains_key(name) {
        Some(env.len() - 1)
    } else {
        scope_of(env.drop_last(), name)
    }
}

/// The map that a list of bindings stands for: a later entry for a name
/// overrides an earlier one.
pub open spec fn scope_map(vars: Seq<(String, Atom)>) -> Map<Seq<char>, AtomView>
    decreases vars.len(),
{
    if vars.len() == 0 {
        Map::empty()
    } else {
        scope_map(vars.drop_last()).insert(vars.last().0@, vars.last().1@)
    }
}

/// The models of a list of values.
pub open spec fn atom_views(xs: Seq<Atom>) -> Seq<AtomView> {
    Seq::new(xs.len(), |i: int| xs[i]@)
}

proof fn lemma_scope_map_last(vars: Seq<(String, Atom)>, name: Seq<char>, j: int)
    requires
        0 <= j < vars.len(),
        vars[j].0@ == name,
        forall|k: int| j < k < vars.len() ==> vars[k].0@ != name,
    ensures
        scope_map(vars).contains_key(name),
        scope_map(vars)[name] == vars[j].1@,
    decreases vars.len(),
{
    if j < vars.len() - 1 {
        lemma_scope_map_last(vars.drop_last(), name, j);
    }
}

proof fn lemma_scope_map_absent(vars: Seq<(String, Atom)>, name: Seq<char>)
    requires
        forall|k: int| 0 <= k < vars.len() ==> vars[k].0@ != name,
    ensures
        !scope_map(vars).contains_key(name),
    decreases vars.len(),
{
    if vars.len() > 0 {
        lemma_scope_map_absent(vars.drop_last(), name);
    }
}

proof fn lemma_scope_map_update(vars: Seq<(String, Atom)>, j: int, entry: (String, Atom))
    requires
        0 <= j < vars.len(),
        vars[j].0@ == entry.0@,
        forall|k: int| j < k < vars.len() ==> vars[k].0@ != entry.0@,
    ensures
        scope_map(vars.update(j, entry)) == scope_map(vars).insert(entry.0@, entry.1@),
    decreases vars.len(),
{
    let w = vars.update(j, entry);
    if j == vars.len() - 1 {
        assert(w.drop_last() =~= vars.drop_last());
        assert(scope_map(w) =~= scope_map(vars).insert(entry.0@, entry.1@));
    } else {
        assert(w.drop_last() =~= vars.drop_last().update(j, entry));
        lemma_scope_map_update(vars.drop_last(), j, entry);
        assert(scope_map(w) =~= scope_map(vars).insert(entry.0@, entry.1@));
    }
}

/// One lexical level's bindings.
#[derive(Debug)]
pub struct Scope {
    vars: Vec<(String, Atom)>,
}

impl Scope {
    pub closed spec fn view(&self) -> Map<Seq<char>, AtomView> {
        scope_map(self.vars@)
    }

    /// No name has two entries.
    pub closed spec fn wf(&self) -> bool {
        forall|i: int, j: int| 0 <= i < j < self.vars.len() ==> self.vars@[i].0@ != self.vars@[j].0@
    }

    pub fn new() -> (r: Scope)
        ensures
            r@ == Map::<Seq<char>, AtomView>::empty(),
            r.wf(),
    {
        Scope { vars: Vec::new() }
    }

    /// The position of the entry that holds `name`'s binding.
    fn find(&self, name: &String) -> (r: Option<usize>)
        ensures
            match r {
                Some(j) => j < self.vars.len() && self.vars@[j as int].0@ == name@ && (forall|k: int|
                    j < k < self.vars.len() ==> self.vars@[k].0@ != name@),
                None => forall|k: int| 0 <= k < self.vars.len() ==> self.vars@[k].0@ != name@,
            },
    {
        let mut i: usize = self.vars.len();
        while i > 0
            invariant
                i <= self.vars.len(),
                forall|k: int| i <= k < self.vars.len() ==> self.vars@[k].0@ != name@,
            decreases i,
        {
            if self.vars[i - 1].0.eq(name) {
                return Some(i - 1);
            }
            i -= 1;
        }
        None
    }

    /// The value bound to `name` in this scope.
    pub fn get(&self, name: &String) -> (r: Option<&Atom>)
        ensures
            match r {
                Some(v) => self@.contains_key(name@) && self@[name@] == v@,
                None => !self@.contains_key(name@),
            },
    {
        match self.find(name) {
            Some(j) => {
                proof {
                    lemma_scope_map_last(self.vars@, name@, j as int);
                }
                Some(&self.vars[j].1)
            },
            None => {
                proof {
                    lemma_scope_map_absent(self.vars@, name@);
                }
                None
            },
        }
    }

    /// Binds `name` to `value`, replacing an earlier binding.
    pub fn set(&mut self, name: String, value: Atom)
        requires
            old(self).wf(),
        ensures
            final(self)@ == old(self)@.insert(name@, value@),
            final(self).wf(),
    {
        match self.find(&name) {
            Some(j) => {
                proof {
                    lemma_scope_map_update(self.vars@, j as int, (name, value));
                }
                self.vars.set(j, (name, value));
            },
            None => {
                let ghost old_vars = self.vars@;
                self.vars.push((name, value));
                proof {
                    assert(self.vars@.drop_last() =~= old_vars);
                }
            },
        }
    }
}

/// The model of a `State`.
pub struct StateView {
    pub scopes: Env,
    pub printed: Seq<AtomView>,
}

/// The environment: a stack of scopes, outermost first, never empty; and the
/// values that print statements have emitted, in order.
#[derive(Debug)]
pub struct State {
    scopes: Vec<Scope>,
    printed: Vec<Atom>,
}

impl State {
    /// At least one scope is active, every bound value is evaluated, and each
    /// scope binds a name once.
    pub open spec fn wf(&self) -> bool {
        self@.scopes.len() >= 1 && env_evaluated(self@.scopes) && self.keys_unique()
    }

    /// No scope holds two entries for one name.
    pub closed spec fn keys_unique(&self) -> bool {
        forall|i: int| 0 <= i < self.scopes.len() ==> (#[trigger] self.scopes@[i]).wf()
    }

    pub closed spec fn view(&self) -> StateView {
        StateView {
            scopes: Seq::new(self.scopes.len() as nat, |i: int| self.scopes[i]@),
            printed: atom_views(self.printed@),
        }
    }

    /// The value of `var` in the innermost scope that binds it.
    pub fn get_variable(&self, var: &String) -> (r: Option<&Atom>)
        ensures
            match r {
                Some(v) => lookup(self@.scopes, var@) == Some(v@),
                None => lookup(self@.scopes, var@) is None,
            },
    {
        let mut i: usize = self.scopes.len();
        assert(self@.scopes.subrange(0, i as int) =~= self@.scopes);
        while i > 0
            invariant
                i <= self.scopes.len(),
                lookup(self@.scopes, var@) == lookup(self@.scopes.subrange(0, i as int), var@),
            decreases i,
        {
            let ghost env = self@.scopes.subrange(0, i as int);
            assert(env.drop_last() =~= self@.scopes.subrange(0, i - 1));
            match self.scopes[i - 1].get(var) {
                Some(v) => {
                    return Some(v);
                },
                None => {},
            }
            i -= 1;
        }
        None
    }

    fn scope_index(&self, var: &String) -> (r: Option<usize>)
        ensures
            match r {
                Some(i) => scope_of(self@.scopes, var@) == Some(i as int),
                None => scope_of(self@.scopes, var@) is None,
            },
    {
        let mut i: usize = self.scopes.len();
        assert(self@.scopes.subrange(0, i as int) =~= self@.scopes);
        while i > 0
            invariant
                i <= self.scopes.len(),
                scope_of(self@.scopes, var@) == scope_of(self@.scopes.subrange(0, i as int), var@),
            decreases i,
        {
            let ghost env = self@.scopes.subrange(0, i as int);
            assert(env.drop_last() =~= self@.scopes.subrange(0, i - 1));
            match self.scopes[i - 1].get(var) {
                Some(_) => {
                    return Some(i - 1);
                },
                None => {},
            }
            i -= 1;
        }
        None
    }

    fn set_in(&mut self, i: usize, name: String, value: Atom)
        requires
            i < old(self)@.scopes.len(),
            old(self).keys_unique(),
        ensures
            final(self)@ == bind(old(self)@, i as int, name@, value@),
            old(self).wf() && evaluated(value@) ==> final(self).wf(),
    {
        let ghost st = self@;
        let ghost v = value@;
        let ghost old_scopes = self.scopes@;
        assert(old_scopes[i as int].wf());
        self.scopes[i].set(name, value);
        assert forall|j: int| 0 <= j < self.scopes.len() implies (#[trigger] self.scopes@[j]).wf() by {
            if j != i {
                assert(self.scopes@[j] == old_scopes[j]);
            }
        }
        assert(self@.scopes =~= bind(st, i as int, name@, v).scopes);
        assert(st.scopes.len() >= 1 && env_evaluated(st.scopes) && evaluated(v) ==> env_evaluated(self@.scopes)) by {
            if st.scopes.len() >= 1 && env_evaluated(st.scopes) && evaluated(v) {
                assert forall|j: int, k: Seq<char>| 0 <= j < self@.scopes.len() && #[trigger] self@.scopes[j].contains_key(k)
                    implies evaluated(self@.scopes[j][k]) by {
                    if j == i && k == name@ {
                    } else {
                        assert(st.scopes[j].contains_key(k));
                    }
                }
            }
        }
    }

    fn enter(&mut self)
        ensures
            final(self)@ == push_scope(old(self)@),
            old(self).wf() ==> final(self).wf(),
    {
        let ghost st = self@;
        let ghost old_scopes = self.scopes@;
        self.scopes.push(Scope::new());
        assert(self@.scopes =~= push_scope(st).scopes);
        assert(old(self).keys_unique() ==> self.keys_unique()) by {
            if old(self).keys_unique() {
                assert forall|j: int| 0 <= j < self.scopes.len() implies (#[trigger] self.scopes@[j]).wf() by {
                    if j < old_scopes.len() {
                        assert(self.scopes@[j] == old_scopes[j]);
                    }
                }
            }
        }
        assert(env_evaluated(st.scopes) ==> env_evaluated(self@.scopes)) by {
            if env_evaluated(st.scopes) {
                assert forall|j: int, k: Seq<char>| 0 <= j < self@.scopes.len() && #[trigger] self@.scopes[j].contains_key(k)
                    implies evaluated(self@.scopes[j][k]) by {
                    assert(j < st.scopes.len());
                }
            }
        }
    }

    fn leave(&mut self)
        requires
            old(self)@.scopes.len() >= 2,
        ensures
            final(self)@ == pop_scope(old(self)@),
            env_evaluated(old(self)@.scopes) && old(self).keys_unique() ==> final(self).wf(),
    {
        let ghost st = self@;
        let ghost old_scopes = self.scopes@;
        self.scopes.pop();
        assert(old(self).keys_unique() ==> self.keys_unique()) by {
            if old(self).keys_unique() {
                assert forall|j: int| 0 <= j < self.scopes.len() implies (#[trigger] self.scopes@[j]).wf() by {
                    assert(self.scopes@[j] == old_scopes[j]);
                }
            }
        }
        assert(self@.scopes =~= pop_scope(st).scopes);
        assert(env_evaluated(st.scopes) ==> env_evaluated(self@.scopes)) by {
            if env_evaluated(st.scopes) {
                assert forall|j: int, k: Seq<char>| 0 <= j < self@.scopes.len() && #[trigger] self@.scopes[j].contains_key(k)
                    implies evaluated(self@.scopes[j][k]) by {
                    assert(st.scopes[j] == self@.scopes[j]);
                }
            }
        }
    }

    fn emit(&mut self, v: Atom)
        ensures
            final(self)@ == (StateView { scopes: old(self)@.scopes, printed: old(self)@.printed.push(v@) }),
            old(self).wf() ==> final(self).wf(),
    {
        let ghost st = self@;
        self.printed.push(v);
        assert(self@.printed =~= st.printed.push(v@));
    }

    /// Carries out a declaration; see `declare_spec`.
    pub fn declare(&mut self, dec: Declaration) -> (r: Result<(), EvalError>)
        requires
            old(self).wf(),
        ensures
            final(self).wf(),
            final(self)@.scopes.len() == old(self)@.scopes.len(),
            declare_spec(dec.lhs@, dec.rhs@, dec.alias, old(self)@) == (final(self)@, match r {
                Ok(()) => Ok::<(), Failure>(()),
                Err(e) => Err(e.view()),
            }),
    {
        proof {
            lemma_scope_of(self@.scopes, dec.lhs@);
            lemma_eval_evaluated(dec.rhs@, self@.scopes);
        }
        match self.scope_index(&dec.lhs) {
            Some(i) => {
                let v = match eval_expr(&dec.rhs, self) {
                    Ok(v) => v,
                    Err(f) => {
                        return Err(f);
                    },
                };
                let old_v = self.scopes[i].get(&dec.lhs).unwrap().copy();
                if dec.alias || same_kind_of(&old_v, &v) {
                    self.set_in(i, dec.lhs, v);
                    Ok(())
                } else {
                    Err(EvalError::Redeclared(dec.lhs, old_v, v))
                }
            },
            None => {
                if !dec.alias {
                    return Err(EvalError::Uninitialized(dec.lhs));
                }
                let v = match eval_expr(&dec.rhs, self) {
                    Ok(v) => v,
                    Err(f) => {
                        return Err(f);
                    },
                };
                let last = self.scopes.len() - 1;
                self.set_in(last, dec.lhs, v);
                Ok(())
            },
        }
    }

    /// The values emitted by print statements so far, oldest first.
    pub fn printed(&self) -> (r: &Vec<Atom>)
        ensures
            atom_views(r@) == self@.printed,
    {
        &self.printed
    }
}

impl Default for State {
    /// One empty scope, nothing printed.
    fn default() -> (r: State)
        ensures
            r.wf(),
            r@.scopes == seq![Map::<Seq<char>, AtomView>::empty()],
            r@.printed == Seq::<AtomView>::empty(),
    {
        let mut scopes: Vec<Scope> = Vec::new();
        scopes.push(Scope::new());
        let r = State { scopes, printed: Vec::new() };
        assert(r@.scopes =~= seq![Map::<Seq<char>, AtomView>::empty()]);
        assert(r@.printed =~= Seq::<AtomView>::empty());
        assert(env_evaluated(r@.scopes));
        r
    }
}


pub proof fn lemma_scope_of(env: Env, name: Seq<char>)
    ensures
        match scope_of(env, name) {
            Some(i) => 0 <= i < env.len() && env[i].contains_key(name) && lookup(env, name) == Some(
                env[i][name],
            ),
            None => lookup(env, name) is None,
        },
    decreases env.len(),
{
    if env.len() > 0 {
        lemma_scope_of(env.drop_last(), name);
    }
}

fn same_kind_of(a: &Atom, b: &Atom) -> (r: bool)
    ensures
        r == same_kind(a@, b@),
{
    match (a, b) {
        (Atom::Num(_), Atom::Num(_)) => true,
        (Atom::Str(_), Atom::Str(_)) => true,
        (Atom::Bool(_), Atom::Bool(_)) => true,
        (Atom::Array(_), Atom::Array(_)) => true,
        (Atom::Identifier(_), Atom::Identifier(_)) => true,
        _ => false,
    }
}

/// Whether two values are of the same kind.
pub open spec fn same_kind(a: AtomView, b: AtomView) -> bool {
    match (a, b) {
        (AtomView::Num(_), AtomView::Num(_)) => true,
        (AtomView::Str(_), AtomView::Str(_)) => true,
        (AtomView::Bool(_), AtomView::Bool(_)) => true,
        (AtomView::Array(_), AtomView::Array(_)) => true,
        (AtomView::Identifier(_), AtomView::Identifier(_)) => true,
        _ => false,
    }
}

/// A state whose scope `i` binds `name` to `v`.
pub open spec fn bind(st: StateView, i: int, name: Seq<char>, v: AtomView) -> StateView {
    StateView { scopes: st.scopes.update(i, st.scopes[i].insert(name, v)), printed: st.printed }
}

/// The effect of a declaration. A name that some scope binds is updated in
/// the innermost such scope, if the new value is of the same kind or the
/// alias flag is set, and is otherwise refused with an error that names the
/// variable, its value and the new one; a new name is bound in the innermost
/// scope if the alias flag is set. The right-hand side is evaluated before the
/// kinds are compared.
pub open spec fn declare_spec(name: Seq<char>, rhs: SView, alias: bool, st: StateView) -> (StateView, Result<(), Failure>) {
    match scope_of(st.scopes, name) {
        Some(i) => match eval_spec(rhs, st.scopes) {
            Err(f) => (st, Err(f)),
            Ok(v) => if alias || same_kind(st.scopes[i][name], v) {
                (bind(st, i, name, v), Ok(()))
            } else {
                (st, Err(Failure::Redeclared(name, st.scopes[i][name], v)))
            },
        },
        None => if !alias {
            (st, Err(Failure::Uninitialized(name)))
        } else {
            match eval_spec(rhs, st.scopes) {
                Err(f) => (st, Err(f)),
                Ok(v) => (bind(st, st.scopes.len() - 1, name, v), Ok(())),
            }
        },
    }
}

/// Assigns the value of `rhs` to `lhs`, or declares `lhs` where `alias` is set.
pub struct Declaration {
    pub lhs: String,
    pub rhs: S,
    pub alias: bool,
}

/// A sequence of statements that runs in a scope of its own.
pub struct Block {
    pub stmts: Vec<Stmt>,
}

pub struct If {
    pub cond: S,
    pub then_block: Block,
    pub else_block: Block,
}

pub struct While {
    pub cond: S,
    pub loop_block: Block,
}

pub enum Stmt {
    ExprStmt(S),
    PrintStmt(S),
    Dec(Declaration),
    IfStmt(If),
    WhileStmt(While),
}

/// The model of what a statement returns.
pub open spec fn outcome_view(r: Result<Option<Atom>, EvalError>) -> Result<Option<AtomView>, Failure> {
    match r {
        Ok(Some(a)) => Ok(Some(a@)),
        Ok(None) => Ok(None),
        Err(e) => Err(e.view()),
    }
}

pub open spec fn push_scope(st: StateView) -> StateView {
    StateView { scopes: st.scopes.push(Map::empty()), printed: st.printed }
}

pub open spec fn pop_scope(st: StateView) -> StateView {
    StateView { scopes: st.scopes.drop_last(), printed: st.printed }
}

/// The effect and result of a statement. `fuel` bounds the iterations of each
/// loop that runs.
pub open spec fn exec_spec(s: Stmt, st: StateView, fuel: nat) -> (StateView, Result<Option<AtomView>, Failure>)
    decreases s, 0nat,
{
    match s {
        Stmt::ExprStmt(e) => match eval_spec(e@, st.scopes) {
            Ok(v) => (st, Ok(Some(v))),
            Err(f) => (st, Err(f)),
        },
        Stmt::PrintStmt(e) => match eval_spec(e@, st.scopes) {
            Ok(v) => (StateView { scopes: st.scopes, printed: st.printed.push(v) }, Ok(None)),
            Err(f) => (st, Err(f)),
        },
        Stmt::Dec(d) => match declare_spec(d.lhs@, d.rhs@, d.alias, st) {
            (st2, Ok(())) => (st2, Ok(None)),
            (st2, Err(f)) => (st2, Err(f)),
        },
        Stmt::IfStmt(i) => match eval_spec(i.cond@, st.scopes) {
            Ok(AtomView::Bool(c)) => match block_spec(if c { i.then_block } else { i.else_block }, st, fuel) {
                (st2, Ok(_)) => (st2, Ok(None)),
                (st2, Err(f)) => (st2, Err(f)),
            },
            Ok(_) => (st, Err(Failure::TypeMismatch)),
            Err(f) => (st, Err(f)),
        },
        Stmt::WhileStmt(w) => while_spec(w, st, fuel, fuel),
    }
}

/// A block: its statements in a fresh innermost scope, which is dropped after.
pub open spec fn block_spec(b: Block, st: StateView, fuel: nat) -> (StateView, Result<Option<AtomView>, Failure>)
    decreases b, 0nat,
{
    let (st1, r) = stmts_spec(b.stmts@, push_scope(st), fuel);
    (pop_scope(st1), r)
}

/// Statements in order; the result of the last one, and the first failure
/// stops the rest.
pub open spec fn stmts_spec(ss: Seq<Stmt>, st: StateView, fuel: nat) -> (StateView, Result<Option<AtomView>, Failure>)
    decreases ss, 0nat,
{
    if ss.len() == 0 {
        (st, Ok(None))
    } else {
        let (st1, r1) = stmts_spec(ss.drop_last(), st, fuel);
        if r1 is Err {
            (st1, r1)
        } else {
            exec_spec(ss.last(), st1, fuel)
        }
    }
}

/// A loop with at most `left` more iterations.
pub open spec fn while_spec(w: While, st: StateView, fuel: nat, left: nat) -> (StateView, Result<Option<AtomView>, Failure>)
    decreases w, left,
{
    match eval_spec(w.cond@, st.scopes) {
        Ok(AtomView::Bool(false)) => (st, Ok(None)),
        Ok(AtomView::Bool(true)) => if left == 0 {
            (st, Err(Failure::OutOfFuel))
        } else {
            let (st1, r) = block_spec(w.loop_block, st, fuel);
            if r is Err {
                (st1, r)
            } else {
                while_spec(w, st1, fuel, (left - 1) as nat)
            }
        },
        Ok(_) => (st, Err(Failure::TypeMismatch)),
        Err(f) => (st, Err(f)),
    }
}


proof fn lemma_stmts_err(ss: Seq<Stmt>, k: int, st: StateView, fuel: nat)
    requires
        0 <= k <= ss.len(),
        stmts_spec(ss.subrange(0, k), st, fuel).1 is Err,
    ensures
        stmts_spec(ss, st, fuel) == stmts_spec(ss.subrange(0, k), st, fuel),
    decreases ss.len() - k,
{
    if k == ss.len() {
        assert(ss.subrange(0, k) =~= ss);
    } else {
        assert(ss.subrange(0, k + 1).drop_last() =~= ss.subrange(0, k));
        lemma_stmts_err(ss, k + 1, st, fuel);
    }
}

impl Block {
    /// Runs the statements in a new innermost scope, dropped on every exit.
    pub fn execute(&self, state: &mut State, fuel: u64) -> (r: Result<Option<Atom>, EvalError>)
        requires
            old(state).wf(),
        ensures
            block_spec(*self, old(state)@, fuel as nat) == (final(state)@, outcome_view(r)),
            final(state)@.scopes.len() == old(state)@.scopes.len(),
            final(state).wf(),
        decreases self, 0nat,
    {
        let ghost st0 = state@;
        state.enter();
        let mut last: Option<Atom> = None;
        let mut i: usize = 0;
        assert(self.stmts@.subrange(0, 0) =~= Seq::<Stmt>::empty());
        while i < self.stmts.len()
            invariant
                st0 == old(state)@,
                state.wf(),
                i <= self.stmts.len(),
                state@.scopes.len() == st0.scopes.len() + 1,
                st0.scopes.len() >= 1,
                stmts_spec(self.stmts@.subrange(0, i as int), push_scope(st0), fuel as nat) == (
                state@,
                outcome_view(Ok(last)),
                ),
            decreases self.stmts.len() - i,
        {
            assert(self.stmts@.subrange(0, i as int + 1).drop_last() =~= self.stmts@.subrange(0, i as int));
            assert(decreases_to!(self => self.stmts@[i as int]));
            match self.stmts[i].execute(state, fuel) {
                Ok(v) => {
                    last = v;
                },
                Err(f) => {
                    proof {
                        lemma_stmts_err(self.stmts@, i as int + 1, push_scope(st0), fuel as nat);
                    }
                    state.leave();
                    return Err(f);
                },
            }
            i += 1;
        }
        assert(self.stmts@.subrange(0, i as int) =~= self.stmts@);
        state.leave();
        Ok(last)
    }
}

impl Stmt {
    /// Executes the statement. Only an expression statement gives a value;
    /// declarations, conditionals and loops give none. Each loop runs at most
    /// `fuel` iterations.
    pub fn execute(&self, state: &mut State, fuel: u64) -> (r: Result<Option<Atom>, EvalError>)
        requires
            old(state).wf(),
        ensures
            exec_spec(*self, old(state)@, fuel as nat) == (final(state)@, outcome_view(r)),
            final(state)@.scopes.len() == old(state)@.scopes.len(),
            final(state).wf(),
        decreases self, 0nat,
    {
        match self {
            Stmt::ExprStmt(e) => match eval_expr(e, state) {
                Ok(v) => Ok(Some(v)),
                Err(f) => Err(f),
            },
            Stmt::PrintStmt(e) => match eval_expr(e, state) {
                Ok(v) => {
                    state.emit(v);
                    Ok(None)
                },
                Err(f) => Err(f),
            },
            Stmt::Dec(d) => {
                let dec = Declaration { lhs: d.lhs.clone(), rhs: d.rhs.copy(), alias: d.alias };
                assert(dec.lhs@ == d.lhs@);
                match state.declare(dec) {
                    Ok(()) => Ok(None),
                    Err(f) => Err(f),
                }
            },
            Stmt::IfStmt(i) => match eval_expr(&i.cond, state) {
                Ok(Atom::Bool(c)) => {
                    let r = if c {
                        i.then_block.execute(state, fuel)
                    } else {
                        i.else_block.execute(state, fuel)
                    };
                    match r {
                        Ok(_) => Ok(None),
                        Err(f) => Err(f),
                    }
                },
                Ok(_) => Err(EvalError::TypeMismatch),
                Err(f) => Err(f),
            },
            Stmt::WhileStmt(w) => {
                let ghost st0 = state@;
                let mut left: u64 = fuel;
                loop
                    invariant
                        st0 == old(state)@,
                        *self == Stmt::WhileStmt(*w),
                        state.wf(),
                        state@.scopes.len() == st0.scopes.len(),
                        while_spec(*w, st0, fuel as nat, fuel as nat) == while_spec(*w, state@, fuel as nat, left as nat),
                    decreases left,
                {
                    match eval_expr(&w.cond, state) {
                        Ok(Atom::Bool(true)) => {
                            if left == 0 {
                                return Err(EvalError::OutOfFuel);
                            }
                            assert(decreases_to!(*self => w.loop_block));
                            match w.loop_block.execute(state, fuel) {
                                Ok(_) => {},
                                Err(f) => {
                                    return Err(f);
                                },
                            }
                            left -= 1;
                        },
                        Ok(Atom::Bool(false)) => {
                            return Ok(None);
                        },
                        Ok(_) => {
                            return Err(EvalError::TypeMismatch);
                        },
                        Err(f) => {
                            return Err(f);
                        },
                    }
                }
            },
        }
    }
}

} // verus!
