//! The environment of variables, and the execution of statements.
//!
//! Scopes are nested: each block opens one inside the scope around it, and
//! leaves it, with all that it declared, when it ends. A declaration binds in
//! the innermost scope and shadows what the scopes around it bind. Lookup and
//! assignment go from the innermost scope outwards to the first that binds
//! the name; assignment never binds a new name. An assignment has the value
//! that the name had before.
//!
//! Statements run strictly in order. A fatal problem ends the run at once and
//! is returned; what was printed and assigned before it stays. Reading or
//! assigning a name that is not bound is not fatal: the value is nil, and a
//! notice is kept.
//!
//! [`run`] and [`run_all`] state what running gives; [`Interpret::execute`]
//! and [`Interpret::interpret`] compute exactly that.
use vstd::prelude::*;
use crate::error::{Diagnostic, DiagnosticView, Problem};
use crate::expr::{eval, evaluation_sorts_problems, none_fatal, Evaluated, ExprView};
use crate::float::{deterministic, FloatUnit};
use crate::parser::{stmts_view, Stmt, StmtView};
use crate::token::{value_text, LiteralValue, Value};

verus! {

/// The scopes of an environment, outermost first: each maps names to values.
pub type Scopes = Seq<Map<Seq<char>, Value>>;

/// The index of the innermost scope that binds `name`, or -1 when none does.
pub open spec fn innermost(env: Scopes, name: Seq<char>) -> int
    decreases env.len(),
{
    if env.len() == 0 {
        -1
    } else if env.last().contains_key(name) {
        env.len() - 1
    } else {
        innermost(env.drop_last(), name)
    }
}

/// The value of `name` in the innermost scope that binds it.
pub open spec fn lookup(env: Scopes, name: Seq<char>) -> Option<Value> {
    let i = innermost(env, name);
    if i < 0 {
        None
    } else {
        Some(env[i][name])
    }
}

/// The scopes after `name` has been given the value `v` in the innermost
/// scope that binds it; unchanged when no scope does.
pub open spec fn assigned(env: Scopes, name: Seq<char>, v: Value) -> Scopes {
    let i = innermost(env, name);
    if i < 0 {
        env
    } else {
        env.update(i, env[i].insert(name, v))
    }
}

/// The scopes after the innermost has been left; the outermost stays.
pub open spec fn closed_scope(env: Scopes) -> Scopes {
    if env.len() > 1 {
        env.drop_last()
    } else {
        env
    }
}

/// The scopes after `name` has been declared with the value `v` in the
/// innermost scope, whatever the enclosing scopes hold.
pub open spec fn defined(env: Scopes, name: Seq<char>, v: Value) -> Scopes {
    if env.len() == 0 {
        seq![Map::empty().insert(name, v)]
    } else {
        env.update(env.len() - 1, env.last().insert(name, v))
    }
}

/// One variable of a scope.
#[derive(Debug, Clone)]
struct Binding {
    name: String,
    value: LiteralValue,
}

/// The map that a list of bindings stands for: a later binding of a name
/// replaces an earlier one.
spec fn scope_map(bindings: Seq<Binding>) -> Map<Seq<char>, Value>
    decreases bindings.len(),
{
    if bindings.len() == 0 {
        Map::empty()
    } else {
        scope_map(bindings.drop_last()).insert(bindings.last().name@, bindings.last().value@)
    }
}

/// `i` is the place of the last binding of `name`, or there is none and `i` is -1.
spec fn is_last_binding(bindings: Seq<Binding>, name: Seq<char>, i: int) -> bool {
    &&& -1 <= i < bindings.len()
    &&& i >= 0 ==> bindings[i].name@ == name
    &&& forall|j: int| i < j < bindings.len() ==> (#[trigger] bindings[j]).name@ != name
}

proof fn lemma_scope_map(bindings: Seq<Binding>, name: Seq<char>, i: int)
    requires
        is_last_binding(bindings, name, i),
    ensures
        scope_map(bindings).contains_key(name) <==> i >= 0,
        i >= 0 ==> scope_map(bindings)[name] == bindings[i].value@,
    decreases bindings.len(),
{
    if bindings.len() > 0 {
        let rest = bindings.drop_last();
        if i == bindings.len() - 1 {
        } else {
            assert(bindings[bindings.len() - 1].name@ != name);
            assert(is_last_binding(rest, name, i)) by {
                assert forall|j: int| i < j < rest.len() implies (#[trigger] rest[j]).name@ != name by {
                    assert(rest[j] == bindings[j]);
                }
            }
            lemma_scope_map(rest, name, i);
        }
    }
}

proof fn lemma_scope_map_update(bindings: Seq<Binding>, i: int, b: Binding)
    requires
        is_last_binding(bindings, b.name@, i),
        i >= 0,
    ensures
        scope_map(bindings.update(i, b)) == scope_map(bindings).insert(b.name@, b.value@),
    decreases bindings.len(),
{
    let after = bindings.update(i, b);
    let rest = bindings.drop_last();
    if i == bindings.len() - 1 {
        assert(after.drop_last() =~= rest);
        assert(scope_map(after) =~= scope_map(bindings).insert(b.name@, b.value@));
    } else {
        assert(bindings[bindings.len() - 1].name@ != b.name@);
        assert(is_last_binding(rest, b.name@, i)) by {
            assert forall|j: int| i < j < rest.len() implies (#[trigger] rest[j]).name@ != b.name@ by {
                assert(rest[j] == bindings[j]);
            }
        }
        lemma_scope_map_update(rest, i, b);
        assert(after.drop_last() =~= rest.update(i, b));
        assert(after.last() == bindings.last());
        assert(scope_map(after) =~= scope_map(bindings).insert(b.name@, b.value@));
    }
}

/// The variables that one block declares.
#[derive(Debug, Clone)]
struct Scope {
    bindings: Vec<Binding>,
}

impl Scope {
    spec fn map(&self) -> Map<Seq<char>, Value> {
        scope_map(self.bindings@)
    }

    fn new() -> (s: Scope)
        ensures
            s.map() == Map::<Seq<char>, Value>::empty(),
    {
        Scope { bindings: Vec::new() }
    }

    /// The place of the binding that decides `key`.
    fn find(&self, key: &String) -> (r: Option<usize>)
        ensures
            is_last_binding(
                self.bindings@,
                key@,
                match r {
                    Some(i) => i as int,
                    None => -1,
                },
            ),
            r is Some <==> self.map().contains_key(key@),
            r matches Some(i) ==> self.map()[key@] == self.bindings[i as int].value@,
    {
        let mut i: usize = self.bindings.len();
        while i > 0
            invariant
                i <= self.bindings.len(),
                forall|j: int| i <= j < self.bindings.len() ==> (#[trigger] self.bindings@[j]).name@ != key@,
            decreases i,
        {
            i -= 1;
            if self.bindings[i].name == *key {
                proof {
                    lemma_scope_map(self.bindings@, key@, i as int);
                }
                return Some(i);
            }
        }
        proof {
            lemma_scope_map(self.bindings@, key@, -1);
        }
        None
    }

    fn set(&mut self, key: String, value: LiteralValue)
        ensures
            final(self).map() == old(self).map().insert(key@, value@),
    {
        match self.find(&key) {
            Some(i) => {
                let b = Binding { name: key, value };
                proof {
                    lemma_scope_map_update(self.bindings@, i as int, b);
                }
                self.bindings.set(i, b);
            },
            None => {
                self.bindings.push(Binding { name: key, value });
                assert(self.bindings@.drop_last() =~= old(self).bindings@);
            },
        }
    }
}

/// The variables of a running program: a stack of scopes, the global scope
/// at the bottom and the scope of the innermost open block on top.
#[derive(Debug, Clone)]
pub struct Environment {
    scopes: Vec<Scope>,
}

impl View for Environment {
    type V = Scopes;

    closed spec fn view(&self) -> Scopes {
        Seq::new(self.scopes@.len(), |i: int| self.scopes@[i].map())
    }
}

impl Default for Environment {
    fn default() -> (env: Environment)
        ensures
            env@ == seq![Map::<Seq<char>, Value>::empty()],
    {
        Environment::new()
    }
}

impl Environment {
    /// An environment with an empty global scope.
    pub fn new() -> (env: Environment)
        ensures
            env@ == seq![Map::<Seq<char>, Value>::empty()],
    {
        let mut scopes: Vec<Scope> = Vec::new();
        scopes.push(Scope::new());
        let env = Environment { scopes };
        assert(env@ =~= seq![Map::<Seq<char>, Value>::empty()]);
        env
    }

    /// Opens a scope inside the current one.
    pub fn push_scope(&mut self)
        ensures
            final(self)@ == old(self)@.push(Map::empty()),
    {
        self.scopes.push(Scope::new());
        assert(self@ =~= old(self)@.push(Map::empty()));
    }

    /// Leaves the innermost scope, and what it declared with it. The global
    /// scope is never left.
    pub fn pop_scope(&mut self)
        ensures
            final(self)@ == closed_scope(old(self)@),
    {
        if self.scopes.len() > 1 {
            let _ = self.scopes.pop();
            assert(self@ =~= old(self)@.drop_last());
        }
    }

    /// Declares `key` in the innermost scope.
    pub fn define(&mut self, key: String, value: LiteralValue)
        ensures
            final(self)@ == defined(old(self)@, key@, value@),
    {
        let n: usize = self.scopes.len();
        if n == 0 {
            let mut s = Scope::new();
            s.set(key, value);
            self.scopes.push(s);
            assert(self@ =~= defined(old(self)@, key@, value@));
        } else {
            self.scopes[n - 1].set(key, value);
            assert(self@ =~= defined(old(self)@, key@, value@));
        }
    }

    /// The index of the innermost scope that binds `key`.
    fn locate(&self, key: &String) -> (r: Option<(usize, usize)>)
        ensures
            match r {
                Some((i, j)) => {
                    &&& i == innermost(self@, key@)
                    &&& i < self.scopes.len()
                    &&& is_last_binding(self.scopes[i as int].bindings@, key@, j as int)
                    &&& self@[i as int][key@] == self.scopes[i as int].bindings[j as int].value@
                },
                None => innermost(self@, key@) < 0,
            },
    {
        let mut i: usize = self.scopes.len();
        assert(self@.take(i as int) =~= self@);
        while i > 0
            invariant
                i <= self.scopes.len(),
                innermost(self@, key@) == innermost(self@.take(i as int), key@),
            decreases i,
        {
            i -= 1;
            assert(self@.take(i + 1).last() == self@[i as int]);
            assert(self@.take(i + 1).drop_last() =~= self@.take(i as int));
            match self.scopes[i].find(key) {
                Some(j) => {
                    return Some((i, j));
                },
                None => {},
            }
        }
        None
    }

    /// The value of `key` in the innermost scope that binds it.
    pub fn get(&self, key: &str) -> (r: Option<LiteralValue>)
        ensures
            r.deep_view() == lookup(self@, key@),
    {
        let k = key.to_owned();
        match self.locate(&k) {
            Some((i, j)) => Some(self.scopes[i].bindings[j].value.clone()),
            None => None,
        }
    }

    /// Gives `key` a new value in the innermost scope that binds it and
    /// returns the value that it had; binds nothing when no scope does.
    pub fn assign(&mut self, key: &str, value: LiteralValue) -> (r: Option<LiteralValue>)
        ensures
            r.deep_view() == lookup(old(self)@, key@),
            final(self)@ == assigned(old(self)@, key@, value@),
    {
        let k = key.to_owned();
        match self.locate(&k) {
            Some((i, j)) => {
                let before = self.scopes[i].bindings[j].value.clone();
                self.scopes[i].set(k, value);
                assert(self@ =~= assigned(old(self)@, key@, value@));
                Some(before)
            },
            None => None,
        }
    }
}

/// What running a statement comes to: completion or the fatal problem, the
/// scopes afterwards, the lines printed, the notices given, and whether the
/// unit was asked anything.
pub struct Ran {
    pub result: Result<(), DiagnosticView>,
    pub env: Scopes,
    pub output: Seq<Seq<char>>,
    pub notices: Seq<DiagnosticView>,
    pub asked: bool,
}

/// One run after another.
pub open spec fn after(first: Ran, second: Ran) -> Ran {
    Ran {
        result: second.result,
        env: second.env,
        output: first.output + second.output,
        notices: first.notices + second.notices,
        asked: first.asked || second.asked,
    }
}

/// A run that only evaluated an expression.
pub open spec fn evaluated(v: Evaluated) -> Ran {
    Ran {
        result: match v.result {
            Ok(_) => Ok(()),
            Err(d) => Err(d),
        },
        env: v.env,
        output: seq![],
        notices: v.notices,
        asked: v.asked,
    }
}

/// The meaning of statements. Every loop may go round `budget` times each
/// time it is entered; one that would go round once more ends in a fatal
/// problem.
pub open spec fn run<U: FloatUnit>(unit: &U, s: StmtView, env: Scopes, budget: nat) -> Ran
    decreases s, budget + 1,
{
    match s {
        StmtView::Expression(e) => evaluated(eval(unit, e, env)),
        StmtView::Print(e) => {
            let v = eval(unit, e, env);
            match v.result {
                Ok(x) => Ran {
                    result: Ok(()),
                    env: v.env,
                    output: seq![value_text(unit, x)],
                    notices: v.notices,
                    asked: v.asked || x is Float,
                },
                Err(_) => evaluated(v),
            }
        },
        StmtView::Variable { token, expression } => {
            let v = eval(unit, expression, env);
            match v.result {
                Ok(x) => Ran {
                    result: Ok(()),
                    env: defined(v.env, token.lexeme, x),
                    output: seq![],
                    notices: v.notices,
                    asked: v.asked,
                },
                Err(_) => evaluated(v),
            }
        },
        StmtView::Block(stmts) => {
            let inner = run_all(unit, stmts, 0, env.push(Map::empty()), budget);
            Ran {
                result: inner.result,
                env: closed_scope(inner.env),
                output: inner.output,
                notices: inner.notices,
                asked: inner.asked,
            }
        },
        StmtView::If { condition, then_branch, else_branch } => {
            let v = eval(unit, condition, env);
            match v.result {
                Ok(Value::True) => after(evaluated(v), run(unit, *then_branch, v.env, budget)),
                Ok(_) => match else_branch {
                    Some(b) => after(evaluated(v), run(unit, *b, v.env, budget)),
                    None => evaluated(v),
                },
                Err(_) => evaluated(v),
            }
        },
        StmtView::While { expr, stmt } => run_loop(unit, s, env, budget, budget),
    }
}

/// A loop that may go round `left` times more: as long as its condition is
/// the Boolean true, the body runs, with the whole budget for the loops
/// inside it.
pub open spec fn run_loop<U: FloatUnit>(
    unit: &U,
    s: StmtView,
    env: Scopes,
    left: nat,
    budget: nat,
) -> Ran
    decreases s, left,
{
    match s {
        StmtView::While { expr, stmt } => {
            let v = eval(unit, expr, env);
            match v.result {
                Ok(Value::True) => if left == 0 {
                    Ran {
                        result: Err(Diagnostic::plain(0, Problem::IterationLimit)),
                        env: v.env,
                        output: seq![],
                        notices: v.notices,
                        asked: v.asked,
                    }
                } else {
                    let body = after(evaluated(v), run(unit, *stmt, v.env, budget));
                    match body.result {
                        Ok(_) => after(body, run_loop(unit, s, body.env, (left - 1) as nat, budget)),
                        Err(_) => body,
                    }
                },
                _ => evaluated(v),
            }
        },
        _ => Ran { result: Ok(()), env, output: seq![], notices: seq![], asked: false },
    }
}

/// The statements of `stmts` from index `from` on, one after another, up to
/// the first that ends in a fatal problem.
pub open spec fn run_all<U: FloatUnit>(
    unit: &U,
    stmts: Seq<StmtView>,
    from: int,
    env: Scopes,
    budget: nat,
) -> Ran
    decreases stmts, stmts.len() - from,
{
    if 0 <= from < stmts.len() {
        let first = run(unit, stmts[from], env, budget);
        match first.result {
            Ok(_) => after(first, run_all(unit, stmts, from + 1, first.env, budget)),
            Err(_) => first,
        }
    } else {
        Ran { result: Ok(()), env, output: seq![], notices: seq![], asked: false }
    }
}

pub open spec fn done_view(r: Result<(), Diagnostic>) -> Result<(), DiagnosticView> {
    match r {
        Ok(_) => Ok(()),
        Err(d) => Err(d@),
    }
}

/// Runs statements and keeps what they print and the notices they give.
pub struct Interpret {
    /// The lines printed so far.
    pub output: Vec<String>,
    /// The notices given so far that did not end a run.
    pub notices: Vec<Diagnostic>,
    /// How many times a loop may go round each time it is entered.
    pub budget: u64,
}

impl Interpret {
    pub fn new() -> (r: Self)
        ensures
            r.output@.len() == 0,
            r.notices@.len() == 0,
            r.budget == u64::MAX,
    {
        Interpret { output: Vec::new(), notices: Vec::new(), budget: u64::MAX }
    }

    /// How the interpreter stands after a run `ran` from the state `before`:
    /// what was printed and noticed has been added to its lists.
    pub open spec fn follows(self, before: Self, ran: Ran) -> bool {
        &&& self.output.deep_view() == before.output.deep_view() + ran.output
        &&& self.notices.deep_view() == before.notices.deep_view() + ran.notices
        &&& self.budget == before.budget
    }

    /// Runs the statements in order, up to the first fatal problem, which it
    /// returns.
    pub fn interpret<U: FloatUnit>(&mut self, stmts: &[Stmt], env: &mut Environment, unit: &U) -> (r:
        Result<(), Diagnostic>)
        ensures
            final(self).budget == old(self).budget,
            deterministic(unit) || !run_all(
                unit,
                stmts_view(stmts@),
                0,
                old(env)@,
                old(self).budget as nat,
            ).asked ==> ({
                let ran = run_all(unit, stmts_view(stmts@), 0, old(env)@, old(self).budget as nat);
                &&& done_view(r) == ran.result
                &&& final(env)@ == ran.env
                &&& final(self).follows(*old(self), ran)
            }),
    {
        let fuel: u64 = self.budget;
        let ghost sv = stmts_view(stmts@);
        let mut i: usize = 0;
        proof {
            assert(self.output.deep_view() + Seq::<Seq<char>>::empty() =~= self.output.deep_view());
            assert(self.notices.deep_view() + Seq::<DiagnosticView>::empty()
                =~= self.notices.deep_view());
        }
        while i < stmts.len()
            invariant
                i <= stmts.len(),
                sv == stmts_view(stmts@),
                self.budget == old(self).budget,
                fuel == self.budget,
                deterministic(unit) || !run_all(unit, sv, 0, old(env)@, fuel as nat).asked ==> ({
                    let whole = run_all(unit, sv, 0, old(env)@, fuel as nat);
                    let rest = run_all(unit, sv, i as int, env@, fuel as nat);
                    &&& rest.asked ==> whole.asked
                    &&& whole.result == rest.result
                    &&& whole.env == rest.env
                    &&& old(self).output.deep_view() + whole.output == self.output.deep_view()
                        + rest.output
                    &&& old(self).notices.deep_view() + whole.notices == self.notices.deep_view()
                        + rest.notices
                }),
            decreases stmts.len() - i,
        {
            let ghost out = self.output.deep_view();
            let ghost notes = self.notices.deep_view();
            let ghost here = env@;
            let r = self.execute(&stmts[i], env, unit);
            proof {
                if deterministic(unit) || !run_all(unit, sv, 0, old(env)@, fuel as nat).asked {
                    let first = run(unit, sv[i as int], here, fuel as nat);
                    let rest = run_all(unit, sv, i as int, here, fuel as nat);
                    let next = run_all(unit, sv, i + 1, env@, fuel as nat);
                    assert(sv[i as int] == stmts[i as int]@);
                    if first.result is Ok {
                        assert(rest == after(first, next));
                        assert(self.output.deep_view() + next.output =~= out + rest.output);
                        assert(self.notices.deep_view() + next.notices =~= notes + rest.notices);
                    } else {
                        assert(rest == first);
                    }
                }
            }
            match r {
                Ok(_) => {},
                Err(d) => {
                    return Err(d);
                },
            }
            i += 1;
        }
        proof {
            if deterministic(unit) || !run_all(unit, sv, 0, old(env)@, fuel as nat).asked {
                let whole = run_all(unit, sv, 0, old(env)@, fuel as nat);
                assert(self.output.deep_view() + Seq::<Seq<char>>::empty() =~= self.output.deep_view());
                assert(self.notices.deep_view() + Seq::<DiagnosticView>::empty()
                    =~= self.notices.deep_view());
            }
        }
        Ok(())
    }

    /// Runs one statement.
    pub fn execute<U: FloatUnit>(&mut self, stmt: &Stmt, env: &mut Environment, unit: &U) -> (r: Result<
        (),
        Diagnostic,
    >)
        ensures
            final(self).budget == old(self).budget,
            deterministic(unit) || !run(unit, stmt@, old(env)@, old(self).budget as nat).asked ==> ({
                let ran = run(unit, stmt@, old(env)@, old(self).budget as nat);
                &&& done_view(r) == ran.result
                &&& final(env)@ == ran.env
                &&& final(self).follows(*old(self), ran)
            }),
        decreases stmt,
    {
        let fuel: u64 = self.budget;
        proof {
            assert(self.output.deep_view() + Seq::<Seq<char>>::empty() =~= self.output.deep_view());
            assert(self.notices.deep_view() + Seq::<DiagnosticView>::empty()
                =~= self.notices.deep_view());
        }
        match stmt {
            Stmt::Expression(e) => {
                match e.evaluate(env, unit, &mut self.notices) {
                    Ok(_) => Ok(()),
                    Err(d) => Err(d),
                }
            },
            Stmt::Print(e) => {
                match e.evaluate(env, unit, &mut self.notices) {
                    Ok(x) => {
                        let line = x.to_string(unit);
                        self.output.push(line);
                        proof {
                            if deterministic(unit) || !run(unit, stmt@, old(env)@, fuel as nat).asked {
                                assert(self.output.deep_view() =~= old(self).output.deep_view() + seq![
                                    value_text(unit, x@),
                                ]);
                            }
                        }
                        Ok(())
                    },
                    Err(d) => Err(d),
                }
            },
            Stmt::Variable { token, expression } => {
                match expression.evaluate(env, unit, &mut self.notices) {
                    Ok(x) => {
                        env.define(token.lexeme.clone(), x);
                        Ok(())
                    },
                    Err(d) => Err(d),
                }
            },
            Stmt::Block(v) => {
                let ghost sv = stmts_view(v@);
                proof {
                    assert(stmt@ == StmtView::Block(sv)) by {
                        assert(stmt@->Block_0 =~= sv);
                    }
                    assert(decreases_to!(stmt => v));
                }
                env.push_scope();
                let ghost start = env@;
                let mut i: usize = 0;
                while i < v.len()
                    invariant
                        i <= v.len(),
                        sv == stmts_view(v@),
                        decreases_to!(stmt => v),
                        self.budget == old(self).budget,
                        fuel == self.budget,
                        stmt@ == StmtView::Block(sv),
                        start == old(env)@.push(Map::empty()),
                        deterministic(unit) || !run_all(unit, sv, 0, start, fuel as nat).asked ==> ({
                            let whole = run_all(unit, sv, 0, start, fuel as nat);
                            let rest = run_all(unit, sv, i as int, env@, fuel as nat);
                            &&& rest.asked ==> whole.asked
                            &&& whole.result == rest.result
                            &&& whole.env == rest.env
                            &&& old(self).output.deep_view() + whole.output
                                == self.output.deep_view() + rest.output
                            &&& old(self).notices.deep_view() + whole.notices
                                == self.notices.deep_view() + rest.notices
                        }),
                    decreases v.len() - i,
                {
                    let ghost out = self.output.deep_view();
                    let ghost notes = self.notices.deep_view();
                    let ghost here = env@;
                    proof {
                        vstd::std_specs::vec::axiom_vec_index_decreases(*v, i as int);
                    }
                    let r = self.execute(&v[i], env, unit);
                    proof {
                        if deterministic(unit) || !run(unit, stmt@, old(env)@, fuel as nat).asked {
                            let first = run(unit, sv[i as int], here, fuel as nat);
                            let rest = run_all(unit, sv, i as int, here, fuel as nat);
                            let next = run_all(unit, sv, i + 1, env@, fuel as nat);
                            assert(sv[i as int] == v[i as int]@);
                            if first.result is Ok {
                                assert(rest == after(first, next));
                                assert(self.output.deep_view() + next.output =~= out + rest.output);
                                assert(self.notices.deep_view() + next.notices =~= notes
                                    + rest.notices);
                            } else {
                                assert(rest == first);
                            }
                        }
                    }
                    match r {
                        Ok(_) => {},
                        Err(d) => {
                            env.pop_scope();
                            return Err(d);
                        },
                    }
                    i += 1;
                }
                env.pop_scope();
                Ok(())
            },
            Stmt::If { condition, then_branch, else_branch } => {
                let c = match condition.evaluate(env, unit, &mut self.notices) {
                    Ok(c) => c,
                    Err(d) => {
                        return Err(d);
                    },
                };
                let r = match c {
                    LiteralValue::True => self.execute(then_branch, env, unit),
                    _ => match else_branch {
                        Some(b) => self.execute(b, env, unit),
                        None => Ok(()),
                    },
                };
                proof {
                    if deterministic(unit) || !run(unit, stmt@, old(env)@, fuel as nat).asked {
                        let ran = run(unit, stmt@, old(env)@, fuel as nat);
                        assert(self.output.deep_view() =~= old(self).output.deep_view() + ran.output);
                        assert(self.notices.deep_view() =~= old(self).notices.deep_view()
                            + ran.notices);
                    }
                }
                r
            },
            Stmt::While { expr, stmt: body } => {
                let mut left: u64 = fuel;
                loop
                    invariant
                        left <= fuel,
                        fuel == self.budget,
                        *stmt == (Stmt::While { expr: *expr, stmt: *body }),
                        decreases_to!(stmt => body),
                        self.budget == old(self).budget,
                        deterministic(unit) || !run(unit, stmt@, old(env)@, fuel as nat).asked ==> ({
                            let whole = run(unit, stmt@, old(env)@, fuel as nat);
                            let rest = run_loop(unit, stmt@, env@, left as nat, fuel as nat);
                            &&& rest.asked ==> whole.asked
                            &&& whole.result == rest.result
                            &&& whole.env == rest.env
                            &&& old(self).output.deep_view() + whole.output
                                == self.output.deep_view() + rest.output
                            &&& old(self).notices.deep_view() + whole.notices
                                == self.notices.deep_view() + rest.notices
                        }),
                    decreases left,
                {
                    let ghost out = self.output.deep_view();
                    let ghost notes = self.notices.deep_view();
                    let ghost here = env@;
                    let c = expr.evaluate(env, unit, &mut self.notices);
                    let ghost mid = env@;
                    let ghost notes_mid = self.notices.deep_view();
                    proof {
                        if deterministic(unit) || !run(unit, stmt@, old(env)@, fuel as nat).asked {
                            let v = eval(unit, expr@, here);
                            let rest = run_loop(unit, stmt@, here, left as nat, fuel as nat);
                            assert(notes_mid =~= notes + v.notices);
                            if !(v.result matches Ok(Value::True)) {
                                assert(rest == evaluated(v));
                                assert(self.output.deep_view() + rest.output =~= out);
                            }
                        }
                    }
                    match c {
                        Ok(LiteralValue::True) => {},
                        Ok(_) => {
                            return Ok(());
                        },
                        Err(d) => {
                            return Err(d);
                        },
                    }
                    if left == 0 {
                        proof {
                            if deterministic(unit) || !run(unit, stmt@, old(env)@, fuel as nat).asked {
                                let rest = run_loop(unit, stmt@, here, left as nat, fuel as nat);
                                assert(self.output.deep_view() + rest.output =~= out);
                            }
                        }
                        return Err(Diagnostic::new(0, Problem::IterationLimit));
                    }
                    left -= 1;
                    let r = self.execute(body, env, unit);
                    proof {
                        if deterministic(unit) || !run(unit, stmt@, old(env)@, fuel as nat).asked {
                            let v = eval(unit, expr@, here);
                            let rest = run_loop(unit, stmt@, here, (left + 1) as nat, fuel as nat);
                            let inner = run(unit, body@, mid, fuel as nat);
                            let round = after(evaluated(v), inner);
                            let next = run_loop(unit, stmt@, env@, left as nat, fuel as nat);
                            assert(self.output.deep_view() =~= out + round.output);
                            assert(self.notices.deep_view() =~= notes + round.notices);
                            if round.result is Ok {
                                assert(rest == after(round, next));
                                assert(self.output.deep_view() + next.output =~= out + rest.output);
                                assert(self.notices.deep_view() + next.notices =~= notes
                                    + rest.notices);
                            } else {
                                assert(rest == round);
                                assert(self.output.deep_view() =~= out + rest.output);
                            }
                        }
                    }
                    match r {
                        Ok(_) => {},
                        Err(d) => {
                            return Err(d);
                        },
                    }
                }
            },
        }
    }
}

/// A run ends early only in a fatal problem, and what it gives notice of is
/// never fatal.
pub proof fn run_sorts_problems<U: FloatUnit>(unit: &U, s: StmtView, env: Scopes, fuel: nat)
    ensures
        run(unit, s, env, fuel).result matches Err(d) ==> d.problem.is_fatal(),
        none_fatal(run(unit, s, env, fuel).notices),
    decreases s, fuel + 1,
{
    match s {
        StmtView::Expression(e) => {
            evaluation_sorts_problems(unit, e, env);
        },
        StmtView::Print(e) => {
            evaluation_sorts_problems(unit, e, env);
        },
        StmtView::Variable { token, expression } => {
            evaluation_sorts_problems(unit, expression, env);
        },
        StmtView::Block(stmts) => {
            run_all_sorts_problems(unit, stmts, 0, env.push(Map::empty()), fuel);
        },
        StmtView::If { condition, then_branch, else_branch } => {
            evaluation_sorts_problems(unit, condition, env);
            let v = eval(unit, condition, env);
            run_sorts_problems(unit, *then_branch, v.env, fuel);
            if else_branch is Some {
                run_sorts_problems(unit, *else_branch->0, v.env, fuel);
            }
        },
        StmtView::While { expr, stmt } => {
            loop_sorts_problems(unit, s, env, fuel, fuel);
        },
    }
}

proof fn loop_sorts_problems<U: FloatUnit>(unit: &U, s: StmtView, env: Scopes, left: nat, fuel: nat)
    ensures
        run_loop(unit, s, env, left, fuel).result matches Err(d) ==> d.problem.is_fatal(),
        none_fatal(run_loop(unit, s, env, left, fuel).notices),
    decreases s, left,
{
    if let StmtView::While { expr, stmt } = s {
        evaluation_sorts_problems(unit, expr, env);
        let v = eval(unit, expr, env);
        if left > 0 {
            run_sorts_problems(unit, *stmt, v.env, fuel);
            let body = after(evaluated(v), run(unit, *stmt, v.env, fuel));
            loop_sorts_problems(unit, s, body.env, (left - 1) as nat, fuel);
        }
    }
}

/// The same of a list of statements.
pub proof fn run_all_sorts_problems<U: FloatUnit>(
    unit: &U,
    stmts: Seq<StmtView>,
    from: int,
    env: Scopes,
    fuel: nat,
)
    ensures
        run_all(unit, stmts, from, env, fuel).result matches Err(d) ==> d.problem.is_fatal(),
        none_fatal(run_all(unit, stmts, from, env, fuel).notices),
    decreases stmts, stmts.len() - from,
{
    if 0 <= from < stmts.len() {
        run_sorts_problems(unit, stmts[from], env, fuel);
        let first = run(unit, stmts[from], env, fuel);
        if first.result is Ok {
            run_all_sorts_problems(unit, stmts, from + 1, first.env, fuel);
        }
    }
}

/// Two stacks of scopes of one height in which the scopes below `top`
/// bind the same names.
pub open spec fn same_names_below(a: Scopes, b: Scopes, top: int) -> bool {
    &&& a.len() == b.len()
    &&& forall|i: int| 0 <= i < top && i < a.len() ==> (#[trigger] a[i]).dom() == b[i].dom()
}

/// Two stacks of scopes of one height whose scopes bind the same names.
pub open spec fn same_names(a: Scopes, b: Scopes) -> bool {
    same_names_below(a, b, a.len() as int)
}

proof fn lemma_innermost_binds(env: Scopes, name: Seq<char>)
    ensures
        -1 <= innermost(env, name) < env.len(),
        innermost(env, name) >= 0 ==> env[innermost(env, name)].contains_key(name),
    decreases env.len(),
{
    if env.len() > 0 && !env.last().contains_key(name) {
        lemma_innermost_binds(env.drop_last(), name);
    }
}

/// Evaluation binds no name and frees none: it only gives names that are
/// bound other values.
pub proof fn evaluation_keeps_names<U: FloatUnit>(unit: &U, e: ExprView, env: Scopes)
    ensures
        same_names(eval(unit, e, env).env, env),
    decreases e,
{
    match e {
        ExprView::Literal { value } => {},
        ExprView::Grouping { expression } => {
            evaluation_keeps_names(unit, *expression, env);
        },
        ExprView::Variable { name } => {},
        ExprView::Assign { name, value } => {
            evaluation_keeps_names(unit, *value, env);
            let v = eval(unit, *value, env);
            lemma_innermost_binds(v.env, name.lexeme);
            let i = innermost(v.env, name.lexeme);
            if v.result is Ok && i >= 0 {
                let after = eval(unit, e, env).env;
                assert(after[i].dom() =~= v.env[i].dom());
                assert forall|j: int| 0 <= j < after.len() implies (#[trigger] after[j]).dom()
                    == env[j].dom() by {
                    assert(v.env[j].dom() == env[j].dom());
                }
            }
        },
        ExprView::Unary { operator, expression } => {
            evaluation_keeps_names(unit, *expression, env);
        },
        ExprView::Binary { left, operator, right } => {
            evaluation_keeps_names(unit, *left, env);
            let l = eval(unit, *left, env);
            evaluation_keeps_names(unit, *right, l.env);
            let r = eval(unit, *right, l.env);
            assert forall|j: int| 0 <= j < r.env.len() implies (#[trigger] r.env[j]).dom()
                == env[j].dom() by {
                assert(l.env[j].dom() == env[j].dom());
            }
        },
        ExprView::Logical { left, operator, right } => {
            evaluation_keeps_names(unit, *left, env);
            let l = eval(unit, *left, env);
            evaluation_keeps_names(unit, *right, l.env);
            let r = eval(unit, *right, l.env);
            assert forall|j: int| 0 <= j < r.env.len() implies (#[trigger] r.env[j]).dom()
                == env[j].dom() by {
                assert(l.env[j].dom() == env[j].dom());
            }
        },
    }
}

proof fn lemma_same_names_chain(a: Scopes, b: Scopes, c: Scopes, top: int)
    requires
        same_names_below(a, b, top),
        same_names_below(b, c, top),
    ensures
        same_names_below(a, c, top),
{
    assert forall|i: int| 0 <= i < top && i < a.len() implies (#[trigger] a[i]).dom() == c[i].dom() by {
        assert(b[i].dom() == c[i].dom());
    }
}

/// A statement leaves as many scopes as it found, and declares names in the
/// innermost only: the scopes around it bind the names that they bound
/// before. What a block declares is gone when the block ends: a block
/// leaves every scope with the names that it had.
pub proof fn run_keeps_names<U: FloatUnit>(unit: &U, s: StmtView, env: Scopes, fuel: nat)
    requires
        env.len() > 0,
    ensures
        same_names_below(run(unit, s, env, fuel).env, env, env.len() - 1),
        s is Block ==> same_names(run(unit, s, env, fuel).env, env),
    decreases s, fuel + 1,
{
    let top = env.len() - 1;
    match s {
        StmtView::Expression(e) => {
            evaluation_keeps_names(unit, e, env);
        },
        StmtView::Print(e) => {
            evaluation_keeps_names(unit, e, env);
        },
        StmtView::Variable { token, expression } => {
            evaluation_keeps_names(unit, expression, env);
            let v = eval(unit, expression, env);
            let after = run(unit, s, env, fuel).env;
            assert forall|i: int| 0 <= i < top implies (#[trigger] after[i]).dom() == env[i].dom() by {
                assert(v.env[i].dom() == env[i].dom());
            }
        },
        StmtView::Block(stmts) => {
            let inside = env.push(Map::empty());
            run_all_keeps_names(unit, stmts, 0, inside, fuel);
            let inner = run_all(unit, stmts, 0, inside, fuel);
            let after = closed_scope(inner.env);
            assert forall|i: int| 0 <= i < after.len() implies (#[trigger] after[i]).dom()
                == env[i].dom() by {
                assert(inner.env[i].dom() == inside[i].dom());
            }
        },
        StmtView::If { condition, then_branch, else_branch } => {
            evaluation_keeps_names(unit, condition, env);
            let v = eval(unit, condition, env);
            run_keeps_names(unit, *then_branch, v.env, fuel);
            lemma_same_names_chain(run(unit, *then_branch, v.env, fuel).env, v.env, env, top);
            if else_branch is Some {
                run_keeps_names(unit, *else_branch->0, v.env, fuel);
                lemma_same_names_chain(run(unit, *else_branch->0, v.env, fuel).env, v.env, env, top);
            }
        },
        StmtView::While { expr, stmt } => {
            loop_keeps_names(unit, s, env, fuel, fuel);
        },
    }
}

proof fn loop_keeps_names<U: FloatUnit>(unit: &U, s: StmtView, env: Scopes, left: nat, fuel: nat)
    requires
        env.len() > 0,
    ensures
        same_names_below(run_loop(unit, s, env, left, fuel).env, env, env.len() - 1),
    decreases s, left,
{
    let top = env.len() - 1;
    if let StmtView::While { expr, stmt } = s {
        evaluation_keeps_names(unit, expr, env);
        let v = eval(unit, expr, env);
        if left > 0 {
            run_keeps_names(unit, *stmt, v.env, fuel);
            let body = run(unit, *stmt, v.env, fuel);
            lemma_same_names_chain(body.env, v.env, env, top);
            loop_keeps_names(unit, s, body.env, (left - 1) as nat, fuel);
            lemma_same_names_chain(
                run_loop(unit, s, body.env, (left - 1) as nat, fuel).env,
                body.env,
                env,
                top,
            );
        }
    }
}

/// The same of a list of statements.
pub proof fn run_all_keeps_names<U: FloatUnit>(
    unit: &U,
    stmts: Seq<StmtView>,
    from: int,
    env: Scopes,
    fuel: nat,
)
    requires
        env.len() > 0,
    ensures
        same_names_below(run_all(unit, stmts, from, env, fuel).env, env, env.len() - 1),
    decreases stmts, stmts.len() - from,
{
    if 0 <= from < stmts.len() {
        run_keeps_names(unit, stmts[from], env, fuel);
        let first = run(unit, stmts[from], env, fuel);
        if first.result is Ok {
            run_all_keeps_names(unit, stmts, from + 1, first.env, fuel);
            lemma_same_names_chain(
                run_all(unit, stmts, from + 1, first.env, fuel).env,
                first.env,
                env,
                env.len() - 1,
            );
        }
    }
}

} // verus!
