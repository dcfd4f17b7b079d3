//! The evaluator: scopes, and the walk over the syntax tree.
//!
//! What evaluation yields is defined in [`crate::semantics`];
//! [`Interpreter::interpret`] computes exactly that.
use crate::parser::{expr_models, lemma_value_models_push, value_models, Expr, Value, ValueModel};
use crate::scanner::{Token, TokenType};
use crate::semantics::{
    assign_from, back_in, binary_op, bind_in, bool_op, bound, define_in, defining_scope, eval,
    eval_all, eval_assignment, eval_binary, eval_block, eval_builtin, eval_call,
    eval_declaration, eval_if, eval_loop, eval_unary, int_op, name_in, new_world, param_names,
    read_from, remainder, run, scopes_wf, text_op, unary_op, world_wf, Limits, Outcome,
    Outcomes, RuntimeError, ScopeModel, World,
};
use crate::printer::push_line;
use vstd::prelude::*;
use vstd::string::*;

verus! {

/// The texts of a sequence of strings, one for one.
pub open spec fn name_models(names: Seq<String>) -> Seq<Seq<char>> {
    Seq::new(names.len(), |i: int| names[i]@)
}

/// A name that no entry holds is not bound.
pub proof fn lemma_bound_absent(names: Seq<Seq<char>>, values: Seq<ValueModel>, name: Seq<char>)
    requires
        forall|j: int| 0 <= j < names.len() ==> names[j] != name,
    ensures
        !bound(names, values).dom().contains(name),
    decreases names.len(),
{
    if names.len() > 0 {
        assert forall|j: int| 0 <= j < names.drop_last().len() implies names.drop_last()[j]
            != name by {
            assert(names.drop_last()[j] == names[j]);
        }
        lemma_bound_absent(names.drop_last(), values.drop_last(), name);
    }
}

/// A name is bound to the value of the last entry that holds it.
pub proof fn lemma_bound_last(
    names: Seq<Seq<char>>,
    values: Seq<ValueModel>,
    name: Seq<char>,
    i: int,
)
    requires
        names.len() == values.len(),
        0 <= i < names.len(),
        names[i] == name,
        forall|j: int| i < j < names.len() ==> names[j] != name,
    ensures
        bound(names, values).dom().contains(name),
        bound(names, values)[name] == values[i],
    decreases names.len(),
{
    if i < names.len() - 1 {
        assert forall|j: int| i < j < names.drop_last().len() implies names.drop_last()[j]
            != name by {
            assert(names.drop_last()[j] == names[j]);
        }
        lemma_bound_last(names.drop_last(), values.drop_last(), name, i);
    }
}

/// To change the value of the last entry that holds a name is to bind the name anew.
pub proof fn lemma_bound_update(
    names: Seq<Seq<char>>,
    values: Seq<ValueModel>,
    name: Seq<char>,
    i: int,
    v: ValueModel,
)
    requires
        names.len() == values.len(),
        0 <= i < names.len(),
        names[i] == name,
        forall|j: int| i < j < names.len() ==> names[j] != name,
    ensures
        bound(names, values.update(i, v)) == bound(names, values).insert(name, v),
    decreases names.len(),
{
    let changed = values.update(i, v);
    if i < names.len() - 1 {
        assert forall|j: int| i < j < names.drop_last().len() implies names.drop_last()[j]
            != name by {
            assert(names.drop_last()[j] == names[j]);
        }
        lemma_bound_update(names.drop_last(), values.drop_last(), name, i, v);
        assert(changed.drop_last() =~= values.drop_last().update(i, v));
        assert(changed.last() == values.last());
        assert(bound(names, changed) =~= bound(names, values).insert(name, v));
    } else {
        assert(changed.drop_last() =~= values.drop_last());
        assert(bound(names, changed) =~= bound(names, values).insert(name, v));
    }
}

/// One scope: its names with their values, and the scope around it.
pub struct Scope {
    parent: Option<usize>,
    names: Vec<String>,
    values: Vec<Value>,
}

impl Scope {
    pub closed spec fn wf(&self) -> bool {
        self.names.len() == self.values.len()
    }

    pub closed spec fn model(&self) -> ScopeModel {
        ScopeModel {
            parent: self.parent,
            vars: bound(name_models(self.names@), value_models(self.values@)),
        }
    }

    /// The last entry that holds `name`.
    fn find(&self, name: &String) -> (r: Option<usize>)
        requires
            self.wf(),
        ensures
            match r {
                Some(i) => i < self.names.len() && self.names[i as int]@ == name@
                    && self.model().vars.dom().contains(name@) && self.model().vars[name@]
                    == self.values[i as int]@ && forall|j: int|
                    i < j < self.names.len() ==> self.names[j]@ != name@,
                None => !self.model().vars.dom().contains(name@),
            },
    {
        let mut i = self.names.len();
        while i > 0
            invariant
                self.wf(),
                i <= self.names.len(),
                forall|j: int| i <= j < self.names.len() ==> self.names[j]@ != name@,
            decreases i,
        {
            i -= 1;
            if self.names[i] == *name {
                proof {
                    lemma_bound_last(
                        name_models(self.names@),
                        value_models(self.values@),
                        name@,
                        i as int,
                    );
                }
                return Some(i);
            }
        }
        proof {
            lemma_bound_absent(name_models(self.names@), value_models(self.values@), name@);
        }
        None
    }

    /// Binds `name` to `value`.
    fn bind(&mut self, name: String, value: Value)
        requires
            old(self).wf(),
        ensures
            final(self).wf(),
            final(self).model() == (ScopeModel {
                parent: old(self).model().parent,
                vars: old(self).model().vars.insert(name@, value@),
            }),
    {
        match self.find(&name) {
            Some(i) => {
                proof {
                    lemma_bound_update(
                        name_models(self.names@),
                        value_models(self.values@),
                        name@,
                        i as int,
                        value@,
                    );
                    assert(value_models(self.values@.update(i as int, value)) =~= value_models(
                        self.values@,
                    ).update(i as int, value@));
                }
                self.values[i] = value;
            },
            None => {
                proof {
                    let names = name_models(self.names@.push(name));
                    let values = value_models(self.values@.push(value));
                    assert(names.drop_last() =~= name_models(self.names@));
                    assert(values.drop_last() =~= value_models(self.values@));
                }
                self.names.push(name);
                self.values.push(value);
            },
        }
    }
}

/// All the scopes that evaluation has made, each with the scope around it, and
/// the one in which evaluation stands. A function holds the index of the scope
/// it was made in; a scope is never removed, so the index stays good.
pub struct Environment {
    scopes: Vec<Scope>,
    current: usize,
}

impl Environment {
    /// The scopes, as contracts see them.
    pub closed spec fn scopes(&self) -> Seq<ScopeModel> {
        Seq::new(self.scopes@.len(), |i: int| self.scopes@[i].model())
    }

    /// The scope in which evaluation stands.
    pub closed spec fn current(&self) -> usize {
        self.current
    }

    /// The scopes form chains that end, see [`world_wf`].
    pub closed spec fn wf(&self) -> bool {
        &&& self.current < self.scopes.len()
        &&& forall|i: int| 0 <= i < self.scopes.len() ==> (#[trigger] self.scopes[i]).wf()
        &&& forall|i: int|
            0 <= i < self.scopes.len() ==> match (#[trigger] self.scopes[i]).parent {
                Some(p) => p < i,
                None => i == 0,
            }
    }

    /// Scopes that [`Environment::wf`] holds of are as [`scopes_wf`] says.
    pub proof fn lemma_wf(&self)
        requires
            self.wf(),
        ensures
            scopes_wf(self.scopes()),
            self.current() < self.scopes().len(),
    {
        assert forall|i: int| 0 <= i < self.scopes().len() implies match (
        #[trigger] self.scopes()[i]).parent {
            Some(p) => p < i,
            None => i == 0,
        } by {
            assert(self.scopes()[i].parent == self.scopes[i].parent);
        }
    }

    /// One empty scope, in which evaluation stands.
    pub fn new() -> (r: Self)
        ensures
            r.wf(),
            r.scopes() == new_world().scopes,
            r.current() == 0,
    {
        let mut scopes: Vec<Scope> = Vec::new();
        let root = Scope { parent: None, names: Vec::new(), values: Vec::new() };
        assert(name_models(root.names@) =~= Seq::empty());
        scopes.push(root);
        let r = Environment { scopes, current: 0 };
        assert(r.scopes() =~= new_world().scopes);
        r
    }

    /// The value of `identifier` in the nearest scope that defines it.
    pub fn get(&self, identifier: &str) -> (r: Option<Value>)
        requires
            self.wf(),
        ensures
            match read_from(self.scopes(), self.current(), identifier@) {
                Some(v) => r is Some && r->0@ == v,
                None => r is None,
            },
    {
        let key = String::from_str(identifier);
        match self.locate(&key) {
            Some((at, i)) => Some(self.scopes[at].values[i].clone()),
            None => None,
        }
    }

    /// The nearest scope that defines `name`, and the entry in it.
    fn locate(&self, name: &String) -> (r: Option<(usize, usize)>)
        requires
            self.wf(),
        ensures
            match r {
                Some((at, i)) => defining_scope(self.scopes(), self.current(), name@) == Some(at)
                    && at < self.scopes.len() && i < self.scopes[at as int].names.len()
                    && self.scopes[at as int].names[i as int]@ == name@ && self.scopes()[at as int].vars[name@]
                    == self.scopes[at as int].values[i as int]@ && forall|j: int|
                    i < j < self.scopes[at as int].names.len() ==> self.scopes[at as int].names[j]@
                        != name@,
                None => defining_scope(self.scopes(), self.current(), name@) is None,
            },
    {
        let mut at = self.current;
        loop
            invariant
                self.wf(),
                at < self.scopes.len(),
                defining_scope(self.scopes(), at, name@) == defining_scope(
                    self.scopes(),
                    self.current(),
                    name@,
                ),
            decreases at,
        {
            match self.scopes[at].find(name) {
                Some(i) => {
                    return Some((at, i));
                },
                None => match self.scopes[at].parent {
                    Some(p) => {
                        at = p;
                    },
                    None => {
                        return None;
                    },
                },
            }
        }
    }

    /// Binds `identifier` anew in the nearest scope that defines it, and tells
    /// whether there is one.
    pub fn set(&mut self, identifier: &str, value: Value) -> (r: bool)
        requires
            old(self).wf(),
        ensures
            final(self).wf(),
            final(self).current() == old(self).current(),
            final(self).scopes().len() == old(self).scopes().len(),
            match assign_from(old(self).scopes(), old(self).current(), identifier@, value@) {
                Some(scopes) => r && final(self).scopes() == scopes,
                None => !r && final(self).scopes() == old(self).scopes(),
            },
    {
        let key = String::from_str(identifier);
        match self.locate(&key) {
            Some((at, _)) => {
                self.bind_at(at, key, value);
                true
            },
            None => false,
        }
    }

    /// Binds `identifier` in the scope in which evaluation stands.
    pub fn define(&mut self, identifier: &str, value: Value)
        requires
            old(self).wf(),
        ensures
            final(self).wf(),
            final(self).current() == old(self).current(),
            final(self).scopes().len() == old(self).scopes().len(),
            final(self).scopes() == define_in(
                old(self).scopes(),
                old(self).current(),
                identifier@,
                value@,
            ),
    {
        let key = String::from_str(identifier);
        self.bind_at(self.current, key, value);
    }

    fn bind_at(&mut self, at: usize, name: String, value: Value)
        requires
            old(self).wf(),
            at < old(self).scopes.len(),
        ensures
            final(self).wf(),
            final(self).current() == old(self).current(),
            final(self).scopes.len() == old(self).scopes.len(),
            final(self).scopes() == bind_in(old(self).scopes(), at, name@, value@),
    {
        self.scopes[at].bind(name, value);
        assert(self.scopes() =~= bind_in(old(self).scopes(), at, name@, value@));
    }

    /// Makes a scope with the given entries inside `parent`, and enters it.
    fn enter(&mut self, parent: usize, names: Vec<String>, values: Vec<Value>)
        requires
            old(self).wf(),
            parent < old(self).scopes.len(),
            names.len() == values.len(),
        ensures
            final(self).wf(),
            final(self).scopes.len() == old(self).scopes.len() + 1,
            final(self).current() == old(self).scopes.len(),
            final(self).scopes() == old(self).scopes().push(
                ScopeModel {
                    parent: Some(parent),
                    vars: bound(name_models(names@), value_models(values@)),
                },
            ),
    {
        let at = self.scopes.len();
        self.scopes.push(Scope { parent: Some(parent), names, values });
        self.current = at;
        assert(self.scopes() =~= old(self).scopes().push(
            ScopeModel {
                parent: Some(parent),
                vars: bound(name_models(names@), value_models(values@)),
            },
        ));
    }

    /// Goes back to scope `to`.
    fn leave(&mut self, to: usize)
        requires
            old(self).wf(),
            to < old(self).scopes.len(),
        ensures
            final(self).wf(),
            final(self).scopes == old(self).scopes,
            final(self).current() == to,
    {
        self.current = to;
    }
}

impl Default for Environment {
    fn default() -> (r: Self)
        ensures
            r.wf(),
            r.scopes() == new_world().scopes,
            r.current() == 0,
    {
        Self::new()
    }
}

// ---------------------------------------------------------------------------
// Operators
// ---------------------------------------------------------------------------

/// An integer result of arithmetic, if `checked` holds one.
fn int_value(checked: Option<i32>) -> (r: Result<Value, RuntimeError>)
    ensures
        match checked {
            Some(n) => r is Ok && r->Ok_0@ == ValueModel::Int(n),
            None => r == Err::<Value, RuntimeError>(RuntimeError::Overflow),
        },
{
    match checked {
        Some(n) => Ok(Value::Int(n)),
        None => Err(RuntimeError::Overflow),
    }
}

fn bool_value(b: bool) -> (r: Result<Value, RuntimeError>)
    ensures
        r is Ok && r->Ok_0@ == ValueModel::Bool(b),
{
    Ok(Value::Bool(b))
}

/// What `op` makes of two integers, see [`int_op`].
pub fn apply_int(op: &TokenType, a: i32, b: i32) -> (r: Result<Value, RuntimeError>)
    ensures
        match int_op(op@, a as int, b as int) {
            Ok(v) => r is Ok && r->Ok_0@ == v,
            Err(e) => r == Err::<Value, RuntimeError>(e),
        },
{
    match op {
        TokenType::Minus => int_value(a.checked_sub(b)),
        TokenType::Plus => int_value(a.checked_add(b)),
        TokenType::Star => int_value(a.checked_mul(b)),
        TokenType::Mod => {
            if b == 0 {
                Err(RuntimeError::DivisionByZero)
            } else if b == -1 {
                assert(remainder(a as int, -1) == 0);
                Ok(Value::Int(0))
            } else {
                int_value(a.checked_rem(b))
            }
        },
        TokenType::SlashSlash => {
            if b == 0 {
                Err(RuntimeError::DivisionByZero)
            } else {
                int_value(a.checked_div(b))
            }
        },
        TokenType::Greater => bool_value(a > b),
        TokenType::GreaterEqual => bool_value(a >= b),
        TokenType::Less => bool_value(a < b),
        TokenType::LessEqual => bool_value(a <= b),
        TokenType::EqualEqual => bool_value(a == b),
        TokenType::BangEqual => bool_value(a != b),
        _ => Err(RuntimeError::TypeMismatch),
    }
}

/// What `op` makes of two booleans, see [`bool_op`].
pub fn apply_bool(op: &TokenType, a: bool, b: bool) -> (r: Result<Value, RuntimeError>)
    ensures
        match bool_op(op@, a, b) {
            Ok(v) => r is Ok && r->Ok_0@ == v,
            Err(e) => r == Err::<Value, RuntimeError>(e),
        },
{
    match op {
        TokenType::AndAnd => bool_value(a && b),
        TokenType::OrOr => bool_value(a || b),
        TokenType::EqualEqual => bool_value(a == b),
        TokenType::BangEqual => bool_value(a != b),
        _ => Err(RuntimeError::TypeMismatch),
    }
}

/// What `op` makes of two strings, see [`text_op`].
pub fn apply_text(op: &TokenType, a: &String, b: &String) -> (r: Result<Value, RuntimeError>)
    ensures
        match text_op(op@, a@, b@) {
            Ok(v) => r is Ok && r->Ok_0@ == v,
            Err(e) => r == Err::<Value, RuntimeError>(e),
        },
{
    match op {
        TokenType::EqualEqual => bool_value(*a == *b),
        TokenType::BangEqual => bool_value(!(*a == *b)),
        _ => Err(RuntimeError::TypeMismatch),
    }
}

/// What the binary operator `op` makes of two values, see [`binary_op`].
pub fn apply_binary(op: &TokenType, lhs: &Value, rhs: &Value) -> (r: Result<Value, RuntimeError>)
    ensures
        match binary_op(op@, lhs@, rhs@) {
            Ok(v) => r is Ok && r->Ok_0@ == v,
            Err(e) => r == Err::<Value, RuntimeError>(e),
        },
{
    match (lhs, rhs) {
        (Value::Int(a), Value::Int(b)) => apply_int(op, *a, *b),
        (Value::Bool(a), Value::Bool(b)) => apply_bool(op, *a, *b),
        (Value::String(a), Value::String(b)) => apply_text(op, a, b),
        _ => Err(RuntimeError::TypeMismatch),
    }
}

/// What the unary operator `op` makes of a value, see [`unary_op`].
pub fn apply_unary(op: &TokenType, value: &Value) -> (r: Result<Value, RuntimeError>)
    ensures
        match unary_op(op@, value@) {
            Ok(v) => r is Ok && r->Ok_0@ == v,
            Err(e) => r == Err::<Value, RuntimeError>(e),
        },
{
    match (op, value) {
        (TokenType::Minus, Value::Int(x)) => int_value(0i32.checked_sub(*x)),
        (TokenType::Bang, Value::Bool(x)) => bool_value(!*x),
        _ => Err(RuntimeError::TypeMismatch),
    }
}

/// The name that the expression is, if it is a bare name.
pub fn name_of_expr(e: &Expr) -> (r: Option<String>)
    ensures
        match name_in(e@) {
            Some(name) => r is Some && r->0@ == name,
            None => r is None,
        },
{
    match e {
        Expr::Literal(v) => {
            assert(e@ == crate::parser::ExprModel::Literal(v@));
            match v {
                Value::Identifier(name) => Some(name.clone()),
                _ => None,
            }
        },
        _ => None,
    }
}

/// The names of the parameters, if each of them is a bare name.
pub fn parameter_names(params: &Vec<Expr>) -> (r: Option<Vec<String>>)
    ensures
        match param_names(expr_models(params@)) {
            Some(names) => r is Some && name_models(r->0@) == names,
            None => r is None,
        },
{
    let mut names: Vec<String> = Vec::new();
    let mut i: usize = 0;
    let ghost models = expr_models(params@);
    while i < params.len()
        invariant
            i <= params.len(),
            models == expr_models(params@),
            names.len() == i,
            forall|j: int| 0 <= j < i ==> name_in(#[trigger] models[j]) == Some(names[j]@),
        decreases params.len() - i,
    {
        match name_of_expr(&params[i]) {
            Some(name) => {
                names.push(name);
            },
            None => {
                assert(name_in(models[i as int]) is None);
                return None;
            },
        }
        i += 1;
    }
    assert(name_models(names@) =~= param_names(models)->0);
    Some(names)
}

// ---------------------------------------------------------------------------
// The interpreter
// ---------------------------------------------------------------------------

/// How deep expressions may be nested and calls stacked, unless
/// [`Interpreter::with_limits`] says otherwise.
pub const DEFAULT_DEPTH: usize = 400;

/// How often one loop may run its body, unless [`Interpreter::with_limits`]
/// says otherwise.
pub const DEFAULT_TURNS: usize = 1000000;

/// Evaluates syntax trees. It keeps the scopes and collects what `print` writes.
pub struct Interpreter {
    environment: Environment,
    output: String,
    max_depth: usize,
    max_turns: usize,
}

impl View for Interpreter {
    type V = World;

    closed spec fn view(&self) -> World {
        World {
            scopes: self.environment.scopes(),
            current: self.environment.current(),
            output: self.output@,
        }
    }
}

impl Interpreter {
    /// The limits that evaluation stops at.
    pub closed spec fn limits(&self) -> Limits {
        Limits { depth: self.max_depth as nat, turns: self.max_turns as nat }
    }

    /// The scopes form chains that end, see [`world_wf`].
    pub closed spec fn wf(&self) -> bool {
        self.environment.wf()
    }

    /// A world that [`Interpreter::wf`] holds of is as [`world_wf`] says.
    pub proof fn lemma_wf(&self)
        requires
            self.wf(),
        ensures
            world_wf(self@),
    {
        self.environment.lemma_wf();
    }

    /// Whether `self` is what evaluation leaves that started from `before`
    /// and has `outcome`: the same limits, the world of the outcome, in which no
    /// scope is missing that was there before, and its value or error as result.
    pub closed spec fn evaluated(
        &self,
        before: &Interpreter,
        r: Result<Value, RuntimeError>,
        outcome: Outcome,
    ) -> bool {
        &&& self.wf()
        &&& self.max_depth == before.max_depth
        &&& self.max_turns == before.max_turns
        &&& self@ == outcome.1
        &&& self.environment.scopes.len() >= before.environment.scopes.len()
        &&& match outcome.0 {
            Ok(v) => r is Ok && r->Ok_0@ == v,
            Err(e) => r == Err::<Value, RuntimeError>(e),
        }
    }

    /// [`Interpreter::evaluated`], for an outcome of several values.
    pub closed spec fn evaluated_all(
        &self,
        before: &Interpreter,
        r: Result<Vec<Value>, RuntimeError>,
        outcome: Outcomes,
    ) -> bool {
        &&& self.wf()
        &&& self.max_depth == before.max_depth
        &&& self.max_turns == before.max_turns
        &&& self@ == outcome.1
        &&& self.environment.scopes.len() >= before.environment.scopes.len()
        &&& match outcome.0 {
            Ok(v) => r is Ok && value_models(r->Ok_0@) == v,
            Err(e) => r == Err::<Vec<Value>, RuntimeError>(e),
        }
    }

    /// An interpreter in the new world, with the default limits.
    pub fn new() -> (r: Self)
        ensures
            r.wf(),
            r@ == new_world(),
            r.limits() == (Limits { depth: DEFAULT_DEPTH as nat, turns: DEFAULT_TURNS as nat }),
    {
        Self::with_limits(DEFAULT_DEPTH, DEFAULT_TURNS)
    }

    /// An interpreter in the new world, with the given limits.
    pub fn with_limits(depth: usize, turns: usize) -> (r: Self)
        ensures
            r.wf(),
            r@ == new_world(),
            r.limits() == (Limits { depth: depth as nat, turns: turns as nat }),
    {
        Interpreter {
            environment: Environment::new(),
            output: String::new(),
            max_depth: depth,
            max_turns: turns,
        }
    }

    /// What `print` has written so far.
    pub fn output(&self) -> (r: &String)
        ensures
            r@ == self@.output,
    {
        &self.output
    }

    /// Goes back to the outermost scope, from wherever an error has left evaluation.
    pub fn reset_scope(&mut self)
        requires
            old(self).wf(),
        ensures
            final(self).wf(),
            final(self).limits() == old(self).limits(),
            final(self)@ == back_in(old(self)@, 0),
    {
        self.environment.leave(0);
    }

    /// Evaluates the statements one after the other: the values and the world
    /// of [`run`], or its error. There is one value for each statement.
    pub fn interpret(&mut self, exprs: Vec<Expr>) -> (r: Result<Vec<Value>, RuntimeError>)
        requires
            old(self).wf(),
        ensures
            final(self).wf(),
            final(self).limits() == old(self).limits(),
            r is Ok ==> r->Ok_0.len() == exprs.len(),
            final(self)@ == run(expr_models(exprs@), old(self)@, old(self).limits()).1,
            match run(expr_models(exprs@), old(self)@, old(self).limits()).0 {
                Ok(values) => r is Ok && value_models(r->Ok_0@) == values,
                Err(e) => r == Err::<Vec<Value>, RuntimeError>(e),
            },
    {
        self.interpret_list(&exprs, self.max_depth)
    }

    /// Evaluates one expression: the value and the world of [`eval`], or its error.
    pub fn interpret_expr(&mut self, expr: &Expr) -> (r: Result<Value, RuntimeError>)
        requires
            old(self).wf(),
        ensures
            final(self).wf(),
            final(self).limits() == old(self).limits(),
            final(self)@ == eval(
                expr@,
                old(self)@,
                old(self).limits().depth,
                old(self).limits().turns,
            ).1,
            match eval(expr@, old(self)@, old(self).limits().depth, old(self).limits().turns).0 {
                Ok(v) => r is Ok && r->Ok_0@ == v,
                Err(e) => r == Err::<Value, RuntimeError>(e),
            },
    {
        self.interpret_node(expr, self.max_depth)
    }

    /// Evaluates the expressions one after the other, see [`eval_all`].
    fn interpret_list(&mut self, exprs: &Vec<Expr>, depth: usize) -> (r: Result<
        Vec<Value>,
        RuntimeError,
    >)
        requires
            old(self).wf(),
        ensures
            final(self).evaluated_all(
                old(self),
                r,
                eval_all(
                    expr_models(exprs@),
                    0,
                    Seq::empty(),
                    old(self)@,
                    depth as nat,
                    old(self).max_turns as nat,
                ),
            ),
            r is Ok ==> r->Ok_0.len() == exprs.len(),
        decreases depth, 1nat, exprs.len(),
    {
        reveal(eval_all);
        reveal(eval);
        let mut done: Vec<Value> = Vec::new();
        let mut i: usize = 0;
        let ghost models = expr_models(exprs@);
        assert(value_models(done@) =~= Seq::empty());
        while i < exprs.len()
            invariant
                self.wf(),
                self.max_depth == old(self).max_depth,
                self.max_turns == old(self).max_turns,
                self.environment.scopes.len() >= old(self).environment.scopes.len(),
                i <= exprs.len(),
                done.len() == i,
                models == expr_models(exprs@),
                eval_all(
                    models,
                    i as int,
                    value_models(done@),
                    self@,
                    depth as nat,
                    self.max_turns as nat,
                ) == eval_all(
                    models,
                    0,
                    Seq::empty(),
                    old(self)@,
                    depth as nat,
                    old(self).max_turns as nat,
                ),
            decreases exprs.len() - i,
        {
            reveal(eval_all);
            reveal(eval);
            let ghost before = done@;
            match self.interpret_node(&exprs[i], depth) {
                Err(e) => {
                    return Err(e);
                },
                Ok(v) => {
                    proof {
                        lemma_value_models_push(before, v);
                    }
                    done.push(v);
                },
            }
            i += 1;
        }
        Ok(done)
    }

    /// Evaluates one expression, see [`eval`].
    fn interpret_node(&mut self, expr: &Expr, depth: usize) -> (r: Result<Value, RuntimeError>)
        requires
            old(self).wf(),
        ensures
            final(self).evaluated(
                old(self),
                r,
                eval(expr@, old(self)@, depth as nat, old(self).max_turns as nat),
            ),
        decreases depth, 0nat, 0nat,
    {
        reveal(eval);
        reveal(eval_binary);
        reveal(eval_unary);
        reveal(eval_declaration);
        reveal(eval_assignment);
        reveal(eval_loop);
        reveal(eval_block);
        reveal(eval_if);
        reveal(eval_call);
        if depth == 0 {
            return Err(RuntimeError::TooDeep);
        }
        let d = depth - 1;
        match expr {
            Expr::Literal(value) => {
                assert(expr@ == crate::parser::ExprModel::Literal(value@));
                match value {
                    Value::Identifier(name) => match self.environment.get(name.as_str()) {
                        Some(v) => Ok(v),
                        None => Err(RuntimeError::UndefinedVariable),
                    },
                    _ => Ok(value.clone()),
                }
            },
            Expr::Group(e) => self.interpret_node(e, d),
            Expr::Binary(lhs, op, rhs) => self.interpret_binary(lhs, op, rhs, d),
            Expr::Unary(op, e) => self.interpret_unary(op, e, d),
            Expr::Declaration(lhs, init) => self.interpret_decl(lhs, init, d),
            Expr::Assignment(lhs, value) => self.interpret_assignment(lhs, value, d),
            Expr::While(cond, body) => self.interpret_while(cond, body, d),
            Expr::Block(exprs) => self.interpret_block(exprs, d),
            Expr::If(cond, true_branch, false_branch) => self.interpret_if(
                cond,
                true_branch,
                false_branch,
                d,
            ),
            Expr::FunctionCall(id, args) => self.interpret_call(id, args, d),
            Expr::Lambda(params, body) => {
                let v = Value::Lambda(
                    crate::parser::clone_exprs(params),
                    crate::parser::clone_exprs(body),
                    self.environment.current,
                );
                Ok(v)
            },
            Expr::Get(_, _) => Err(RuntimeError::Unsupported),
            Expr::BuiltinFunction(_) => Err(RuntimeError::Unsupported),
        }
    }

    /// Evaluates the statements of a block in a scope of their own, see [`eval_block`].
    fn interpret_block(&mut self, stmts: &Vec<Expr>, depth: usize) -> (r: Result<
        Value,
        RuntimeError,
    >)
        requires
            old(self).wf(),
        ensures
            final(self).evaluated(
                old(self),
                r,
                eval_block(
                    expr_models(stmts@),
                    old(self)@,
                    depth as nat,
                    old(self).max_turns as nat,
                ),
            ),
        decreases depth, 2nat, 0nat,
    {
        reveal(eval_block);
        reveal(eval_all);
        let outer = self.environment.current;
        let names: Vec<String> = Vec::new();
        let values: Vec<Value> = Vec::new();
        assert(name_models(names@) =~= Seq::empty());
        self.environment.enter(outer, names, values);
        match self.interpret_list(stmts, depth) {
            Err(e) => Err(e),
            Ok(_) => {
                self.environment.leave(outer);
                Ok(Value::Bool(false))
            },
        }
    }

    /// Evaluates a call, see [`eval_call`].
    fn interpret_call(&mut self, id: &Expr, args: &Vec<Expr>, depth: usize) -> (r: Result<
        Value,
        RuntimeError,
    >)
        requires
            old(self).wf(),
        ensures
            final(self).evaluated(
                old(self),
                r,
                eval_call(
                    id@,
                    expr_models(args@),
                    old(self)@,
                    depth as nat,
                    old(self).max_turns as nat,
                ),
            ),
        decreases depth, 3nat, 0nat,
    {
        reveal(eval_call);
        reveal(eval_builtin);
        reveal(eval);
        reveal(eval_all);
        if let Expr::BuiltinFunction(builtin) = id {
            return self.interpret_builtin(builtin, args, depth);
        }
        let func = match self.interpret_node(id, depth) {
            Err(e) => {
                return Err(e);
            },
            Ok(v) => v,
        };
        let (params, body, scope) = match func {
            Value::Lambda(params, body, scope) => (params, body, scope),
            _ => {
                return Err(RuntimeError::NotAFunction);
            },
        };
        let values = match self.interpret_list(args, depth) {
            Err(e) => {
                return Err(e);
            },
            Ok(values) => values,
        };
        let caller = self.environment.current;
        if body.len() == 0 {
            return Err(RuntimeError::EmptyFunctionBody);
        }
        if params.len() != values.len() {
            return Err(RuntimeError::ArityMismatch);
        }
        let names = match parameter_names(&params) {
            None => {
                return Err(RuntimeError::InvalidParameter);
            },
            Some(names) => names,
        };
        if scope >= self.environment.scopes.len() {
            return Err(RuntimeError::DanglingScope);
        }
        self.environment.enter(scope, names, values);
        match self.interpret_list(&body, depth) {
            Err(e) => Err(e),
            Ok(results) => {
                self.environment.leave(caller);
                let mut results = results;
                let ghost all = results@;
                match results.pop() {
                    Some(v) => {
                        assert(value_models(all).last() == v@);
                        Ok(v)
                    },
                    None => Err(RuntimeError::EmptyFunctionBody),
                }
            },
        }
    }

    /// Evaluates an assignment, see [`eval_assignment`].
    fn interpret_assignment(&mut self, lhs: &Expr, value: &Expr, depth: usize) -> (r: Result<
        Value,
        RuntimeError,
    >)
        requires
            old(self).wf(),
        ensures
            final(self).evaluated(
                old(self),
                r,
                eval_assignment(
                    lhs@,
                    value@,
                    old(self)@,
                    depth as nat,
                    old(self).max_turns as nat,
                ),
            ),
        decreases depth, 2nat, 0nat,
    {
        reveal(eval_assignment);
        reveal(eval);
        let identifier = match name_of_expr(lhs) {
            None => {
                return Err(RuntimeError::InvalidTarget);
            },
            Some(name) => name,
        };
        let value = match self.interpret_node(value, depth) {
            Err(e) => {
                return Err(e);
            },
            Ok(v) => v,
        };
        if self.environment.set(identifier.as_str(), value.clone()) {
            Ok(value)
        } else {
            Err(RuntimeError::AssignUndefined)
        }
    }

    /// Evaluates a call of a builtin, see [`eval_builtin`].
    fn interpret_builtin(&mut self, token: &Token, args: &Vec<Expr>, depth: usize) -> (r: Result<
        Value,
        RuntimeError,
    >)
        requires
            old(self).wf(),
        ensures
            final(self).evaluated(
                old(self),
                r,
                eval_builtin(
                    token@,
                    expr_models(args@),
                    old(self)@,
                    depth as nat,
                    old(self).max_turns as nat,
                ),
            ),
        decreases depth, 2nat, 0nat,
    {
        reveal(eval_builtin);
        reveal(eval_all);
        match token.token_type {
            TokenType::Print => {},
            _ => {
                return Err(RuntimeError::UnknownBuiltin);
            },
        }
        let values = match self.interpret_list(args, depth) {
            Err(e) => {
                return Err(e);
            },
            Ok(values) => values,
        };
        push_line(&mut self.output, &values);
        let mut values = values;
        let ghost all = values@;
        match values.pop() {
            Some(v) => {
                assert(value_models(all).last() == v@);
                Ok(v)
            },
            None => Ok(Value::Bool(false)),
        }
    }

    /// Evaluates an `if`, see [`eval_if`].
    fn interpret_if(
        &mut self,
        cond: &Expr,
        true_branch: &Expr,
        false_branch: &Option<Box<Expr>>,
        depth: usize,
    ) -> (r: Result<Value, RuntimeError>)
        requires
            old(self).wf(),
        ensures
            final(self).evaluated(
                old(self),
                r,
                eval_if(
                    cond@,
                    true_branch@,
                    match *false_branch {
                        Some(e) => Some(Box::new(e@)),
                        None => None,
                    },
                    old(self)@,
                    depth as nat,
                    old(self).max_turns as nat,
                ),
            ),
        decreases depth, 2nat, 0nat,
    {
        reveal(eval_if);
        reveal(eval);
        let cond = match self.interpret_node(cond, depth) {
            Err(e) => {
                return Err(e);
            },
            Ok(v) => v,
        };
        match cond {
            Value::Bool(true) => self.interpret_node(true_branch, depth),
            Value::Bool(false) => match false_branch {
                Some(e) => self.interpret_node(e, depth),
                None => Err(RuntimeError::MissingElse),
            },
            _ => Err(RuntimeError::TypeMismatch),
        }
    }

    /// Evaluates a loop, see [`eval_loop`].
    fn interpret_while(&mut self, cond: &Expr, body: &Expr, depth: usize) -> (r: Result<
        Value,
        RuntimeError,
    >)
        requires
            old(self).wf(),
        ensures
            final(self).evaluated(
                old(self),
                r,
                eval_loop(
                    cond@,
                    body@,
                    old(self)@,
                    depth as nat,
                    old(self).max_turns as nat,
                    old(self).max_turns as nat,
                ),
            ),
        decreases depth, 1nat, old(self).max_turns,
    {
        reveal(eval_loop);
        reveal(eval);
        let mut left = self.max_turns;
        loop
            invariant
                self.wf(),
                self.max_depth == old(self).max_depth,
                self.max_turns == old(self).max_turns,
                self.environment.scopes.len() >= old(self).environment.scopes.len(),
                eval_loop(
                    cond@,
                    body@,
                    self@,
                    depth as nat,
                    left as nat,
                    self.max_turns as nat,
                ) == eval_loop(
                    cond@,
                    body@,
                    old(self)@,
                    depth as nat,
                    old(self).max_turns as nat,
                    old(self).max_turns as nat,
                ),
            decreases left,
        {
            reveal(eval_loop);
            reveal(eval);
            let val = match self.interpret_node(cond, depth) {
                Err(e) => {
                    return Err(e);
                },
                Ok(v) => v,
            };
            match val {
                Value::Bool(true) => {
                    if left == 0 {
                        return Err(RuntimeError::LoopLimit);
                    }
                    match self.interpret_node(body, depth) {
                        Err(e) => {
                            return Err(e);
                        },
                        Ok(_) => {},
                    }
                    left -= 1;
                },
                Value::Bool(false) => {
                    return Ok(Value::Bool(false));
                },
                _ => {
                    return Err(RuntimeError::TypeMismatch);
                },
            }
        }
    }

    /// Evaluates a declaration, see [`eval_declaration`].
    fn interpret_decl(&mut self, lhs: &Expr, init: &Option<Box<Expr>>, depth: usize) -> (r: Result<
        Value,
        RuntimeError,
    >)
        requires
            old(self).wf(),
        ensures
            final(self).evaluated(
                old(self),
                r,
                eval_declaration(
                    lhs@,
                    match *init {
                        Some(e) => Some(Box::new(e@)),
                        None => None,
                    },
                    old(self)@,
                    depth as nat,
                    old(self).max_turns as nat,
                ),
            ),
        decreases depth, 2nat, 0nat,
    {
        reveal(eval_declaration);
        reveal(eval);
        let identifier = match name_of_expr(lhs) {
            None => {
                return Err(RuntimeError::InvalidTarget);
            },
            Some(name) => name,
        };
        let init = match init {
            None => {
                return Err(RuntimeError::MissingInitializer);
            },
            Some(e) => match self.interpret_node(e, depth) {
                Err(e) => {
                    return Err(e);
                },
                Ok(v) => v,
            },
        };
        self.environment.define(identifier.as_str(), init.clone());
        Ok(init)
    }

    /// Evaluates a unary operation, see [`eval_unary`].
    fn interpret_unary(&mut self, op: &Token, e: &Expr, depth: usize) -> (r: Result<
        Value,
        RuntimeError,
    >)
        requires
            old(self).wf(),
        ensures
            final(self).evaluated(
                old(self),
                r,
                eval_unary(op@, e@, old(self)@, depth as nat, old(self).max_turns as nat),
            ),
        decreases depth, 2nat, 0nat,
    {
        reveal(eval_unary);
        reveal(eval);
        let value = match self.interpret_node(e, depth) {
            Err(e) => {
                return Err(e);
            },
            Ok(v) => v,
        };
        apply_unary(&op.token_type, &value)
    }

    /// Evaluates a binary operation, see [`eval_binary`].
    fn interpret_binary(&mut self, lhs: &Expr, op: &Token, rhs: &Expr, depth: usize) -> (r: Result<
        Value,
        RuntimeError,
    >)
        requires
            old(self).wf(),
        ensures
            final(self).evaluated(
                old(self),
                r,
                eval_binary(
                    lhs@,
                    op@,
                    rhs@,
                    old(self)@,
                    depth as nat,
                    old(self).max_turns as nat,
                ),
            ),
        decreases depth, 2nat, 0nat,
    {
        reveal(eval_binary);
        reveal(eval);
        let lhs = match self.interpret_node(lhs, depth) {
            Err(e) => {
                return Err(e);
            },
            Ok(v) => v,
        };
        let rhs = match self.interpret_node(rhs, depth) {
            Err(e) => {
                return Err(e);
            },
            Ok(v) => v,
        };
        apply_binary(&op.token_type, &lhs, &rhs)
    }
}

impl Default for Interpreter {
    fn default() -> (r: Self)
        ensures
            r.wf(),
            r@ == new_world(),
    {
        Self::new()
    }
}

} // verus!
