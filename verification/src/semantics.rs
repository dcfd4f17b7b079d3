//! What a program means: the value of each expression, and what evaluating it
//! does to the scopes and to the output, as functions on models.
//!
//! Integers have 32 bits; arithmetic that leaves their range fails, it does
//! not wrap. `//` rounds towards zero, and `%` has the sign of its left
//! operand. `&&` and `||` evaluate both operands. A condition that is no
//! boolean is an error. Evaluation stops with an error at a limit on nesting
//! and at a limit on the turns of one loop, see [`Limits`].
//!
//! The functions of evaluation call each other in a circle and are opaque, to
//! keep proofs about them small: a proof reveals the one it unfolds, and those
//! that it calls.
use crate::parser::{ExprModel, ValueModel};
use crate::scanner::{Lexeme, TokenModel, TokenType};
use vstd::prelude::*;

verus! {

/// Why evaluation stopped.
#[derive(Clone, Copy, Debug, PartialEq, Eq)]
pub enum RuntimeError {
    /// A name was read that no scope in reach defines.
    UndefinedVariable,
    /// A name was assigned to that no scope in reach defines.
    AssignUndefined,
    /// An operator met operands it is not for, or a condition is no boolean.
    TypeMismatch,
    /// A value was called that is no function.
    NotAFunction,
    /// A builtin other than `print` was called.
    UnknownBuiltin,
    /// The condition of an `if` without `else` was false.
    MissingElse,
    /// A function without statements was called.
    EmptyFunctionBody,
    /// The target of a declaration or an assignment is no name.
    InvalidTarget,
    /// A declaration has no initial value.
    MissingInitializer,
    /// A parameter of a called function is no name.
    InvalidParameter,
    /// A function was called with more or fewer arguments than it has parameters.
    ArityMismatch,
    /// The result of `+`, `-`, `*`, `//` or unary `-` does not fit in 32 bits.
    Overflow,
    /// The right operand of `//` or `%` is zero.
    DivisionByZero,
    /// A field access, or a builtin that is not called, was evaluated.
    Unsupported,
    /// A function was called whose scope does not exist.
    DanglingScope,
    /// Expressions are nested, or calls are stacked, deeper than the limit.
    TooDeep,
    /// A loop has run more often than the limit.
    LoopLimit,
}

// ---------------------------------------------------------------------------
// Scopes
// ---------------------------------------------------------------------------

/// One scope: the names it defines, and the scope around it.
pub struct ScopeModel {
    pub parent: Option<usize>,
    pub vars: Map<Seq<char>, ValueModel>,
}

/// Everything that evaluation reads and changes: all scopes ever made, the
/// scope in which evaluation stands, and the text printed so far.
pub struct World {
    pub scopes: Seq<ScopeModel>,
    pub current: usize,
    pub output: Seq<char>,
}

/// The first scope is the outermost and has no scope around it; every other
/// scope lies inside a scope made before it. So every chain of parents ends,
/// and ends in the first scope.
pub open spec fn scopes_wf(scopes: Seq<ScopeModel>) -> bool {
    forall|i: int|
        0 <= i < scopes.len() ==> match (#[trigger] scopes[i]).parent {
            Some(p) => p < i,
            None => i == 0,
        }
}

/// The scopes are as [`scopes_wf`] says, and `current` is one of them.
pub open spec fn world_wf(w: World) -> bool {
    &&& w.current < w.scopes.len()
    &&& scopes_wf(w.scopes)
}

/// The world before anything is evaluated: one empty scope, no output.
pub open spec fn new_world() -> World {
    World {
        scopes: seq![ScopeModel { parent: None, vars: Map::empty() }],
        current: 0,
        output: Seq::empty(),
    }
}

/// The nearest scope that defines `name`, going from scope `from` outwards.
pub open spec fn defining_scope(scopes: Seq<ScopeModel>, from: usize, name: Seq<char>) -> Option<
    usize,
>
    decreases from,
{
    if from >= scopes.len() {
        None
    } else if scopes[from as int].vars.dom().contains(name) {
        Some(from)
    } else {
        match scopes[from as int].parent {
            Some(p) => if p < from {
                defining_scope(scopes, p, name)
            } else {
                None
            },
            None => None,
        }
    }
}

/// The value of `name` as seen from scope `from`.
pub open spec fn read_from(scopes: Seq<ScopeModel>, from: usize, name: Seq<char>) -> Option<
    ValueModel,
> {
    match defining_scope(scopes, from, name) {
        Some(s) => Some(scopes[s as int].vars[name]),
        None => None,
    }
}

/// The scopes after scope `at` has bound `name` to `v`.
pub open spec fn bind_in(scopes: Seq<ScopeModel>, at: usize, name: Seq<char>, v: ValueModel) -> Seq<
    ScopeModel,
> {
    if at < scopes.len() {
        scopes.update(
            at as int,
            ScopeModel {
                parent: scopes[at as int].parent,
                vars: scopes[at as int].vars.insert(name, v),
            },
        )
    } else {
        scopes
    }
}

/// A declaration in scope `from`: the name is bound there, whatever the
/// scopes around it define.
pub open spec fn define_in(scopes: Seq<ScopeModel>, from: usize, name: Seq<char>, v: ValueModel) -> Seq<
    ScopeModel,
> {
    bind_in(scopes, from, name, v)
}

/// An assignment from scope `from`: the nearest scope that defines the name
/// binds it anew; without such a scope there is no result.
pub open spec fn assign_from(
    scopes: Seq<ScopeModel>,
    from: usize,
    name: Seq<char>,
    v: ValueModel,
) -> Option<Seq<ScopeModel>> {
    match defining_scope(scopes, from, name) {
        Some(s) => Some(bind_in(scopes, s, name, v)),
        None => None,
    }
}

/// The bindings of a new scope: each name bound to the value at its place, a
/// later one winning over an earlier one of the same name.
pub open spec fn bound(names: Seq<Seq<char>>, values: Seq<ValueModel>) -> Map<
    Seq<char>,
    ValueModel,
>
    decreases names.len(),
{
    if names.len() == 0 {
        Map::empty()
    } else {
        bound(names.drop_last(), values.drop_last()).insert(names.last(), values.last())
    }
}

/// The world after a new scope with the bindings `vars` has been made inside
/// `parent`, and entered.
pub open spec fn entered(w: World, parent: usize, vars: Map<Seq<char>, ValueModel>) -> World {
    World {
        scopes: w.scopes.push(ScopeModel { parent: Some(parent), vars }),
        current: w.scopes.len() as usize,
        output: w.output,
    }
}

/// The world after evaluation has gone back to scope `to`.
pub open spec fn back_in(w: World, to: usize) -> World {
    World { current: to, ..w }
}

// ---------------------------------------------------------------------------
// Rendering
// ---------------------------------------------------------------------------

pub open spec fn digit_char(d: int) -> char {
    if d == 0 {
        '0'
    } else if d == 1 {
        '1'
    } else if d == 2 {
        '2'
    } else if d == 3 {
        '3'
    } else if d == 4 {
        '4'
    } else if d == 5 {
        '5'
    } else if d == 6 {
        '6'
    } else if d == 7 {
        '7'
    } else if d == 8 {
        '8'
    } else {
        '9'
    }
}

/// The decimal digits of `n`, without leading zeros.
pub open spec fn digits(n: nat) -> Seq<char>
    decreases n,
{
    if n < 10 {
        seq![digit_char(n as int)]
    } else {
        digits(n / 10).push(digit_char((n % 10) as int))
    }
}

pub open spec fn render_int(n: int) -> Seq<char> {
    if n < 0 {
        seq!['-'] + digits((-n) as nat)
    } else {
        digits(n as nat)
    }
}

/// How a character of a string is printed: a quote, a backslash, a newline, a
/// carriage return and a tab are written with a backslash, as in `\n`; every
/// other character as it is.
pub open spec fn escape(c: char) -> Seq<char> {
    if c == '"' {
        seq!['\\', '"']
    } else if c == '\\' {
        seq!['\\', '\\']
    } else if c == '\n' {
        seq!['\\', 'n']
    } else if c == '\r' {
        seq!['\\', 'r']
    } else if c == '\t' {
        seq!['\\', 't']
    } else {
        seq![c]
    }
}

pub open spec fn escaped(s: Seq<char>) -> Seq<char>
    decreases s.len(),
{
    if s.len() == 0 {
        Seq::empty()
    } else {
        escaped(s.drop_last()) + escape(s.last())
    }
}

/// How a value is printed: `Int(-3)`, `Bool(true)`, `String("a\"b")`,
/// `Identifier("x")`, and for a function `Lambda(n)`, `n` being the number of
/// its parameters.
pub open spec fn render(v: ValueModel) -> Seq<char> {
    match v {
        ValueModel::Int(n) => "Int("@ + render_int(n as int) + ")"@,
        ValueModel::Bool(b) => if b {
            "Bool(true)"@
        } else {
            "Bool(false)"@
        },
        ValueModel::String(s) => "String(\""@ + escaped(s) + "\")"@,
        ValueModel::Identifier(s) => "Identifier(\""@ + escaped(s) + "\")"@,
        ValueModel::Lambda(params, _, _) => "Lambda("@ + digits(params.len()) + ")"@,
    }
}

/// The values of a list as they are printed, with `, ` between them.
pub open spec fn render_items(values: Seq<ValueModel>) -> Seq<char>
    decreases values.len(),
{
    if values.len() == 0 {
        Seq::empty()
    } else if values.len() == 1 {
        render(values[0])
    } else {
        render_items(values.drop_last()) + ", "@ + render(values.last())
    }
}

/// The line that `print` writes for its arguments: the list in square
/// brackets, and a newline.
pub open spec fn print_line(values: Seq<ValueModel>) -> Seq<char> {
    "["@ + render_items(values) + "]\n"@
}

/// The world after `print` has written its line for `values`.
pub open spec fn printed(w: World, values: Seq<ValueModel>) -> World {
    World { output: w.output + print_line(values), ..w }
}

// ---------------------------------------------------------------------------
// Operators
// ---------------------------------------------------------------------------

/// The integer `n` as a value, if 32 bits hold it.
pub open spec fn int_result(n: int) -> Result<ValueModel, RuntimeError> {
    if i32::MIN <= n <= i32::MAX {
        Ok(ValueModel::Int(n as i32))
    } else {
        Err(RuntimeError::Overflow)
    }
}

/// `a // b` for `b != 0`: the quotient rounded towards zero.
pub open spec fn quotient(a: int, b: int) -> int {
    if a == 0 {
        0
    } else if a > 0 && b > 0 {
        a / b
    } else if a < 0 && b < 0 {
        (-a) / (-b)
    } else if a < 0 {
        -((-a) / b)
    } else {
        -(a / (-b))
    }
}

/// `a % b` for `b != 0`: what `a // b` leaves over, which has the sign of `a`.
pub open spec fn remainder(a: int, b: int) -> int {
    if a == 0 {
        0
    } else if a > 0 && b > 0 {
        a % b
    } else if a < 0 && b < 0 {
        -((-a) % (-b))
    } else if a < 0 {
        -((-a) % b)
    } else {
        a % (-b)
    }
}

pub open spec fn unary_op(op: Lexeme, v: ValueModel) -> Result<ValueModel, RuntimeError> {
    match (op, v) {
        (Lexeme::Mark(TokenType::Minus), ValueModel::Int(n)) => int_result(-n),
        (Lexeme::Mark(TokenType::Bang), ValueModel::Bool(b)) => Ok(ValueModel::Bool(!b)),
        _ => Err(RuntimeError::TypeMismatch),
    }
}

pub open spec fn int_op(op: Lexeme, a: int, b: int) -> Result<ValueModel, RuntimeError> {
    match op {
        Lexeme::Mark(TokenType::Minus) => int_result(a - b),
        Lexeme::Mark(TokenType::Plus) => int_result(a + b),
        Lexeme::Mark(TokenType::Star) => int_result(a * b),
        Lexeme::Mark(TokenType::Mod) => if b == 0 {
            Err(RuntimeError::DivisionByZero)
        } else {
            int_result(remainder(a, b))
        },
        Lexeme::Mark(TokenType::SlashSlash) => if b == 0 {
            Err(RuntimeError::DivisionByZero)
        } else {
            int_result(quotient(a, b))
        },
        Lexeme::Mark(TokenType::Greater) => Ok(ValueModel::Bool(a > b)),
        Lexeme::Mark(TokenType::GreaterEqual) => Ok(ValueModel::Bool(a >= b)),
        Lexeme::Mark(TokenType::Less) => Ok(ValueModel::Bool(a < b)),
        Lexeme::Mark(TokenType::LessEqual) => Ok(ValueModel::Bool(a <= b)),
        Lexeme::Mark(TokenType::EqualEqual) => Ok(ValueModel::Bool(a == b)),
        Lexeme::Mark(TokenType::BangEqual) => Ok(ValueModel::Bool(a != b)),
        _ => Err(RuntimeError::TypeMismatch),
    }
}

pub open spec fn bool_op(op: Lexeme, a: bool, b: bool) -> Result<ValueModel, RuntimeError> {
    match op {
        Lexeme::Mark(TokenType::AndAnd) => Ok(ValueModel::Bool(a && b)),
        Lexeme::Mark(TokenType::OrOr) => Ok(ValueModel::Bool(a || b)),
        Lexeme::Mark(TokenType::EqualEqual) => Ok(ValueModel::Bool(a == b)),
        Lexeme::Mark(TokenType::BangEqual) => Ok(ValueModel::Bool(a != b)),
        _ => Err(RuntimeError::TypeMismatch),
    }
}

pub open spec fn text_op(op: Lexeme, a: Seq<char>, b: Seq<char>) -> Result<
    ValueModel,
    RuntimeError,
> {
    match op {
        Lexeme::Mark(TokenType::EqualEqual) => Ok(ValueModel::Bool(a == b)),
        Lexeme::Mark(TokenType::BangEqual) => Ok(ValueModel::Bool(a != b)),
        _ => Err(RuntimeError::TypeMismatch),
    }
}

/// What a binary operator makes of two values. Arithmetic and comparison are
/// for two integers, `&&` and `||` for two booleans, `==` and `!=` for two
/// integers, two booleans or two strings.
pub open spec fn binary_op(op: Lexeme, l: ValueModel, r: ValueModel) -> Result<
    ValueModel,
    RuntimeError,
> {
    match (l, r) {
        (ValueModel::Int(a), ValueModel::Int(b)) => int_op(op, a as int, b as int),
        (ValueModel::Bool(a), ValueModel::Bool(b)) => bool_op(op, a, b),
        (ValueModel::String(a), ValueModel::String(b)) => text_op(op, a, b),
        _ => Err(RuntimeError::TypeMismatch),
    }
}

// ---------------------------------------------------------------------------
// Evaluation
// ---------------------------------------------------------------------------

/// A value, or the error that stopped evaluation, and the world after it.
pub type Outcome = (Result<ValueModel, RuntimeError>, World);

/// Some values, or the error that stopped evaluation, and the world after it.
pub type Outcomes = (Result<Seq<ValueModel>, RuntimeError>, World);

/// How far evaluation may go: `depth` bounds how deep expressions may be
/// nested and calls stacked, `turns` how often one loop may run its body.
pub struct Limits {
    pub depth: nat,
    pub turns: nat,
}

/// The name that the expression is, if it is a bare name.
pub open spec fn name_in(e: ExprModel) -> Option<Seq<char>> {
    match e {
        ExprModel::Literal(ValueModel::Identifier(name)) => Some(name),
        _ => None,
    }
}

/// The names of the parameters, if each of them is a bare name.
pub open spec fn param_names(params: Seq<ExprModel>) -> Option<Seq<Seq<char>>> {
    if forall|i: int| 0 <= i < params.len() ==> name_in(#[trigger] params[i]) is Some {
        Some(Seq::new(params.len(), |i: int| name_in(params[i])->0))
    } else {
        None
    }
}

/// The value of `e` in world `w`, and the world after it.
#[verifier::opaque]
pub open spec fn eval(e: ExprModel, w: World, depth: nat, turns: nat) -> Outcome
    decreases depth, 0nat, 0nat,
{
    if depth == 0 {
        (Err(RuntimeError::TooDeep), w)
    } else {
        let d = (depth - 1) as nat;
        match e {
            ExprModel::Literal(ValueModel::Identifier(name)) => match read_from(
                w.scopes,
                w.current,
                name,
            ) {
                Some(v) => (Ok(v), w),
                None => (Err(RuntimeError::UndefinedVariable), w),
            },
            ExprModel::Literal(v) => (Ok(v), w),
            ExprModel::Group(inner) => eval(*inner, w, d, turns),
            ExprModel::Binary(lhs, op, rhs) => eval_binary(*lhs, op, *rhs, w, d, turns),
            ExprModel::Unary(op, operand) => eval_unary(op, *operand, w, d, turns),
            ExprModel::Declaration(target, init) => eval_declaration(*target, init, w, d, turns),
            ExprModel::Assignment(target, value) => eval_assignment(*target, *value, w, d, turns),
            ExprModel::While(cond, body) => eval_loop(*cond, *body, w, d, turns, turns),
            ExprModel::Block(stmts) => eval_block(stmts, w, d, turns),
            ExprModel::If(cond, then, otherwise) => eval_if(*cond, *then, otherwise, w, d, turns),
            ExprModel::FunctionCall(callee, args) => eval_call(*callee, args, w, d, turns),
            ExprModel::Lambda(params, body) => (Ok(ValueModel::Lambda(params, body, w.current)), w),
            ExprModel::Get(_, _) => (Err(RuntimeError::Unsupported), w),
            ExprModel::BuiltinFunction(_) => (Err(RuntimeError::Unsupported), w),
        }
    }
}

/// The values of the expressions from the `i`th on, each evaluated in the
/// world that the one before it left, put behind the values `done`.
#[verifier::opaque]
pub open spec fn eval_all(
    exprs: Seq<ExprModel>,
    i: int,
    done: Seq<ValueModel>,
    w: World,
    depth: nat,
    turns: nat,
) -> Outcomes
    decreases depth, 1nat, exprs.len() - i,
{
    if i < 0 || i >= exprs.len() {
        (Ok(done), w)
    } else {
        match eval(exprs[i], w, depth, turns) {
            (Err(e), after) => (Err(e), after),
            (Ok(v), after) => eval_all(exprs, i + 1, done.push(v), after, depth, turns),
        }
    }
}

/// Both operands are evaluated, the left one first, then the operator is applied.
#[verifier::opaque]
pub open spec fn eval_binary(
    lhs: ExprModel,
    op: TokenModel,
    rhs: ExprModel,
    w: World,
    depth: nat,
    turns: nat,
) -> Outcome
    decreases depth, 2nat, 0nat,
{
    match eval(lhs, w, depth, turns) {
        (Err(e), after) => (Err(e), after),
        (Ok(l), after) => match eval(rhs, after, depth, turns) {
            (Err(e), last) => (Err(e), last),
            (Ok(r), last) => (binary_op(op.kind, l, r), last),
        },
    }
}

#[verifier::opaque]
pub open spec fn eval_unary(op: TokenModel, operand: ExprModel, w: World, depth: nat, turns: nat) -> Outcome
    decreases depth, 2nat, 0nat,
{
    match eval(operand, w, depth, turns) {
        (Err(e), after) => (Err(e), after),
        (Ok(v), after) => (unary_op(op.kind, v), after),
    }
}

/// `target := init`: the current scope binds the name to the value of `init`,
/// which is also the value of the declaration.
#[verifier::opaque]
pub open spec fn eval_declaration(
    target: ExprModel,
    init: Option<Box<ExprModel>>,
    w: World,
    depth: nat,
    turns: nat,
) -> Outcome
    decreases depth, 2nat, 0nat,
{
    match (name_in(target), init) {
        (None, _) => (Err(RuntimeError::InvalidTarget), w),
        (Some(_), None) => (Err(RuntimeError::MissingInitializer), w),
        (Some(name), Some(e)) => match eval(*e, w, depth, turns) {
            (Err(e), after) => (Err(e), after),
            (Ok(v), after) => (
                Ok(v),
                World { scopes: define_in(after.scopes, after.current, name, v), ..after },
            ),
        },
    }
}

/// `target = value`: the nearest scope that defines the name binds it to the
/// value, which is also the value of the assignment.
#[verifier::opaque]
pub open spec fn eval_assignment(
    target: ExprModel,
    value: ExprModel,
    w: World,
    depth: nat,
    turns: nat,
) -> Outcome
    decreases depth, 2nat, 0nat,
{
    match name_in(target) {
        None => (Err(RuntimeError::InvalidTarget), w),
        Some(name) => match eval(value, w, depth, turns) {
            (Err(e), after) => (Err(e), after),
            (Ok(v), after) => match assign_from(after.scopes, after.current, name, v) {
                None => (Err(RuntimeError::AssignUndefined), after),
                Some(scopes) => (Ok(v), World { scopes, ..after }),
            },
        },
    }
}

/// A loop that may still run its body `left` times: the condition is
/// evaluated before each run; the loop ends with `false` as its value once
/// the condition is false.
#[verifier::opaque]
pub open spec fn eval_loop(
    cond: ExprModel,
    body: ExprModel,
    w: World,
    depth: nat,
    left: nat,
    turns: nat,
) -> Outcome
    decreases depth, 1nat, left,
{
    match eval(cond, w, depth, turns) {
        (Err(e), after) => (Err(e), after),
        (Ok(ValueModel::Bool(true)), after) => if left == 0 {
            (Err(RuntimeError::LoopLimit), after)
        } else {
            match eval(body, after, depth, turns) {
                (Err(e), last) => (Err(e), last),
                (Ok(_), last) => eval_loop(cond, body, last, depth, (left - 1) as nat, turns),
            }
        },
        (Ok(ValueModel::Bool(false)), after) => (Ok(ValueModel::Bool(false)), after),
        (Ok(_), after) => (Err(RuntimeError::TypeMismatch), after),
    }
}

/// The statements run in a new scope inside the current one; then evaluation
/// is back in the current one. The value is `false`.
#[verifier::opaque]
pub open spec fn eval_block(stmts: Seq<ExprModel>, w: World, depth: nat, turns: nat) -> Outcome
    decreases depth, 2nat, 0nat,
{
    match eval_all(stmts, 0, Seq::empty(), entered(w, w.current, Map::empty()), depth, turns) {
        (Err(e), after) => (Err(e), after),
        (Ok(_), after) => (Ok(ValueModel::Bool(false)), back_in(after, w.current)),
    }
}

/// Exactly one branch is evaluated, chosen by the condition.
#[verifier::opaque]
pub open spec fn eval_if(
    cond: ExprModel,
    then: ExprModel,
    otherwise: Option<Box<ExprModel>>,
    w: World,
    depth: nat,
    turns: nat,
) -> Outcome
    decreases depth, 2nat, 0nat,
{
    match eval(cond, w, depth, turns) {
        (Err(e), after) => (Err(e), after),
        (Ok(ValueModel::Bool(true)), after) => eval(then, after, depth, turns),
        (Ok(ValueModel::Bool(false)), after) => match otherwise {
            Some(e) => eval(*e, after, depth, turns),
            None => (Err(RuntimeError::MissingElse), after),
        },
        (Ok(_), after) => (Err(RuntimeError::TypeMismatch), after),
    }
}

/// `print` writes a line for its arguments; its value is that of its last
/// argument, `false` without one.
#[verifier::opaque]
pub open spec fn eval_builtin(
    name: TokenModel,
    args: Seq<ExprModel>,
    w: World,
    depth: nat,
    turns: nat,
) -> Outcome
    decreases depth, 2nat, 0nat,
{
    if name.kind != Lexeme::Mark(TokenType::Print) {
        (Err(RuntimeError::UnknownBuiltin), w)
    } else {
        match eval_all(args, 0, Seq::empty(), w, depth, turns) {
            (Err(e), after) => (Err(e), after),
            (Ok(values), after) => (
                Ok(
                    if values.len() == 0 {
                        ValueModel::Bool(false)
                    } else {
                        values.last()
                    },
                ),
                printed(after, values),
            ),
        }
    }
}

/// The scope that a call of the function with `values` as arguments runs in,
/// or why the call cannot be made.
pub open spec fn call_frame(
    params: Seq<ExprModel>,
    body: Seq<ExprModel>,
    scope: usize,
    values: Seq<ValueModel>,
    w: World,
) -> Result<World, RuntimeError> {
    if body.len() == 0 {
        Err(RuntimeError::EmptyFunctionBody)
    } else if params.len() != values.len() {
        Err(RuntimeError::ArityMismatch)
    } else if param_names(params) is None {
        Err(RuntimeError::InvalidParameter)
    } else if scope >= w.scopes.len() {
        Err(RuntimeError::DanglingScope)
    } else {
        Ok(entered(w, scope, bound(param_names(params)->0, values)))
    }
}

/// A call. The builtin `print` as callee is called as [`eval_builtin`] says.
/// Else the callee is evaluated, then the arguments from left to right, in
/// the caller's scope. The body runs in a new scope that binds the parameters
/// and lies inside the scope in which the function was made, not inside the
/// caller's. The value of the last statement is the value of the call, after
/// which evaluation is back in the caller's scope.
#[verifier::opaque]
pub open spec fn eval_call(
    callee: ExprModel,
    args: Seq<ExprModel>,
    w: World,
    depth: nat,
    turns: nat,
) -> Outcome
    decreases depth, 3nat, 0nat,
{
    match callee {
        ExprModel::BuiltinFunction(name) => eval_builtin(name, args, w, depth, turns),
        _ => match eval(callee, w, depth, turns) {
            (Err(e), after) => (Err(e), after),
            (Ok(ValueModel::Lambda(params, body, scope)), after) => match eval_all(
                args,
                0,
                Seq::empty(),
                after,
                depth,
                turns,
            ) {
                (Err(e), ready) => (Err(e), ready),
                (Ok(values), ready) => match call_frame(params, body, scope, values, ready) {
                    Err(e) => (Err(e), ready),
                    Ok(inside) => match eval_all(body, 0, Seq::empty(), inside, depth, turns) {
                        (Err(e), last) => (Err(e), last),
                        (Ok(results), last) => (Ok(results.last()), back_in(last, ready.current)),
                    },
                },
            },
            (Ok(_), after) => (Err(RuntimeError::NotAFunction), after),
        },
    }
}

/// The values of the statements of a program, run one after the other in
/// world `w`, and the world after them.
pub open spec fn run(stmts: Seq<ExprModel>, w: World, limits: Limits) -> Outcomes {
    eval_all(stmts, 0, Seq::empty(), w, limits.depth, limits.turns)
}

} // verus!
