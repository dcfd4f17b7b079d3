//! What holds of the language, whatever the program.
use crate::grammar::{
    advanced, advanced_list, is_at, kind_at, lemma_skip_line_ends, level_below, level_rank,
    level_width, name_of, operator_width, parse_arguments, parse_assignment, parse_binary,
    parse_binary_rest, parse_block, parse_block_arguments, parse_body, parse_call,
    parse_call_rest, parse_declaration, parse_expression, parse_function,
    parse_inline_arguments, parse_operand, parse_pipeline, parse_pipeline_rest, parse_primary,
    parse_statement, parse_statement_form, parse_unary, piped, skip_line_ends, starts_primary,
    terminated, Level, Parsed, ParsedList,
};
use crate::parser::{ExprModel, ValueModel};
use crate::scanner::{
    increasing, is_blank, kept_levels, lemma_kept_levels_prefix, lemma_lexeme_advances,
    newline_step, opener_resolved, scan_from, scan_text, start_state, token_ready, token_step,
    Lexeme, ScanState, Source, TokenModel, TokenType,
};
use crate::semantics::{
    assign_from, binary_op, bind_in, call_frame, define_in, defining_scope, entered, eval,
    eval_all, eval_assignment, eval_binary, eval_block, eval_builtin, eval_call,
    eval_declaration, eval_if, eval_loop, eval_unary, int_op, int_result, name_in, quotient,
    read_from, remainder, scopes_wf, unary_op, world_wf, RuntimeError, ScopeModel, World,
};
use vstd::prelude::*;

verus! {

// ---------------------------------------------------------------------------
// Arithmetic
// ---------------------------------------------------------------------------

pub open spec fn abs(n: int) -> int {
    if n < 0 {
        -n
    } else {
        n
    }
}

proof fn lemma_div_mod_positive(a: int, b: int)
    requires
        a >= 0,
        b > 0,
    ensures
        a == b * (a / b) + a % b,
        0 <= a % b < b,
        0 <= a / b,
        b * (a / b) <= a,
{
    vstd::arithmetic::div_mod::lemma_fundamental_div_mod(a, b);
    vstd::arithmetic::div_mod::lemma_mod_bound(a, b);
    vstd::arithmetic::div_mod::lemma_div_pos_is_pos(a, b);
}

/// `//` rounds towards zero and `%` is what it leaves over: quotient times
/// divisor plus remainder is the dividend, the remainder is smaller than the
/// divisor and has the sign of the dividend, and the quotient times the divisor
/// lies between zero and the dividend.
pub proof fn lemma_division_truncates(a: int, b: int)
    requires
        b != 0,
    ensures
        a == b * quotient(a, b) + remainder(a, b),
        abs(remainder(a, b)) < abs(b),
        a >= 0 ==> remainder(a, b) >= 0,
        a <= 0 ==> remainder(a, b) <= 0,
        abs(b * quotient(a, b)) <= abs(a),
        (a >= 0) == (b > 0) ==> quotient(a, b) >= 0,
        (a >= 0) != (b > 0) ==> quotient(a, b) <= 0,
{
    if a == 0 {
        assert(b * 0 == 0) by (nonlinear_arith);
    } else {
        let x = abs(a);
        let y = abs(b);
        lemma_div_mod_positive(x, y);
        let q = x / y;
        if a > 0 && b > 0 {
        } else if a < 0 && b < 0 {
            assert(b * q == -(y * q)) by (nonlinear_arith)
                requires
                    b == -y,
            ;
        } else if a < 0 {
            assert(b * (-q) == -(y * q)) by (nonlinear_arith)
                requires
                    b == y,
            ;
        } else {
            assert(b * (-q) == y * q) by (nonlinear_arith)
                requires
                    b == -y,
            ;
        }
    }
}

/// `+`, `-` and `*` give the integer that they give in mathematics where 32
/// bits hold it, and fail with `Overflow` where they do not; so do `//` and
/// `%` with the truncating quotient and its remainder, unless the divisor is
/// zero; and negation likewise.
pub proof fn lemma_arithmetic_is_exact(a: i32, b: i32)
    ensures
        binary_op(Lexeme::Mark(TokenType::Plus), ValueModel::Int(a), ValueModel::Int(b))
            == int_result(a + b),
        binary_op(Lexeme::Mark(TokenType::Minus), ValueModel::Int(a), ValueModel::Int(b))
            == int_result(a - b),
        binary_op(Lexeme::Mark(TokenType::Star), ValueModel::Int(a), ValueModel::Int(b))
            == int_result(a * b),
        b != 0 ==> binary_op(
            Lexeme::Mark(TokenType::SlashSlash),
            ValueModel::Int(a),
            ValueModel::Int(b),
        ) == int_result(quotient(a as int, b as int)),
        b != 0 ==> binary_op(Lexeme::Mark(TokenType::Mod), ValueModel::Int(a), ValueModel::Int(b))
            == Ok::<ValueModel, RuntimeError>(ValueModel::Int(remainder(a as int, b as int) as i32)),
        b != 0 ==> i32::MIN <= remainder(a as int, b as int) <= i32::MAX,
        b == 0 ==> binary_op(
            Lexeme::Mark(TokenType::SlashSlash),
            ValueModel::Int(a),
            ValueModel::Int(b),
        ) == Err::<ValueModel, RuntimeError>(RuntimeError::DivisionByZero),
        b == 0 ==> binary_op(Lexeme::Mark(TokenType::Mod), ValueModel::Int(a), ValueModel::Int(b))
            == Err::<ValueModel, RuntimeError>(RuntimeError::DivisionByZero),
        unary_op(Lexeme::Mark(TokenType::Minus), ValueModel::Int(a)) == int_result(-a),
{
    if b != 0 {
        lemma_division_truncates(a as int, b as int);
    }
}

/// The three results at the edge of the range: the largest integer plus one,
/// the smallest minus one, and the smallest divided by minus one all fail
/// with `Overflow`.
pub proof fn lemma_overflow_at_the_edges()
    ensures
        int_op(Lexeme::Mark(TokenType::Plus), i32::MAX as int, 1) == Err::<
            ValueModel,
            RuntimeError,
        >(RuntimeError::Overflow),
        int_op(Lexeme::Mark(TokenType::Minus), i32::MIN as int, 1) == Err::<
            ValueModel,
            RuntimeError,
        >(RuntimeError::Overflow),
        int_op(Lexeme::Mark(TokenType::SlashSlash), i32::MIN as int, -1) == Err::<
            ValueModel,
            RuntimeError,
        >(RuntimeError::Overflow),
        int_op(Lexeme::Mark(TokenType::Star), i32::MAX as int, 2) == Err::<
            ValueModel,
            RuntimeError,
        >(RuntimeError::Overflow),
{
    assert(quotient(i32::MIN as int, -1) == -(i32::MIN as int));
}

// ---------------------------------------------------------------------------
// Scopes
// ---------------------------------------------------------------------------

/// The scope that defines a name is a scope, and does define it.
pub proof fn lemma_defining_scope(scopes: Seq<ScopeModel>, from: usize, name: Seq<char>)
    ensures
        match defining_scope(scopes, from, name) {
            Some(s) => s <= from && s < scopes.len() && scopes[s as int].vars.dom().contains(name),
            None => true,
        },
    decreases from,
{
    if from < scopes.len() && !scopes[from as int].vars.dom().contains(name) {
        match scopes[from as int].parent {
            Some(p) => {
                if p < from {
                    lemma_defining_scope(scopes, p, name);
                }
            },
            None => {},
        }
    }
}

/// Where two sequences of scopes have the same parents and define the same
/// names, the same scope defines a name as seen from any scope.
pub proof fn lemma_defining_scope_same(
    a: Seq<ScopeModel>,
    b: Seq<ScopeModel>,
    from: usize,
    name: Seq<char>,
)
    requires
        a.len() == b.len(),
        forall|i: int|
            0 <= i < a.len() ==> a[i].parent == b[i].parent && (a[i].vars.dom().contains(name)
                <==> b[i].vars.dom().contains(name)),
    ensures
        defining_scope(a, from, name) == defining_scope(b, from, name),
    decreases from,
{
    if from < a.len() && !a[from as int].vars.dom().contains(name) {
        match a[from as int].parent {
            Some(p) => {
                if p < from {
                    lemma_defining_scope_same(a, b, p, name);
                }
            },
            None => {},
        }
    }
}

/// A scope does not see what a scope made later binds: to bind a name in scope
/// `at` changes nothing for a scope `from` before it.
pub proof fn lemma_binding_is_unseen_from_outside(
    scopes: Seq<ScopeModel>,
    at: usize,
    name: Seq<char>,
    v: ValueModel,
    from: usize,
    other: Seq<char>,
)
    requires
        scopes_wf(scopes),
        at < scopes.len(),
        from < at,
    ensures
        defining_scope(bind_in(scopes, at, name, v), from, other) == defining_scope(
            scopes,
            from,
            other,
        ),
        read_from(bind_in(scopes, at, name, v), from, other) == read_from(scopes, from, other),
    decreases from,
{
    let after = bind_in(scopes, at, name, v);
    assert(after[from as int] == scopes[from as int]);
    if !scopes[from as int].vars.dom().contains(other) {
        match scopes[from as int].parent {
            Some(p) => {
                lemma_binding_is_unseen_from_outside(scopes, at, name, v, p, other);
            },
            None => {},
        }
    }
}

/// A declaration binds the name in the scope in which it stands, and there
/// alone: every other scope is as it was, so that a binding of the same name in
/// a scope around it keeps its value, and is what that scope still reads.
pub proof fn lemma_declaration_is_local(
    scopes: Seq<ScopeModel>,
    current: usize,
    name: Seq<char>,
    v: ValueModel,
)
    requires
        scopes_wf(scopes),
        current < scopes.len(),
    ensures
        define_in(scopes, current, name, v).len() == scopes.len(),
        read_from(define_in(scopes, current, name, v), current, name) == Some(v),
        forall|i: int|
            0 <= i < scopes.len() && i != current ==> define_in(scopes, current, name, v)[i]
                == scopes[i],
        forall|outer: usize|
            outer < current ==> read_from(define_in(scopes, current, name, v), outer, name)
                == read_from(scopes, outer, name),
{
    assert forall|outer: usize| outer < current implies read_from(
        define_in(scopes, current, name, v),
        outer,
        name,
    ) == read_from(scopes, outer, name) by {
        lemma_binding_is_unseen_from_outside(scopes, current, name, v, outer, name);
    }
}

/// An assignment binds the name anew in the nearest scope that defines it, and
/// there alone; what is then read from where the assignment stands is the new
/// value. Where no scope in reach defines the name, nothing is assigned.
pub proof fn lemma_assignment_changes_the_nearest(
    scopes: Seq<ScopeModel>,
    current: usize,
    name: Seq<char>,
    v: ValueModel,
)
    ensures
        match defining_scope(scopes, current, name) {
            Some(s) => {
                let after = assign_from(scopes, current, name, v);
                &&& after == Some(bind_in(scopes, s, name, v))
                &&& after->0.len() == scopes.len()
                &&& forall|i: int| 0 <= i < scopes.len() && i != s ==> after->0[i] == scopes[i]
                &&& after->0[s as int].vars == scopes[s as int].vars.insert(name, v)
                &&& after->0[s as int].vars.dom() == scopes[s as int].vars.dom()
                &&& read_from(after->0, current, name) == Some(v)
            },
            None => assign_from(scopes, current, name, v) is None,
        },
{
    match defining_scope(scopes, current, name) {
        Some(s) => {
            lemma_defining_scope(scopes, current, name);
            let after = bind_in(scopes, s, name, v);
            assert(after[s as int].vars.dom() =~= scopes[s as int].vars.dom());
            assert forall|i: int| 0 <= i < scopes.len() implies after[i].parent
                == scopes[i].parent && (after[i].vars.dom().contains(name)
                <==> scopes[i].vars.dom().contains(name)) by {}
            lemma_defining_scope_same(after, scopes, current, name);
        },
        None => {},
    }
}

/// Scopes are shared, not copied: where the same scope defines a name as seen
/// from scope `a` and from scope `b`, an assignment made from `a` is what `b`
/// reads afterwards. Two calls of one function run in scopes inside the scope
/// in which the function was made, see [`lemma_call_sees_the_captured_scope`],
/// so the second call reads what the first has assigned.
pub proof fn lemma_assignment_is_seen_through_shared_scope(
    scopes: Seq<ScopeModel>,
    a: usize,
    b: usize,
    name: Seq<char>,
    v: ValueModel,
)
    requires
        defining_scope(scopes, a, name) is Some,
        defining_scope(scopes, a, name) == defining_scope(scopes, b, name),
    ensures
        assign_from(scopes, a, name, v) is Some,
        read_from(assign_from(scopes, a, name, v)->0, b, name) == Some(v),
{
    let s = defining_scope(scopes, a, name)->0;
    lemma_defining_scope(scopes, a, name);
    let after = bind_in(scopes, s, name, v);
    assert(after[s as int].vars.dom() =~= scopes[s as int].vars.dom());
    assert forall|i: int| 0 <= i < scopes.len() implies after[i].parent == scopes[i].parent && (
    after[i].vars.dom().contains(name) <==> scopes[i].vars.dom().contains(name)) by {}
    lemma_defining_scope_same(after, scopes, b, name);
}

/// The scope that a call runs in lies inside the scope `captured` in which
/// the function was made: a name that the call's own scope does not bind is
/// looked up from `captured`, wherever the call was made from; and the scopes
/// that were there before the call are as they were.
pub proof fn lemma_call_sees_the_captured_scope(
    w: World,
    captured: usize,
    vars: Map<Seq<char>, ValueModel>,
    name: Seq<char>,
)
    requires
        world_wf(w),
        captured < w.scopes.len(),
        w.scopes.len() < usize::MAX,
        !vars.dom().contains(name),
    ensures
        world_wf(entered(w, captured, vars)),
        defining_scope(entered(w, captured, vars).scopes, entered(w, captured, vars).current, name)
            == defining_scope(w.scopes, captured, name),
        read_from(entered(w, captured, vars).scopes, entered(w, captured, vars).current, name)
            == read_from(w.scopes, captured, name),
        forall|i: int| 0 <= i < w.scopes.len() ==> entered(w, captured, vars).scopes[i] == w.scopes[i],
{
    let inside = entered(w, captured, vars);
    lemma_prefix_is_seen_alike(w.scopes, inside.scopes, captured, name);
    lemma_defining_scope(w.scopes, captured, name);
}

/// What a scope sees depends on the scopes up to itself alone.
pub proof fn lemma_prefix_is_seen_alike(
    a: Seq<ScopeModel>,
    b: Seq<ScopeModel>,
    from: usize,
    name: Seq<char>,
)
    requires
        from < a.len() <= b.len(),
        forall|i: int| 0 <= i <= from ==> a[i] == b[i],
    ensures
        defining_scope(a, from, name) == defining_scope(b, from, name),
    decreases from,
{
    if !a[from as int].vars.dom().contains(name) {
        match a[from as int].parent {
            Some(p) => {
                if p < from {
                    lemma_prefix_is_seen_alike(a, b, p, name);
                }
            },
            None => {},
        }
    }
}

// ---------------------------------------------------------------------------
// Evaluation
// ---------------------------------------------------------------------------

/// Whether world `b` can come after world `a`: every scope of `a` is still
/// there, inside the same scope as before, and what was printed is still
/// there, with more behind it at most.
pub open spec fn grown(a: World, b: World) -> bool {
    &&& a.scopes.len() <= b.scopes.len()
    &&& forall|i: int|
        0 <= i < a.scopes.len() ==> (#[trigger] b.scopes[i]).parent == a.scopes[i].parent
    &&& a.output.len() <= b.output.len()
    &&& forall|i: int| 0 <= i < a.output.len() ==> #[trigger] b.output[i] == a.output[i]
}

/// What evaluation keeps, from the world `a` it starts in to the world `b` it
/// leaves: `b` comes after `a`, see [`grown`]; and if `a` is well-formed, and
/// the scopes of `b` are not more than can be counted, then `b` is
/// well-formed, and evaluation that gave a value is back in the scope it
/// started in.
pub open spec fn kept(a: World, gave_value: bool, b: World) -> bool {
    &&& grown(a, b)
    &&& world_wf(a) && b.scopes.len() <= usize::MAX ==> world_wf(b) && (gave_value ==> b.current
        == a.current)
}

proof fn lemma_eval_keeps(e: ExprModel, w: World, depth: nat, turns: nat)
    ensures
        kept(w, eval(e, w, depth, turns).0 is Ok, eval(e, w, depth, turns).1),
    decreases depth, 0nat, 0nat,
{
    reveal(eval);
    reveal(eval_binary);
    reveal(eval_unary);
    reveal(eval_declaration);
    reveal(eval_assignment);
    reveal(eval_loop);
    reveal(eval_block);
    reveal(eval_if);
    reveal(eval_call);
    if depth > 0 {
        let d = (depth - 1) as nat;
        match e {
            ExprModel::Literal(_) => {},
            ExprModel::Group(inner) => lemma_eval_keeps(*inner, w, d, turns),
            ExprModel::Binary(lhs, op, rhs) => lemma_binary_keeps(*lhs, op, *rhs, w, d, turns),
            ExprModel::Unary(op, operand) => lemma_unary_keeps(op, *operand, w, d, turns),
            ExprModel::Declaration(target, init) => lemma_declaration_keeps(
                *target,
                init,
                w,
                d,
                turns,
            ),
            ExprModel::Assignment(target, value) => lemma_assignment_keeps(
                *target,
                *value,
                w,
                d,
                turns,
            ),
            ExprModel::While(cond, body) => lemma_loop_keeps(*cond, *body, w, d, turns, turns),
            ExprModel::Block(stmts) => lemma_block_keeps(stmts, w, d, turns),
            ExprModel::If(cond, then, otherwise) => lemma_if_keeps(
                *cond,
                *then,
                otherwise,
                w,
                d,
                turns,
            ),
            ExprModel::FunctionCall(callee, args) => lemma_call_keeps(*callee, args, w, d, turns),
            ExprModel::Lambda(_, _) => {},
            ExprModel::Get(_, _) => {},
            ExprModel::BuiltinFunction(_) => {},
        }
    }
}

proof fn lemma_all_keep(
    exprs: Seq<ExprModel>,
    i: int,
    done: Seq<ValueModel>,
    w: World,
    depth: nat,
    turns: nat,
)
    ensures
        kept(
            w,
            eval_all(exprs, i, done, w, depth, turns).0 is Ok,
            eval_all(exprs, i, done, w, depth, turns).1,
        ),
    decreases depth, 1nat, exprs.len() - i,
{
    reveal(eval_all);
    reveal(eval);
    if 0 <= i < exprs.len() {
        lemma_eval_keeps(exprs[i], w, depth, turns);
        match eval(exprs[i], w, depth, turns) {
            (Err(e), after) => {},
            (Ok(v), after) => {
                lemma_all_keep(exprs, i + 1, done.push(v), after, depth, turns);
            },
        }
    }
}

proof fn lemma_binary_keeps(
    lhs: ExprModel,
    op: TokenModel,
    rhs: ExprModel,
    w: World,
    depth: nat,
    turns: nat,
)
    ensures
        kept(
            w,
            eval_binary(lhs, op, rhs, w, depth, turns).0 is Ok,
            eval_binary(lhs, op, rhs, w, depth, turns).1,
        ),
    decreases depth, 2nat, 0nat,
{
    reveal(eval_binary);
    reveal(eval);
    lemma_eval_keeps(lhs, w, depth, turns);
    match eval(lhs, w, depth, turns) {
        (Err(e), after) => {},
        (Ok(l), after) => {
            lemma_eval_keeps(rhs, after, depth, turns);
        },
    }
}

proof fn lemma_unary_keeps(op: TokenModel, operand: ExprModel, w: World, depth: nat, turns: nat)
    ensures
        kept(
            w,
            eval_unary(op, operand, w, depth, turns).0 is Ok,
            eval_unary(op, operand, w, depth, turns).1,
        ),
    decreases depth, 2nat, 0nat,
{
    reveal(eval_unary);
    reveal(eval);
    lemma_eval_keeps(operand, w, depth, turns);
}

proof fn lemma_declaration_keeps(
    target: ExprModel,
    init: Option<Box<ExprModel>>,
    w: World,
    depth: nat,
    turns: nat,
)
    ensures
        kept(
            w,
            eval_declaration(target, init, w, depth, turns).0 is Ok,
            eval_declaration(target, init, w, depth, turns).1,
        ),
    decreases depth, 2nat, 0nat,
{
    reveal(eval_declaration);
    reveal(eval);
    match (name_in(target), init) {
        (Some(name), Some(e)) => {
            lemma_eval_keeps(*e, w, depth, turns);
        },
        _ => {},
    }
}

proof fn lemma_assignment_keeps(
    target: ExprModel,
    value: ExprModel,
    w: World,
    depth: nat,
    turns: nat,
)
    ensures
        kept(
            w,
            eval_assignment(target, value, w, depth, turns).0 is Ok,
            eval_assignment(target, value, w, depth, turns).1,
        ),
    decreases depth, 2nat, 0nat,
{
    reveal(eval_assignment);
    reveal(eval);
    match name_in(target) {
        None => {},
        Some(name) => {
            lemma_eval_keeps(value, w, depth, turns);
            let after = eval(value, w, depth, turns).1;
            lemma_defining_scope(after.scopes, after.current, name);
        },
    }
}

proof fn lemma_loop_keeps(
    cond: ExprModel,
    body: ExprModel,
    w: World,
    depth: nat,
    left: nat,
    turns: nat,
)
    ensures
        kept(
            w,
            eval_loop(cond, body, w, depth, left, turns).0 is Ok,
            eval_loop(cond, body, w, depth, left, turns).1,
        ),
    decreases depth, 1nat, left,
{
    reveal(eval_loop);
    reveal(eval);
    lemma_eval_keeps(cond, w, depth, turns);
    match eval(cond, w, depth, turns) {
        (Ok(ValueModel::Bool(true)), after) => {
            if left != 0 {
                lemma_eval_keeps(body, after, depth, turns);
                match eval(body, after, depth, turns) {
                    (Err(e), last) => {},
                    (Ok(_), last) => {
                        lemma_loop_keeps(cond, body, last, depth, (left - 1) as nat, turns);
                    },
                }
            }
        },
        _ => {},
    }
}

proof fn lemma_block_keeps(stmts: Seq<ExprModel>, w: World, depth: nat, turns: nat)
    ensures
        kept(
            w,
            eval_block(stmts, w, depth, turns).0 is Ok,
            eval_block(stmts, w, depth, turns).1,
        ),
    decreases depth, 2nat, 0nat,
{
    reveal(eval_block);
    reveal(eval_all);
    let inside = entered(w, w.current, Map::empty());
    lemma_all_keep(stmts, 0, Seq::empty(), inside, depth, turns);
}

proof fn lemma_if_keeps(
    cond: ExprModel,
    then: ExprModel,
    otherwise: Option<Box<ExprModel>>,
    w: World,
    depth: nat,
    turns: nat,
)
    ensures
        kept(
            w,
            eval_if(cond, then, otherwise, w, depth, turns).0 is Ok,
            eval_if(cond, then, otherwise, w, depth, turns).1,
        ),
    decreases depth, 2nat, 0nat,
{
    reveal(eval_if);
    reveal(eval);
    lemma_eval_keeps(cond, w, depth, turns);
    match eval(cond, w, depth, turns) {
        (Ok(ValueModel::Bool(true)), after) => {
            lemma_eval_keeps(then, after, depth, turns);
        },
        (Ok(ValueModel::Bool(false)), after) => match otherwise {
            Some(e) => {
                lemma_eval_keeps(*e, after, depth, turns);
            },
            None => {},
        },
        _ => {},
    }
}

proof fn lemma_builtin_keeps(
    name: TokenModel,
    args: Seq<ExprModel>,
    w: World,
    depth: nat,
    turns: nat,
)
    ensures
        kept(
            w,
            eval_builtin(name, args, w, depth, turns).0 is Ok,
            eval_builtin(name, args, w, depth, turns).1,
        ),
    decreases depth, 2nat, 0nat,
{
    reveal(eval_builtin);
    reveal(eval_all);
    if name.kind == Lexeme::Mark(TokenType::Print) {
        lemma_all_keep(args, 0, Seq::empty(), w, depth, turns);
    }
}

proof fn lemma_call_keeps(
    callee: ExprModel,
    args: Seq<ExprModel>,
    w: World,
    depth: nat,
    turns: nat,
)
    ensures
        kept(
            w,
            eval_call(callee, args, w, depth, turns).0 is Ok,
            eval_call(callee, args, w, depth, turns).1,
        ),
    decreases depth, 3nat, 0nat,
{
    reveal(eval_call);
    reveal(eval_builtin);
    reveal(eval);
    reveal(eval_all);
    match callee {
        ExprModel::BuiltinFunction(name) => {
            lemma_builtin_keeps(name, args, w, depth, turns);
        },
        _ => {
            lemma_eval_keeps(callee, w, depth, turns);
            match eval(callee, w, depth, turns) {
                (Ok(ValueModel::Lambda(params, body, scope)), after) => {
                    lemma_all_keep(args, 0, Seq::empty(), after, depth, turns);
                    match eval_all(args, 0, Seq::empty(), after, depth, turns) {
                        (Err(e), ready) => {},
                        (Ok(values), ready) => match call_frame(params, body, scope, values, ready) {
                            Err(e) => {},
                            Ok(inside) => {
                                lemma_all_keep(body, 0, Seq::empty(), inside, depth, turns);
                            },
                        },
                    }
                },
                _ => {},
            }
        },
    }
}

/// Statements that all give a value give one value each, in their order: the
/// values of the statements from the `i`th on come behind those in `done`.
pub proof fn lemma_one_value_for_each(
    exprs: Seq<ExprModel>,
    i: int,
    done: Seq<ValueModel>,
    w: World,
    depth: nat,
    turns: nat,
)
    requires
        0 <= i <= exprs.len(),
    ensures
        match eval_all(exprs, i, done, w, depth, turns).0 {
            Ok(values) => values.len() == done.len() + exprs.len() - i && forall|k: int|
                0 <= k < done.len() ==> values[k] == done[k],
            Err(_) => true,
        },
        i < exprs.len() && eval_all(exprs, i, done, w, depth, turns).0 is Ok ==> eval(
            exprs[i],
            w,
            depth,
            turns,
        ).0 == Ok::<ValueModel, RuntimeError>(
            eval_all(exprs, i, done, w, depth, turns).0->Ok_0[done.len() as int],
        ),
    decreases exprs.len() - i,
{
    reveal(eval_all);
    reveal(eval);
    if i < exprs.len() {
        match eval(exprs[i], w, depth, turns) {
            (Err(e), after) => {},
            (Ok(v), after) => {
                lemma_one_value_for_each(exprs, i + 1, done.push(v), after, depth, turns);
                match eval_all(exprs, i, done, w, depth, turns).0 {
                    Ok(values) => {
                        assert(values[done.len() as int] == done.push(v)[done.len() as int]);
                        assert forall|k: int| 0 <= k < done.len() implies values[k]
                            == done[k] by {
                            assert(done.push(v)[k] == done[k]);
                        }
                    },
                    Err(_) => {},
                }
            },
        }
    }
}

/// Evaluation never removes a scope, nor moves one to another place, nor
/// takes back what was printed; it keeps the world well-formed; and where it
/// gives a value, it is back in the scope in which it started: a block or a
/// call that has ended has left its scope. See [`kept`]. So the scope that a
/// function was made in is there whenever the function is called, also after
/// the block that made it has ended.
pub proof fn lemma_evaluation_keeps_the_world(
    stmts: Seq<ExprModel>,
    e: ExprModel,
    w: World,
    depth: nat,
    turns: nat,
)
    ensures
        kept(w, eval(e, w, depth, turns).0 is Ok, eval(e, w, depth, turns).1),
        kept(
            w,
            eval_all(stmts, 0, Seq::empty(), w, depth, turns).0 is Ok,
            eval_all(stmts, 0, Seq::empty(), w, depth, turns).1,
        ),
{
    lemma_eval_keeps(e, w, depth, turns);
    lemma_all_keep(stmts, 0, Seq::empty(), w, depth, turns);
}

// ---------------------------------------------------------------------------
// Pipelines
// ---------------------------------------------------------------------------

/// `x |> f` is the call of `f` with `x`, and `x |> f a ..` the call of `f`
/// with `x` before `a ..`: the tree is the same, and so is all that
/// evaluation makes of it.
pub proof fn lemma_pipeline_is_the_call(
    x: ExprModel,
    f: Seq<char>,
    callee: ExprModel,
    args: Seq<ExprModel>,
    w: World,
    depth: nat,
    turns: nat,
)
    ensures
        piped(x, name_of(f)) == Some(ExprModel::FunctionCall(Box::new(name_of(f)), seq![x])),
        piped(x, ExprModel::FunctionCall(Box::new(callee), args)) == Some(
            ExprModel::FunctionCall(Box::new(callee), seq![x] + args),
        ),
        eval(piped(x, name_of(f))->0, w, depth, turns) == eval(
            ExprModel::FunctionCall(Box::new(name_of(f)), seq![x]),
            w,
            depth,
            turns,
        ),
        eval(piped(x, ExprModel::FunctionCall(Box::new(callee), args))->0, w, depth, turns)
            == eval(ExprModel::FunctionCall(Box::new(callee), seq![x] + args), w, depth, turns),
{
}

/// Where `|>` stands at `pos`, behind the tree `lhs`, and the expression after
/// it is `rhs`, the parser goes on with the call that `lhs |> rhs` is, see
/// [`piped`]: the tokens `x |> f a` give the tree that the tokens `f! x a` give.
pub proof fn lemma_pipeline_parses_to_the_call(
    ts: Seq<TokenModel>,
    pos: int,
    col: usize,
    lhs: ExprModel,
)
    requires
        is_at(ts, pos, TokenType::Pipeline),
        parse_binary(ts, pos + 1, col, Level::LogicalOr) is Ok,
    ensures
        ({
            let (rhs, after) = parse_binary(ts, pos + 1, col, Level::LogicalOr)->Ok_0;
            parse_pipeline_rest(ts, pos, col, lhs) == match piped(lhs, rhs) {
                Some(call) => parse_pipeline_rest(ts, after, col, call),
                None => Err(crate::grammar::ParseError::ExpectedCall),
            }
        }),
{
    reveal(parse_pipeline_rest);
    reveal(parse_binary);
    lemma_binary_goes_on(ts, pos + 1, col, Level::LogicalOr);
}

// ---------------------------------------------------------------------------
// Indentation
// ---------------------------------------------------------------------------

/// A line that starts in column `col` closes the blocks that were opened in
/// column `col` or further right, all of them at once, and no other: what lies
/// strictly deeper than the line that opened a block belongs to that block.
pub proof fn lemma_line_closes_blocks(levels: Seq<usize>, col: usize)
    requires
        increasing(levels),
    ensures
        increasing(kept_levels(levels, col)),
        forall|i: int|
            0 <= i < levels.len() ==> (#[trigger] levels[i] < col <==> i < kept_levels(
                levels,
                col,
            ).len()),
        forall|i: int|
            0 <= i < kept_levels(levels, col).len() ==> #[trigger] kept_levels(levels, col)[i]
                == levels[i],
{
    lemma_kept_levels_prefix(levels, col);
    let kept = kept_levels(levels, col);
    assert forall|i: int| 0 <= i < levels.len() implies (#[trigger] levels[i] < col <==> i
        < kept.len()) by {
        if i < kept.len() {
            assert(kept[i] == levels[i]);
            if i < kept.len() - 1 {
                assert(levels[i] < levels[kept.len() - 1]);
            }
        }
    }
}

/// Whether every column in `levels` is less than `col`.
pub open spec fn all_below(levels: Seq<usize>, col: usize) -> bool {
    forall|i: int| 0 <= i < levels.len() ==> levels[i] < col
}

/// What holds of the open blocks while a text is scanned: their columns grow
/// from each block to the one inside it, and lie left of the current line's
/// first token and of a waiting opener's line.
pub open spec fn tidy(st: ScanState) -> bool {
    &&& increasing(st.levels)
    &&& match st.line_col {
        Some(c) => all_below(st.levels, c) && match st.opener {
            Some(o) => o.col == c,
            None => true,
        },
        None => match st.opener {
            Some(o) => all_below(st.levels, o.col),
            None => true,
        },
    }
}

/// Scanning starts tidy and stays tidy, at every newline and every token. So
/// the columns of the open blocks always grow inwards, and
/// [`lemma_line_closes_blocks`] holds of every line of every text.
pub proof fn lemma_scanning_stays_tidy(src: Source, st: ScanState)
    requires
        tidy(st),
    ensures
        tidy(start_state()),
        tidy(newline_step(src.text, st)),
        tidy(token_ready(src.text, st)),
        token_step(src, st) is Ok ==> tidy(token_step(src, st)->Ok_0),
{
    if st.line_col is None {
        let at = crate::scanner::place(src.text, st.pos);
        let opened = opener_resolved(st, at);
        assert(increasing(opened.levels));
        lemma_line_closes_blocks(opened.levels, at.col);
        assert(all_below(kept_levels(opened.levels, at.col), at.col));
    }
}

/// However far a text has been scanned, the tokens that come of it end in
/// `EndOfFile`.
pub proof fn lemma_scan_ends_in_end_of_file(src: Source, st: ScanState)
    ensures
        scan_from(src, st) is Ok ==> scan_from(src, st)->Ok_0.len() > 0 && scan_from(
            src,
            st,
        )->Ok_0.last().kind == Lexeme::Mark(TokenType::EndOfFile),
    decreases src.text.len() - st.pos,
{
    let text = src.text;
    if st.pos < 0 || st.pos >= text.len() {
    } else if text[st.pos] == '\n' {
        lemma_scan_ends_in_end_of_file(src, newline_step(text, st));
    } else if is_blank(text[st.pos]) {
        lemma_scan_ends_in_end_of_file(src, ScanState { pos: st.pos + 1, ..st });
    } else {
        match token_step(src, st) {
            Err(e) => {},
            Ok(next) => {
                lemma_lexeme_advances(src, st.pos);
                lemma_scan_ends_in_end_of_file(src, next);
            },
        }
    }
}

/// The tokens of a text end in `EndOfFile`: the scanner adds it last, whatever
/// the text.
pub proof fn lemma_tokens_end_in_end_of_file(text: Seq<char>)
    ensures
        scan_text(text) is Ok ==> scan_text(text)->Ok_0.len() > 0 && scan_text(
            text,
        )->Ok_0.last().kind == Lexeme::Mark(TokenType::EndOfFile),
{
    lemma_scan_ends_in_end_of_file(crate::scanner::source_of(text), start_state());
}

// ---------------------------------------------------------------------------
// Parsing
// ---------------------------------------------------------------------------

/// Whether a parser that started at `from` and gave `r` has gone forward,
/// and not past the end of the tokens.
pub open spec fn goes_on(ts: Seq<TokenModel>, r: Parsed, from: int) -> bool {
    r is Ok ==> from < r->Ok_0.1 <= ts.len()
}

/// Whether a parser that started at `from` and gave `r` has not gone back,
/// nor past the end of the tokens.
pub open spec fn stays(ts: Seq<TokenModel>, r: Parsed, from: int) -> bool {
    r is Ok ==> from <= r->Ok_0.1 <= ts.len()
}

/// [`stays`], for a parser of several trees.
pub open spec fn list_stays(ts: Seq<TokenModel>, r: ParsedList, from: int) -> bool {
    r is Ok ==> from <= r->Ok_0.1 <= ts.len()
}

proof fn lemma_primary_goes_on(ts: Seq<TokenModel>, pos: int, col: usize)
    ensures
        goes_on(ts, parse_primary(ts, pos, col), pos),
    decreases ts.len() - pos, 1nat,
{
    reveal(parse_primary);
    reveal(parse_function);
    reveal(parse_expression);
    if is_at(ts, pos, TokenType::Fn) {
        lemma_function_stays(ts, pos + 1, col, Seq::empty());
    }
}

proof fn lemma_function_stays(ts: Seq<TokenModel>, pos: int, col: usize, params: Seq<ExprModel>)
    requires
        pos <= ts.len(),
    ensures
        stays(ts, parse_function(ts, pos, col, params), pos),
    decreases ts.len() - pos, 2nat,
{
    reveal(parse_function);
    reveal(parse_primary);
    reveal(parse_block);
    reveal(parse_expression);
    if is_at(ts, pos, TokenType::ThinArrow) {
        if is_at(ts, pos + 1, TokenType::BeginBlock) {
            lemma_block_stays(ts, pos + 2, Seq::empty());
        } else {
            lemma_expression_goes_on(ts, pos + 1, col);
        }
    } else {
        match advanced(ts, parse_primary(ts, pos, col), pos) {
            Err(e) => {},
            Ok((param, p)) => {
                lemma_function_stays(ts, p, col, params.push(param));
            },
        }
    }
}

proof fn lemma_inline_arguments_stay(
    ts: Seq<TokenModel>,
    pos: int,
    col: usize,
    args: Seq<ExprModel>,
)
    requires
        pos <= ts.len(),
    ensures
        list_stays(ts, parse_inline_arguments(ts, pos, col, args), pos),
        starts_primary(kind_at(ts, pos)) && parse_inline_arguments(ts, pos, col, args) is Ok ==> pos
            < parse_inline_arguments(ts, pos, col, args)->Ok_0.1,
    decreases ts.len() - pos, 2nat,
{
    reveal(parse_inline_arguments);
    reveal(parse_primary);
    if starts_primary(kind_at(ts, pos)) {
        match advanced(ts, parse_primary(ts, pos, col), pos) {
            Err(e) => {},
            Ok((arg, p)) => {
                lemma_inline_arguments_stay(ts, p, col, args.push(arg));
            },
        }
    }
}

proof fn lemma_block_arguments_stay(
    ts: Seq<TokenModel>,
    pos: int,
    col: usize,
    args: Seq<ExprModel>,
)
    requires
        pos <= ts.len(),
    ensures
        list_stays(ts, parse_block_arguments(ts, pos, col, args), pos),
    decreases ts.len() - pos, 24nat,
{
    reveal(parse_block_arguments);
    reveal(parse_binary);
    lemma_skip_line_ends(ts, pos);
    let start = skip_line_ends(ts, pos);
    if !is_at(ts, start, TokenType::EndBlock) {
        match advanced(ts, parse_binary(ts, start, col, Level::LogicalOr), start) {
            Err(e) => {},
            Ok((arg, p)) => match advanced(ts, terminated(ts, p, arg), start) {
                Err(e) => {},
                Ok((_, q)) => {
                    lemma_block_arguments_stay(ts, q, col, args.push(arg));
                },
            },
        }
    }
}

proof fn lemma_arguments_stay(ts: Seq<TokenModel>, pos: int, col: usize)
    requires
        pos <= ts.len(),
    ensures
        list_stays(ts, parse_arguments(ts, pos, col), pos),
    decreases ts.len() - pos, 25nat,
{
    reveal(parse_arguments);
    reveal(parse_block_arguments);
    reveal(parse_inline_arguments);
    if is_at(ts, pos, TokenType::BeginBlock) {
        lemma_block_arguments_stay(ts, pos + 1, col, Seq::empty());
    } else {
        lemma_inline_arguments_stay(ts, pos, col, Seq::empty());
    }
}

proof fn lemma_call_rest_stays(ts: Seq<TokenModel>, pos: int, col: usize, callee: ExprModel)
    requires
        pos <= ts.len(),
    ensures
        stays(ts, parse_call_rest(ts, pos, col, callee), pos),
    decreases ts.len() - pos, 3nat,
{
    reveal(parse_call_rest);
    reveal(parse_arguments);
    reveal(parse_inline_arguments);
    if is_at(ts, pos, TokenType::Dot) {
        match kind_at(ts, pos + 1) {
            Lexeme::Identifier(name) => {
                lemma_call_rest_stays(ts, pos + 2, col, ExprModel::Get(Box::new(callee), name));
            },
            _ => {},
        }
    } else if is_at(ts, pos, TokenType::Bang) {
        match advanced_list(ts, parse_arguments(ts, pos + 1, col), pos) {
            Err(e) => {},
            Ok((args, p)) => {
                lemma_call_rest_stays(ts, p, col, crate::grammar::applied(callee, args));
            },
        }
    } else if starts_primary(kind_at(ts, pos)) && !is_at(ts, pos - 1, TokenType::EndBlock) {
        match advanced_list(ts, parse_inline_arguments(ts, pos, col, Seq::empty()), pos) {
            Err(e) => {},
            Ok((args, p)) => {
                lemma_call_rest_stays(ts, p, col, crate::grammar::applied(callee, args));
            },
        }
    }
}

proof fn lemma_call_goes_on(ts: Seq<TokenModel>, pos: int, col: usize)
    ensures
        goes_on(ts, parse_call(ts, pos, col), pos),
    decreases ts.len() - pos, 4nat,
{
    reveal(parse_call);
    reveal(parse_primary);
    reveal(parse_call_rest);
    match advanced(ts, parse_primary(ts, pos, col), pos) {
        Err(e) => {},
        Ok((e, p)) => {
            if !(e is Lambda) {
                lemma_call_rest_stays(ts, p, col, e);
            }
        },
    }
}

proof fn lemma_unary_goes_on(ts: Seq<TokenModel>, pos: int, col: usize)
    ensures
        goes_on(ts, parse_unary(ts, pos, col), pos),
    decreases ts.len() - pos, 5nat,
{
    reveal(parse_unary);
    reveal(parse_call);
    if is_at(ts, pos, TokenType::Minus) || is_at(ts, pos, TokenType::Bang) {
        lemma_unary_goes_on(ts, pos + 1, col);
    } else {
        lemma_call_goes_on(ts, pos, col);
    }
}

proof fn lemma_operand_goes_on(ts: Seq<TokenModel>, pos: int, col: usize, level: Level)
    ensures
        goes_on(ts, parse_operand(ts, pos, col, level), pos),
    decreases ts.len() - pos, 6 + 2 * level_rank(level),
{
    reveal(parse_operand);
    reveal(parse_unary);
    reveal(parse_binary);
    match level_below(level) {
        None => {
            lemma_unary_goes_on(ts, pos, col);
        },
        Some(below) => {
            lemma_binary_goes_on(ts, pos, col, below);
        },
    }
}

proof fn lemma_binary_goes_on(ts: Seq<TokenModel>, pos: int, col: usize, level: Level)
    ensures
        goes_on(ts, parse_binary(ts, pos, col, level), pos),
    decreases ts.len() - pos, 7 + 2 * level_rank(level),
{
    reveal(parse_binary);
    reveal(parse_operand);
    reveal(parse_binary_rest);
    match advanced(ts, parse_operand(ts, pos, col, level), pos) {
        Err(e) => {},
        Ok((lhs, p)) => {
            lemma_binary_rest_stays(ts, p, col, level, lhs);
        },
    }
}

proof fn lemma_binary_rest_stays(
    ts: Seq<TokenModel>,
    pos: int,
    col: usize,
    level: Level,
    lhs: ExprModel,
)
    requires
        pos <= ts.len(),
    ensures
        stays(ts, parse_binary_rest(ts, pos, col, level, lhs), pos),
    decreases ts.len() - pos, 0nat,
{
    reveal(parse_binary_rest);
    reveal(parse_operand);
    let width = level_width(ts, pos, col, level);
    if width != 0 {
        match advanced(ts, parse_operand(ts, pos + width, col, level), pos + width) {
            Err(e) => {},
            Ok((rhs, p)) => {
                lemma_binary_rest_stays(
                    ts,
                    p,
                    col,
                    level,
                    ExprModel::Binary(Box::new(lhs), ts[pos + width - 1], Box::new(rhs)),
                );
            },
        }
    }
}

proof fn lemma_pipeline_goes_on(ts: Seq<TokenModel>, pos: int, col: usize)
    ensures
        goes_on(ts, parse_pipeline(ts, pos, col), pos),
    decreases ts.len() - pos, 19nat,
{
    reveal(parse_pipeline);
    reveal(parse_binary);
    reveal(parse_pipeline_rest);
    match advanced(ts, parse_binary(ts, pos, col, Level::LogicalOr), pos) {
        Err(e) => {},
        Ok((lhs, p)) => {
            lemma_pipeline_rest_stays(ts, p, col, lhs);
        },
    }
}

proof fn lemma_pipeline_rest_stays(ts: Seq<TokenModel>, pos: int, col: usize, lhs: ExprModel)
    requires
        pos <= ts.len(),
    ensures
        stays(ts, parse_pipeline_rest(ts, pos, col, lhs), pos),
    decreases ts.len() - pos, 0nat,
{
    reveal(parse_pipeline_rest);
    reveal(parse_binary);
    let width = operator_width(ts, pos, col, TokenType::Pipeline);
    if width != 0 {
        match advanced(ts, parse_binary(ts, pos + width, col, Level::LogicalOr), pos + width) {
            Err(e) => {},
            Ok((rhs, p)) => match piped(lhs, rhs) {
                None => {},
                Some(call) => {
                    lemma_pipeline_rest_stays(ts, p, col, call);
                },
            },
        }
    }
}

proof fn lemma_body_goes_on(ts: Seq<TokenModel>, pos: int, col: usize)
    ensures
        goes_on(ts, parse_body(ts, pos, col), pos),
    decreases ts.len() - pos, 21nat,
{
    reveal(parse_body);
    reveal(parse_block);
    reveal(parse_expression);
    if is_at(ts, pos, TokenType::BeginBlock) {
        lemma_block_stays(ts, pos + 1, Seq::empty());
    } else {
        lemma_expression_goes_on(ts, pos, col);
    }
}

proof fn lemma_expression_goes_on(ts: Seq<TokenModel>, pos: int, col: usize)
    ensures
        goes_on(ts, parse_expression(ts, pos, col), pos),
    decreases ts.len() - pos, 20nat,
{
    reveal(parse_expression);
    reveal(parse_body);
    reveal(parse_pipeline);
    if is_at(ts, pos, TokenType::While) {
        match advanced(ts, parse_expression(ts, pos + 1, col), pos + 1) {
            Err(e) => {},
            Ok((cond, p)) => {
                if is_at(ts, p, TokenType::Colon) {
                    lemma_body_goes_on(ts, p + 1, col);
                }
            },
        }
    } else if is_at(ts, pos, TokenType::If) {
        match advanced(ts, parse_expression(ts, pos + 1, col), pos + 1) {
            Err(e) => {},
            Ok((cond, p)) => {
                if is_at(ts, p, TokenType::Colon) {
                    match advanced(ts, parse_body(ts, p + 1, col), p + 1) {
                        Err(e) => {},
                        Ok((then, q)) => {
                            if is_at(ts, q, TokenType::Else) {
                                let start = if is_at(ts, q + 1, TokenType::Colon) {
                                    q + 2
                                } else {
                                    q + 1
                                };
                                lemma_body_goes_on(ts, start, col);
                            }
                        },
                    }
                }
            },
        }
    } else {
        lemma_pipeline_goes_on(ts, pos, col);
    }
}

proof fn lemma_declaration_goes_on(ts: Seq<TokenModel>, pos: int, col: usize, target: ExprModel)
    ensures
        goes_on(ts, parse_declaration(ts, pos, col, target), pos),
    decreases ts.len() - pos, 21nat,
{
    reveal(parse_declaration);
    reveal(parse_expression);
    if is_at(ts, pos, TokenType::Colon) && is_at(ts, pos + 1, TokenType::Equal) {
        lemma_expression_goes_on(ts, pos + 2, col);
    }
}

proof fn lemma_assignment_goes_on(ts: Seq<TokenModel>, pos: int, col: usize, target: ExprModel)
    ensures
        goes_on(ts, parse_assignment(ts, pos, col, target), pos),
    decreases ts.len() - pos, 21nat,
{
    reveal(parse_assignment);
    reveal(parse_expression);
    if is_at(ts, pos, TokenType::Equal) {
        lemma_expression_goes_on(ts, pos + 1, col);
    }
}

proof fn lemma_statement_form_goes_on(ts: Seq<TokenModel>, pos: int, col: usize)
    ensures
        goes_on(ts, parse_statement_form(ts, pos, col), pos),
    decreases ts.len() - pos, 22nat,
{
    reveal(parse_statement_form);
    reveal(parse_expression);
    reveal(parse_declaration);
    reveal(parse_assignment);
    match advanced(ts, parse_expression(ts, pos, col), pos) {
        Err(e) => {},
        Ok((first, p)) => {
            if is_at(ts, p, TokenType::Colon) {
                lemma_declaration_goes_on(ts, p, col, first);
            } else if is_at(ts, p, TokenType::Equal) {
                lemma_assignment_goes_on(ts, p, col, first);
            }
        },
    }
}

proof fn lemma_statement_goes_on(ts: Seq<TokenModel>, pos: int)
    ensures
        goes_on(ts, parse_statement(ts, pos), pos),
    decreases ts.len() - pos, 23nat,
{
    reveal(parse_statement);
    reveal(parse_statement_form);
    lemma_statement_form_goes_on(ts, pos, crate::grammar::col_at(ts, pos));
}

proof fn lemma_block_stays(ts: Seq<TokenModel>, pos: int, stmts: Seq<ExprModel>)
    requires
        pos <= ts.len(),
    ensures
        list_stays(ts, parse_block(ts, pos, stmts), pos),
    decreases ts.len() - pos, 26nat,
{
    reveal(parse_block);
    reveal(parse_statement);
    lemma_skip_line_ends(ts, pos);
    let start = skip_line_ends(ts, pos);
    if !is_at(ts, start, TokenType::EndBlock) {
        match advanced(ts, parse_statement(ts, start), start) {
            Err(e) => {},
            Ok((s, p)) => {
                lemma_block_stays(ts, p, stmts.push(s));
            },
        }
    }
}

/// Every parser of the grammar goes forward where it gives a tree, and none
/// goes past the end of the tokens. So [`advanced`] never changes what a
/// parser of the grammar gives: it is there to bound the recursion, and does
/// not turn away any tree.
pub proof fn lemma_parsers_go_on(ts: Seq<TokenModel>, pos: int, col: usize, level: Level)
    ensures
        advanced(ts, parse_primary(ts, pos, col), pos) == parse_primary(ts, pos, col),
        advanced(ts, parse_operand(ts, pos, col, level), pos) == parse_operand(ts, pos, col, level),
        advanced(ts, parse_binary(ts, pos, col, level), pos) == parse_binary(ts, pos, col, level),
        advanced(ts, parse_expression(ts, pos, col), pos) == parse_expression(ts, pos, col),
        advanced(ts, parse_body(ts, pos, col), pos) == parse_body(ts, pos, col),
        advanced(ts, parse_statement(ts, pos), pos) == parse_statement(ts, pos),
        goes_on(ts, parse_unary(ts, pos, col), pos),
        goes_on(ts, parse_call(ts, pos, col), pos),
        goes_on(ts, parse_pipeline(ts, pos, col), pos),
        goes_on(ts, parse_statement_form(ts, pos, col), pos),
{
    lemma_primary_goes_on(ts, pos, col);
    lemma_operand_goes_on(ts, pos, col, level);
    lemma_binary_goes_on(ts, pos, col, level);
    lemma_expression_goes_on(ts, pos, col);
    lemma_body_goes_on(ts, pos, col);
    lemma_statement_goes_on(ts, pos);
    lemma_unary_goes_on(ts, pos, col);
    lemma_call_goes_on(ts, pos, col);
    lemma_pipeline_goes_on(ts, pos, col);
    lemma_statement_form_goes_on(ts, pos, col);
}

/// [`lemma_parsers_go_on`], for the parsers of arguments: after a `!` at
/// `pos`, and for arguments that start at `pos`.
pub proof fn lemma_argument_parsers_go_on(ts: Seq<TokenModel>, pos: int, col: usize)
    requires
        0 <= pos < ts.len(),
    ensures
        advanced_list(ts, parse_arguments(ts, pos + 1, col), pos) == parse_arguments(
            ts,
            pos + 1,
            col,
        ),
        starts_primary(kind_at(ts, pos)) ==> advanced_list(
            ts,
            parse_inline_arguments(ts, pos, col, Seq::empty()),
            pos,
        ) == parse_inline_arguments(ts, pos, col, Seq::empty()),
{
    lemma_arguments_stay(ts, pos + 1, col);
    lemma_inline_arguments_stay(ts, pos, col, Seq::empty());
}

} // verus!
