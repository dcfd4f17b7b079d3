//! The grammar of the language, as functions from a token sequence and a
//! position to the tree that starts there and the position after it.
//!
//! The functions that call each other in a circle are opaque, to keep proofs
//! about them small: a proof reveals the one it unfolds, and those that it
//! calls.
use crate::parser::{ExprModel, ValueModel};
use crate::scanner::{Lexeme, TokenModel, TokenType};
use vstd::prelude::*;

verus! {

/// Why a token sequence has no syntax tree.
#[derive(Clone, Copy, Debug, PartialEq, Eq)]
pub enum ParseError {
    /// A token that no expression can start with, where one must start.
    UnexpectedToken,
    /// The condition of `if` or `while` is not followed by `:`.
    ExpectedColon,
    /// The left-hand side of `:=` or `=` is not a name.
    InvalidTarget,
    /// A `(` whose `)` is missing.
    UnclosedParen,
    /// A `:` after a statement's first expression that `=` does not follow.
    MalformedDeclaration,
    /// A statement or an argument line that nothing ends.
    MissingTerminator,
    /// A `.` that no name follows.
    ExpectedName,
    /// The right-hand side of `|>` is neither a call nor a name.
    ExpectedCall,
}

/// A tree and the position after it, or the reason why there is none.
pub type Parsed = Result<(ExprModel, int), ParseError>;

/// Some trees and the position after them, or the reason why there are none.
pub type ParsedList = Result<(Seq<ExprModel>, int), ParseError>;

// ---------------------------------------------------------------------------
// Tokens
// ---------------------------------------------------------------------------

/// The kind of the token at `pos`. Past the end of the sequence, and before its
/// start, the answer is `EndOfFile`.
pub open spec fn kind_at(ts: Seq<TokenModel>, pos: int) -> Lexeme {
    if 0 <= pos < ts.len() {
        ts[pos].kind
    } else {
        Lexeme::Mark(TokenType::EndOfFile)
    }
}

/// Whether the token at `pos` is the one that `t` stands for.
pub open spec fn is_at(ts: Seq<TokenModel>, pos: int, t: TokenType) -> bool {
    kind_at(ts, pos) == t@
}

/// The column of the token at `pos`.
pub open spec fn col_at(ts: Seq<TokenModel>, pos: int) -> usize {
    if 0 <= pos < ts.len() {
        ts[pos].location.col
    } else {
        0
    }
}

/// The first position at or after `pos` that holds no `LineEnd`.
pub open spec fn skip_line_ends(ts: Seq<TokenModel>, pos: int) -> int
    decreases ts.len() - pos,
{
    if is_at(ts, pos, TokenType::LineEnd) {
        skip_line_ends(ts, pos + 1)
    } else {
        pos
    }
}

pub proof fn lemma_skip_line_ends(ts: Seq<TokenModel>, pos: int)
    ensures
        pos <= skip_line_ends(ts, pos),
        pos <= ts.len() ==> skip_line_ends(ts, pos) <= ts.len(),
        !is_at(ts, skip_line_ends(ts, pos), TokenType::LineEnd),
    decreases ts.len() - pos,
{
    if is_at(ts, pos, TokenType::LineEnd) {
        lemma_skip_line_ends(ts, pos + 1);
    }
}

/// The result `r` of a parser that started at `from`, if it has gone forward
/// and not past the end. Every parser of this grammar does, as
/// [`crate::laws::lemma_parsers_go_on`] shows, so this turns no tree away: it
/// only bounds the recursion.
pub open spec fn advanced(ts: Seq<TokenModel>, r: Parsed, from: int) -> Parsed {
    match r {
        Ok((e, p)) => if from < p <= ts.len() {
            r
        } else {
            Err(ParseError::UnexpectedToken)
        },
        Err(_) => r,
    }
}

/// [`advanced`], for a parser of several trees.
pub open spec fn advanced_list(ts: Seq<TokenModel>, r: ParsedList, from: int) -> ParsedList {
    match r {
        Ok((e, p)) => if from < p <= ts.len() {
            r
        } else {
            Err(ParseError::UnexpectedToken)
        },
        Err(_) => r,
    }
}

/// How many tokens the operator `op` takes at `pos`: one where it stands at
/// `pos`; two where a `LineEnd` stands there and `op` opens the next line,
/// indented deeper than column `col`, in which the statement began; none
/// where the operator is missing.
pub open spec fn operator_width(ts: Seq<TokenModel>, pos: int, col: usize, op: TokenType) -> int {
    if is_at(ts, pos, op) {
        1
    } else if is_at(ts, pos, TokenType::LineEnd) && is_at(ts, pos + 1, op) && col_at(ts, pos + 1)
        > col {
        2
    } else {
        0
    }
}

// ---------------------------------------------------------------------------
// Trees
// ---------------------------------------------------------------------------

pub open spec fn name_of(name: Seq<char>) -> ExprModel {
    ExprModel::Literal(ValueModel::Identifier(name))
}

pub open spec fn is_name(e: ExprModel) -> bool {
    e matches ExprModel::Literal(ValueModel::Identifier(_))
}

/// The call of `callee` with `args`. A field access as callee is a method
/// call: the field's name is called, with the receiver as first argument.
pub open spec fn applied(callee: ExprModel, args: Seq<ExprModel>) -> ExprModel {
    match callee {
        ExprModel::Get(receiver, name) => ExprModel::FunctionCall(
            Box::new(name_of(name)),
            seq![*receiver] + args,
        ),
        _ => ExprModel::FunctionCall(Box::new(callee), args),
    }
}

/// `lhs |> rhs`: the call `rhs` with `lhs` put before its arguments, or where
/// `rhs` is a name or a builtin, the call of it with `lhs` alone.
pub open spec fn piped(lhs: ExprModel, rhs: ExprModel) -> Option<ExprModel> {
    match rhs {
        ExprModel::FunctionCall(callee, args) => Some(
            ExprModel::FunctionCall(callee, seq![lhs] + args),
        ),
        ExprModel::Literal(ValueModel::Identifier(_)) => Some(
            ExprModel::FunctionCall(Box::new(rhs), seq![lhs]),
        ),
        ExprModel::BuiltinFunction(_) => Some(ExprModel::FunctionCall(Box::new(rhs), seq![lhs])),
        _ => None,
    }
}

/// The tokens that an argument written after its callee can start with.
pub open spec fn starts_primary(kind: Lexeme) -> bool {
    match kind {
        Lexeme::Identifier(_) => true,
        Lexeme::Text(_) => true,
        Lexeme::Int(_) => true,
        Lexeme::Mark(TokenType::True) => true,
        Lexeme::Mark(TokenType::False) => true,
        Lexeme::Mark(TokenType::LeftParen) => true,
        Lexeme::Mark(TokenType::Fn) => true,
        _ => false,
    }
}

// ---------------------------------------------------------------------------
// Binary operators
// ---------------------------------------------------------------------------

/// The levels of binary operators, from the one that binds tightest.
#[derive(Clone, Copy, Debug, PartialEq, Eq)]
pub enum Level {
    Factor,
    Term,
    Comparison,
    Equality,
    LogicalAnd,
    LogicalOr,
}

pub open spec fn level_rank(level: Level) -> nat {
    match level {
        Level::Factor => 0,
        Level::Term => 1,
        Level::Comparison => 2,
        Level::Equality => 3,
        Level::LogicalAnd => 4,
        Level::LogicalOr => 5,
    }
}

/// The level whose expressions are the operands of `level`; the operands of
/// `Factor` are unary expressions.
pub open spec fn level_below(level: Level) -> Option<Level> {
    match level {
        Level::Factor => None,
        Level::Term => Some(Level::Factor),
        Level::Comparison => Some(Level::Term),
        Level::Equality => Some(Level::Comparison),
        Level::LogicalAnd => Some(Level::Equality),
        Level::LogicalOr => Some(Level::LogicalAnd),
    }
}

/// How many tokens an operator of `level` takes at `pos`, none if there is no
/// such operator. Only `&&` and `||` may open the next line.
pub open spec fn level_width(ts: Seq<TokenModel>, pos: int, col: usize, level: Level) -> int {
    match level {
        Level::Factor => if is_at(ts, pos, TokenType::Star) || is_at(ts, pos, TokenType::Slash)
            || is_at(ts, pos, TokenType::SlashSlash) || is_at(ts, pos, TokenType::Mod) {
            1
        } else {
            0
        },
        Level::Term => if is_at(ts, pos, TokenType::Minus) || is_at(ts, pos, TokenType::Plus) {
            1
        } else {
            0
        },
        Level::Comparison => if is_at(ts, pos, TokenType::Greater) || is_at(
            ts,
            pos,
            TokenType::GreaterEqual,
        ) || is_at(ts, pos, TokenType::Less) || is_at(ts, pos, TokenType::LessEqual) {
            1
        } else {
            0
        },
        Level::Equality => if is_at(ts, pos, TokenType::EqualEqual) || is_at(
            ts,
            pos,
            TokenType::BangEqual,
        ) {
            1
        } else {
            0
        },
        Level::LogicalAnd => operator_width(ts, pos, col, TokenType::AndAnd),
        Level::LogicalOr => operator_width(ts, pos, col, TokenType::OrOr),
    }
}

// ---------------------------------------------------------------------------
// The grammar
// ---------------------------------------------------------------------------

/// What follows a statement's expression `e` at `pos`: `;` or `LineEnd`, which
/// belong to the statement; or `EndOfFile` or `EndBlock`, which do not; or
/// nothing at all where the statement itself ended in `EndBlock`.
pub open spec fn terminated(ts: Seq<TokenModel>, pos: int, e: ExprModel) -> Parsed {
    if is_at(ts, pos, TokenType::Semicolon) || is_at(ts, pos, TokenType::LineEnd) {
        Ok((e, pos + 1))
    } else if is_at(ts, pos, TokenType::EndOfFile) || is_at(ts, pos, TokenType::EndBlock) || is_at(
        ts,
        pos - 1,
        TokenType::EndBlock,
    ) {
        Ok((e, pos))
    } else {
        Err(ParseError::MissingTerminator)
    }
}

/// A primary expression: a literal, a name, `(` expression `)`, a function, or
/// the builtin `print`. A `+` alone is the name `+`.
#[verifier::opaque]
pub open spec fn parse_primary(ts: Seq<TokenModel>, pos: int, col: usize) -> Parsed
    decreases ts.len() - pos, 1nat,
{
    match kind_at(ts, pos) {
        Lexeme::Mark(TokenType::False) => Ok((ExprModel::Literal(ValueModel::Bool(false)), pos + 1)),
        Lexeme::Mark(TokenType::True) => Ok((ExprModel::Literal(ValueModel::Bool(true)), pos + 1)),
        Lexeme::Text(s) => Ok((ExprModel::Literal(ValueModel::String(s)), pos + 1)),
        Lexeme::Identifier(s) => Ok((name_of(s), pos + 1)),
        Lexeme::Int(n) => Ok((ExprModel::Literal(ValueModel::Int(n)), pos + 1)),
        Lexeme::Mark(TokenType::LeftParen) => match advanced(
            ts,
            parse_expression(ts, pos + 1, col),
            pos + 1,
        ) {
            Err(e) => Err(e),
            Ok((e, p)) => if is_at(ts, p, TokenType::RightParen) {
                Ok((ExprModel::Group(Box::new(e)), p + 1))
            } else {
                Err(ParseError::UnclosedParen)
            },
        },
        Lexeme::Mark(TokenType::Plus) => Ok((name_of("+"@), pos + 1)),
        Lexeme::Mark(TokenType::Fn) => parse_function(ts, pos + 1, col, Seq::empty()),
        Lexeme::Mark(TokenType::Print) => Ok((ExprModel::BuiltinFunction(ts[pos]), pos + 1)),
        _ => Err(ParseError::UnexpectedToken),
    }
}

/// The rest of a function after `fn` and the parameters `params`: more
/// parameters, each a primary expression, then `->`, then the body, which is a
/// block or one expression.
#[verifier::opaque]
pub open spec fn parse_function(
    ts: Seq<TokenModel>,
    pos: int,
    col: usize,
    params: Seq<ExprModel>,
) -> Parsed
    decreases ts.len() - pos, 2nat,
{
    if is_at(ts, pos, TokenType::ThinArrow) {
        if is_at(ts, pos + 1, TokenType::BeginBlock) {
            match parse_block(ts, pos + 2, Seq::empty()) {
                Err(e) => Err(e),
                Ok((body, p)) => Ok((ExprModel::Lambda(params, body), p)),
            }
        } else {
            match parse_expression(ts, pos + 1, col) {
                Err(e) => Err(e),
                Ok((body, p)) => Ok((ExprModel::Lambda(params, seq![body]), p)),
            }
        }
    } else {
        match advanced(ts, parse_primary(ts, pos, col), pos) {
            Err(e) => Err(e),
            Ok((param, p)) => parse_function(ts, p, col, params.push(param)),
        }
    }
}

/// Arguments on the callee's line: as many primary expressions as follow.
#[verifier::opaque]
pub open spec fn parse_inline_arguments(
    ts: Seq<TokenModel>,
    pos: int,
    col: usize,
    args: Seq<ExprModel>,
) -> ParsedList
    decreases ts.len() - pos, 2nat,
{
    if starts_primary(kind_at(ts, pos)) {
        match advanced(ts, parse_primary(ts, pos, col), pos) {
            Err(e) => Err(e),
            Ok((arg, p)) => parse_inline_arguments(ts, p, col, args.push(arg)),
        }
    } else {
        Ok((args, pos))
    }
}

/// Arguments in a block under the callee, one to a line, up to `EndBlock`.
/// Each is an expression of the level of `||`, ended like a statement.
#[verifier::opaque]
pub open spec fn parse_block_arguments(
    ts: Seq<TokenModel>,
    pos: int,
    col: usize,
    args: Seq<ExprModel>,
) -> ParsedList
    decreases ts.len() - pos, 24nat,
{
    let start = skip_line_ends(ts, pos);
    if is_at(ts, start, TokenType::EndBlock) {
        Ok((args, start + 1))
    } else {
        proof {
            lemma_skip_line_ends(ts, pos);
        }
        match advanced(ts, parse_binary(ts, start, col, Level::LogicalOr), start) {
            Err(e) => Err(e),
            Ok((arg, p)) => match advanced(ts, terminated(ts, p, arg), start) {
                Err(e) => Err(e),
                Ok((_, q)) => parse_block_arguments(ts, q, col, args.push(arg)),
            },
        }
    }
}

/// The arguments after `!`: a block of them if `BeginBlock` follows, else
/// those on the line.
#[verifier::opaque]
pub open spec fn parse_arguments(ts: Seq<TokenModel>, pos: int, col: usize) -> ParsedList
    decreases ts.len() - pos, 25nat,
{
    if is_at(ts, pos, TokenType::BeginBlock) {
        parse_block_arguments(ts, pos + 1, col, Seq::empty())
    } else {
        parse_inline_arguments(ts, pos, col, Seq::empty())
    }
}

/// What follows a callee: `.name`, which makes a field access; `!` and
/// arguments, which make a call; or arguments alone, unless the callee ended
/// in `EndBlock`.
#[verifier::opaque]
pub open spec fn parse_call_rest(
    ts: Seq<TokenModel>,
    pos: int,
    col: usize,
    callee: ExprModel,
) -> Parsed
    decreases ts.len() - pos, 3nat,
{
    if is_at(ts, pos, TokenType::Dot) {
        match kind_at(ts, pos + 1) {
            Lexeme::Identifier(name) => parse_call_rest(
                ts,
                pos + 2,
                col,
                ExprModel::Get(Box::new(callee), name),
            ),
            _ => Err(ParseError::ExpectedName),
        }
    } else if is_at(ts, pos, TokenType::Bang) {
        match advanced_list(ts, parse_arguments(ts, pos + 1, col), pos) {
            Err(e) => Err(e),
            Ok((args, p)) => parse_call_rest(ts, p, col, applied(callee, args)),
        }
    } else if starts_primary(kind_at(ts, pos)) && !is_at(ts, pos - 1, TokenType::EndBlock) {
        match advanced_list(ts, parse_inline_arguments(ts, pos, col, Seq::empty()), pos) {
            Err(e) => Err(e),
            Ok((args, p)) => parse_call_rest(ts, p, col, applied(callee, args)),
        }
    } else {
        Ok((callee, pos))
    }
}

/// A primary expression and what follows it as its callee. A function takes
/// nothing after it: its body runs as far as it can.
#[verifier::opaque]
pub open spec fn parse_call(ts: Seq<TokenModel>, pos: int, col: usize) -> Parsed
    decreases ts.len() - pos, 4nat,
{
    match advanced(ts, parse_primary(ts, pos, col), pos) {
        Err(e) => Err(e),
        Ok((e, p)) => if e is Lambda {
            Ok((e, p))
        } else {
            parse_call_rest(ts, p, col, e)
        },
    }
}

/// `-` or `!` before a unary expression, or a call.
#[verifier::opaque]
pub open spec fn parse_unary(ts: Seq<TokenModel>, pos: int, col: usize) -> Parsed
    decreases ts.len() - pos, 5nat,
{
    if is_at(ts, pos, TokenType::Minus) || is_at(ts, pos, TokenType::Bang) {
        match parse_unary(ts, pos + 1, col) {
            Err(e) => Err(e),
            Ok((operand, p)) => Ok((ExprModel::Unary(ts[pos], Box::new(operand)), p)),
        }
    } else {
        parse_call(ts, pos, col)
    }
}

/// The operands of `level`.
#[verifier::opaque]
pub open spec fn parse_operand(ts: Seq<TokenModel>, pos: int, col: usize, level: Level) -> Parsed
    decreases ts.len() - pos, 6 + 2 * level_rank(level),
{
    match level_below(level) {
        None => parse_unary(ts, pos, col),
        Some(below) => parse_binary(ts, pos, col, below),
    }
}

/// Operands of `level` with its operators between them, grouped from the left.
#[verifier::opaque]
pub open spec fn parse_binary(ts: Seq<TokenModel>, pos: int, col: usize, level: Level) -> Parsed
    decreases ts.len() - pos, 7 + 2 * level_rank(level),
{
    match advanced(ts, parse_operand(ts, pos, col, level), pos) {
        Err(e) => Err(e),
        Ok((lhs, p)) => parse_binary_rest(ts, p, col, level, lhs),
    }
}

/// What follows the operand `lhs` of `level`: an operator of the level and the
/// next operand, as often as there is one.
#[verifier::opaque]
pub open spec fn parse_binary_rest(
    ts: Seq<TokenModel>,
    pos: int,
    col: usize,
    level: Level,
    lhs: ExprModel,
) -> Parsed
    decreases ts.len() - pos, 0nat,
{
    let width = level_width(ts, pos, col, level);
    if width == 0 {
        Ok((lhs, pos))
    } else {
        match advanced(ts, parse_operand(ts, pos + width, col, level), pos + width) {
            Err(e) => Err(e),
            Ok((rhs, p)) => parse_binary_rest(
                ts,
                p,
                col,
                level,
                ExprModel::Binary(Box::new(lhs), ts[pos + width - 1], Box::new(rhs)),
            ),
        }
    }
}

/// Expressions of the level of `||` with `|>` between them, grouped from the
/// left; each `|>` rewrites to a call, see [`piped`].
#[verifier::opaque]
pub open spec fn parse_pipeline(ts: Seq<TokenModel>, pos: int, col: usize) -> Parsed
    decreases ts.len() - pos, 19nat,
{
    match advanced(ts, parse_binary(ts, pos, col, Level::LogicalOr), pos) {
        Err(e) => Err(e),
        Ok((lhs, p)) => parse_pipeline_rest(ts, p, col, lhs),
    }
}

#[verifier::opaque]
pub open spec fn parse_pipeline_rest(
    ts: Seq<TokenModel>,
    pos: int,
    col: usize,
    lhs: ExprModel,
) -> Parsed
    decreases ts.len() - pos, 0nat,
{
    let width = operator_width(ts, pos, col, TokenType::Pipeline);
    if width == 0 {
        Ok((lhs, pos))
    } else {
        match advanced(ts, parse_binary(ts, pos + width, col, Level::LogicalOr), pos + width) {
            Err(e) => Err(e),
            Ok((rhs, p)) => match piped(lhs, rhs) {
                None => Err(ParseError::ExpectedCall),
                Some(call) => parse_pipeline_rest(ts, p, col, call),
            },
        }
    }
}

/// The body of `if`, `else` or `while`: a block if `BeginBlock` stands at
/// `pos`, else one expression.
#[verifier::opaque]
pub open spec fn parse_body(ts: Seq<TokenModel>, pos: int, col: usize) -> Parsed
    decreases ts.len() - pos, 21nat,
{
    if is_at(ts, pos, TokenType::BeginBlock) {
        match parse_block(ts, pos + 1, Seq::empty()) {
            Err(e) => Err(e),
            Ok((stmts, p)) => Ok((ExprModel::Block(stmts), p)),
        }
    } else {
        parse_expression(ts, pos, col)
    }
}

/// An expression: `while` condition `:` body; `if` condition `:` body, with
/// `else` and a body if `else` follows, the `:` after `else` being optional;
/// or a pipeline.
#[verifier::opaque]
pub open spec fn parse_expression(ts: Seq<TokenModel>, pos: int, col: usize) -> Parsed
    decreases ts.len() - pos, 20nat,
{
    if is_at(ts, pos, TokenType::While) {
        match advanced(ts, parse_expression(ts, pos + 1, col), pos + 1) {
            Err(e) => Err(e),
            Ok((cond, p)) => if !is_at(ts, p, TokenType::Colon) {
                Err(ParseError::ExpectedColon)
            } else {
                match parse_body(ts, p + 1, col) {
                    Err(e) => Err(e),
                    Ok((body, q)) => Ok((ExprModel::While(Box::new(cond), Box::new(body)), q)),
                }
            },
        }
    } else if is_at(ts, pos, TokenType::If) {
        match advanced(ts, parse_expression(ts, pos + 1, col), pos + 1) {
            Err(e) => Err(e),
            Ok((cond, p)) => if !is_at(ts, p, TokenType::Colon) {
                Err(ParseError::ExpectedColon)
            } else {
                match advanced(ts, parse_body(ts, p + 1, col), p + 1) {
                    Err(e) => Err(e),
                    Ok((then, q)) => if is_at(ts, q, TokenType::Else) {
                        let start = if is_at(ts, q + 1, TokenType::Colon) {
                            q + 2
                        } else {
                            q + 1
                        };
                        match parse_body(ts, start, col) {
                            Err(e) => Err(e),
                            Ok((otherwise, r)) => Ok(
                                (
                                    ExprModel::If(
                                        Box::new(cond),
                                        Box::new(then),
                                        Some(Box::new(otherwise)),
                                    ),
                                    r,
                                ),
                            ),
                        }
                    } else {
                        Ok((ExprModel::If(Box::new(cond), Box::new(then), None), q))
                    },
                }
            },
        }
    } else {
        parse_pipeline(ts, pos, col)
    }
}

/// The rest of a declaration after its target, from the `:` at `pos`: the
/// target must be a name, `=` must follow the `:`, then comes the initial value.
#[verifier::opaque]
pub open spec fn parse_declaration(
    ts: Seq<TokenModel>,
    pos: int,
    col: usize,
    target: ExprModel,
) -> Parsed
    decreases ts.len() - pos, 21nat,
{
    if !is_name(target) {
        Err(ParseError::InvalidTarget)
    } else if !is_at(ts, pos, TokenType::Colon) || !is_at(ts, pos + 1, TokenType::Equal) {
        Err(ParseError::MalformedDeclaration)
    } else {
        match parse_expression(ts, pos + 2, col) {
            Err(e) => Err(e),
            Ok((init, p)) => Ok(
                (ExprModel::Declaration(Box::new(target), Some(Box::new(init))), p),
            ),
        }
    }
}

/// The rest of an assignment after its target, from the `=` at `pos`: the
/// target must be a name, then comes the new value.
#[verifier::opaque]
pub open spec fn parse_assignment(
    ts: Seq<TokenModel>,
    pos: int,
    col: usize,
    target: ExprModel,
) -> Parsed
    decreases ts.len() - pos, 21nat,
{
    if !is_name(target) {
        Err(ParseError::InvalidTarget)
    } else if !is_at(ts, pos, TokenType::Equal) {
        Err(ParseError::UnexpectedToken)
    } else {
        match parse_expression(ts, pos + 1, col) {
            Err(e) => Err(e),
            Ok((value, p)) => Ok((ExprModel::Assignment(Box::new(target), Box::new(value)), p)),
        }
    }
}

/// A statement without what ends it: an expression, and if `:` or `=` follows
/// it, the declaration or assignment that it is the target of.
#[verifier::opaque]
pub open spec fn parse_statement_form(ts: Seq<TokenModel>, pos: int, col: usize) -> Parsed
    decreases ts.len() - pos, 22nat,
{
    match advanced(ts, parse_expression(ts, pos, col), pos) {
        Err(e) => Err(e),
        Ok((first, p)) => if is_at(ts, p, TokenType::Colon) {
            parse_declaration(ts, p, col, first)
        } else if is_at(ts, p, TokenType::Equal) {
            parse_assignment(ts, p, col, first)
        } else {
            Ok((first, p))
        },
    }
}

/// A statement: an expression, a declaration `name := value` or an assignment
/// `name = value`, and then what ends it, see [`terminated`]. The column of
/// its first token is the column that `&&`, `||` and `|>` on a later line
/// must be indented under.
#[verifier::opaque]
pub open spec fn parse_statement(ts: Seq<TokenModel>, pos: int) -> Parsed
    decreases ts.len() - pos, 23nat,
{
    match parse_statement_form(ts, pos, col_at(ts, pos)) {
        Err(e) => Err(e),
        Ok((e, p)) => terminated(ts, p, e),
    }
}

/// The rest of a block after the statements `stmts`: statements up to
/// `EndBlock`, with empty lines between them passed over.
#[verifier::opaque]
pub open spec fn parse_block(ts: Seq<TokenModel>, pos: int, stmts: Seq<ExprModel>) -> ParsedList
    decreases ts.len() - pos, 26nat,
{
    let start = skip_line_ends(ts, pos);
    if is_at(ts, start, TokenType::EndBlock) {
        Ok((stmts, start + 1))
    } else {
        proof {
            lemma_skip_line_ends(ts, pos);
        }
        match advanced(ts, parse_statement(ts, start), start) {
            Err(e) => Err(e),
            Ok((s, p)) => parse_block(ts, p, stmts.push(s)),
        }
    }
}

/// The rest of a program after the statements `stmts`: statements up to
/// `EndOfFile` or the end of the tokens, with empty lines between them passed
/// over.
#[verifier::opaque]
pub open spec fn parse_program(ts: Seq<TokenModel>, pos: int, stmts: Seq<ExprModel>) -> Result<
    Seq<ExprModel>,
    ParseError,
>
    decreases ts.len() - pos,
{
    let start = skip_line_ends(ts, pos);
    if is_at(ts, start, TokenType::EndOfFile) {
        Ok(stmts)
    } else {
        proof {
            lemma_skip_line_ends(ts, pos);
        }
        match advanced(ts, parse_statement(ts, start), start) {
            Err(e) => Err(e),
            Ok((s, p)) => parse_program(ts, p, stmts.push(s)),
        }
    }
}

/// The statements of a token sequence, or the reason why it has none.
pub open spec fn parse_tokens(ts: Seq<TokenModel>) -> Result<Seq<ExprModel>, ParseError> {
    parse_program(ts, 0, Seq::empty())
}

} // verus!
