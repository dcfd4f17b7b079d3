//! The syntax tree, and the recursive-descent parser that builds it from tokens.
//!
//! What a token sequence parses to is defined in [`crate::grammar`];
//! [`Parser::parse`] computes exactly that.
use crate::grammar::{
    advanced, applied, is_at, is_name, kind_at, lemma_skip_line_ends, level_rank, level_width,
    name_of, operator_width, parse_arguments, parse_assignment, parse_binary, parse_binary_rest,
    parse_block, parse_block_arguments, parse_body, parse_call, parse_call_rest,
    parse_declaration, parse_expression, parse_function, parse_inline_arguments, parse_operand,
    parse_pipeline, parse_pipeline_rest, parse_primary, parse_program, parse_statement,
    parse_statement_form, parse_tokens, parse_unary, piped, skip_line_ends, starts_primary,
    terminated, Level, ParseError, Parsed, ParsedList,
};
use crate::scanner::{token_models, Lexeme, Token, TokenModel, TokenType};
use vstd::prelude::*;
use vstd::string::*;

verus! {

/// A value of the language. `Identifier` is a name that has not been looked up
/// yet; `Lambda` holds its parameters, its body, and the scope it was made in.
#[derive(Debug)]
pub enum Value {
    String(String),
    Int(i32),
    Bool(bool),
    Identifier(String),
    Lambda(Vec<Expr>, Vec<Expr>, usize),
}

/// A node of the syntax tree.
#[derive(Debug)]
pub enum Expr {
    Binary(Box<Expr>, Token, Box<Expr>),
    Unary(Token, Box<Expr>),
    Literal(Value),
    Group(Box<Expr>),
    FunctionCall(Box<Expr>, Vec<Expr>),
    Get(Box<Expr>, String),
    Declaration(Box<Expr>, Option<Box<Expr>>),
    Assignment(Box<Expr>, Box<Expr>),
    Block(Vec<Expr>),
    While(Box<Expr>, Box<Expr>),
    If(Box<Expr>, Box<Expr>, Option<Box<Expr>>),
    BuiltinFunction(Token),
    Lambda(Vec<Expr>, Vec<Expr>),
}

/// What a [`Value`] is in contracts.
pub enum ValueModel {
    String(Seq<char>),
    Int(i32),
    Bool(bool),
    Identifier(Seq<char>),
    Lambda(Seq<ExprModel>, Seq<ExprModel>, usize),
}

/// What an [`Expr`] is in contracts.
pub enum ExprModel {
    Binary(Box<ExprModel>, TokenModel, Box<ExprModel>),
    Unary(TokenModel, Box<ExprModel>),
    Literal(ValueModel),
    Group(Box<ExprModel>),
    FunctionCall(Box<ExprModel>, Seq<ExprModel>),
    Get(Box<ExprModel>, Seq<char>),
    Declaration(Box<ExprModel>, Option<Box<ExprModel>>),
    Assignment(Box<ExprModel>, Box<ExprModel>),
    Block(Seq<ExprModel>),
    While(Box<ExprModel>, Box<ExprModel>),
    If(Box<ExprModel>, Box<ExprModel>, Option<Box<ExprModel>>),
    BuiltinFunction(TokenModel),
    Lambda(Seq<ExprModel>, Seq<ExprModel>),
}

pub open spec fn value_model(v: Value) -> ValueModel
    decreases v, 0nat,
{
    match v {
        Value::String(s) => ValueModel::String(s@),
        Value::Int(n) => ValueModel::Int(n),
        Value::Bool(b) => ValueModel::Bool(b),
        Value::Identifier(s) => ValueModel::Identifier(s@),
        Value::Lambda(params, body, scope) => ValueModel::Lambda(
            expr_models(params@),
            expr_models(body@),
            scope,
        ),
    }
}

/// The models of a sequence of expressions, one for one.
pub open spec fn expr_models(exprs: Seq<Expr>) -> Seq<ExprModel>
    decreases exprs, 1nat,
{
    Seq::new(
        exprs.len(),
        |i: int|
            if 0 <= i < exprs.len() {
                expr_model(exprs[i])
            } else {
                arbitrary()
            },
    )
}

pub open spec fn expr_model(e: Expr) -> ExprModel
    decreases e, 0nat,
{
    match e {
        Expr::Binary(lhs, op, rhs) => ExprModel::Binary(
            Box::new(expr_model(*lhs)),
            op@,
            Box::new(expr_model(*rhs)),
        ),
        Expr::Unary(op, operand) => ExprModel::Unary(op@, Box::new(expr_model(*operand))),
        Expr::Literal(v) => ExprModel::Literal(value_model(v)),
        Expr::Group(inner) => ExprModel::Group(Box::new(expr_model(*inner))),
        Expr::FunctionCall(callee, args) => ExprModel::FunctionCall(
            Box::new(expr_model(*callee)),
            expr_models(args@),
        ),
        Expr::Get(receiver, name) => ExprModel::Get(Box::new(expr_model(*receiver)), name@),
        Expr::Declaration(target, init) => ExprModel::Declaration(
            Box::new(expr_model(*target)),
            match init {
                Some(e) => Some(Box::new(expr_model(*e))),
                None => None,
            },
        ),
        Expr::Assignment(target, value) => ExprModel::Assignment(
            Box::new(expr_model(*target)),
            Box::new(expr_model(*value)),
        ),
        Expr::Block(stmts) => ExprModel::Block(expr_models(stmts@)),
        Expr::While(cond, body) => ExprModel::While(
            Box::new(expr_model(*cond)),
            Box::new(expr_model(*body)),
        ),
        Expr::If(cond, then, otherwise) => ExprModel::If(
            Box::new(expr_model(*cond)),
            Box::new(expr_model(*then)),
            match otherwise {
                Some(e) => Some(Box::new(expr_model(*e))),
                None => None,
            },
        ),
        Expr::BuiltinFunction(name) => ExprModel::BuiltinFunction(name@),
        Expr::Lambda(params, body) => ExprModel::Lambda(expr_models(params@), expr_models(body@)),
    }
}

impl View for Value {
    type V = ValueModel;

    open spec fn view(&self) -> ValueModel {
        value_model(*self)
    }
}

impl View for Expr {
    type V = ExprModel;

    open spec fn view(&self) -> ExprModel {
        expr_model(*self)
    }
}

/// The models of a sequence of values, one for one.
pub open spec fn value_models(values: Seq<Value>) -> Seq<ValueModel> {
    Seq::new(values.len(), |i: int| values[i]@)
}

pub proof fn lemma_expr_models_push(exprs: Seq<Expr>, e: Expr)
    ensures
        expr_models(exprs.push(e)) == expr_models(exprs).push(e@),
{
    assert(expr_models(exprs.push(e)) =~= expr_models(exprs).push(e@));
}

pub proof fn lemma_value_models_push(values: Seq<Value>, v: Value)
    ensures
        value_models(values.push(v)) == value_models(values).push(v@),
{
    assert(value_models(values.push(v)) =~= value_models(values).push(v@));
}

/// A copy of each expression of `exprs`.
pub fn clone_exprs(exprs: &Vec<Expr>) -> (r: Vec<Expr>)
    ensures
        expr_models(r@) == expr_models(exprs@),
    decreases *exprs, 1nat,
{
    let mut out: Vec<Expr> = Vec::new();
    let mut i: usize = 0;
    while i < exprs.len()
        invariant
            i <= exprs.len(),
            out.len() == i,
            forall|j: int| 0 <= j < i ==> out@[j]@ == exprs@[j]@,
        decreases exprs.len() - i,
    {
        out.push(exprs[i].clone());
        i += 1;
    }
    assert(expr_models(out@) =~= expr_models(exprs@));
    out
}

impl Clone for Value {
    fn clone(&self) -> (r: Self)
        ensures
            r@ == self@,
        decreases *self, 0nat,
    {
        match self {
            Value::String(s) => Value::String(s.clone()),
            Value::Int(n) => Value::Int(*n),
            Value::Bool(b) => Value::Bool(*b),
            Value::Identifier(s) => Value::Identifier(s.clone()),
            Value::Lambda(params, body, scope) => Value::Lambda(
                clone_exprs(params),
                clone_exprs(body),
                *scope,
            ),
        }
    }
}

impl Clone for Expr {
    fn clone(&self) -> (r: Self)
        ensures
            r@ == self@,
        decreases *self, 0nat,
    {
        match self {
            Expr::Binary(lhs, op, rhs) => Expr::Binary(
                Box::new((&**lhs).clone()),
                op.clone(),
                Box::new((&**rhs).clone()),
            ),
            Expr::Unary(op, operand) => Expr::Unary(op.clone(), Box::new((&**operand).clone())),
            Expr::Literal(v) => Expr::Literal(v.clone()),
            Expr::Group(inner) => Expr::Group(Box::new((&**inner).clone())),
            Expr::FunctionCall(callee, args) => Expr::FunctionCall(
                Box::new((&**callee).clone()),
                clone_exprs(args),
            ),
            Expr::Get(receiver, name) => Expr::Get(Box::new((&**receiver).clone()), name.clone()),
            Expr::Declaration(target, init) => Expr::Declaration(
                Box::new((&**target).clone()),
                match init {
                    Some(e) => Some(Box::new((&**e).clone())),
                    None => None,
                },
            ),
            Expr::Assignment(target, value) => Expr::Assignment(
                Box::new((&**target).clone()),
                Box::new((&**value).clone()),
            ),
            Expr::Block(stmts) => Expr::Block(clone_exprs(stmts)),
            Expr::While(cond, body) => Expr::While(
                Box::new((&**cond).clone()),
                Box::new((&**body).clone()),
            ),
            Expr::If(cond, then, otherwise) => Expr::If(
                Box::new((&**cond).clone()),
                Box::new((&**then).clone()),
                match otherwise {
                    Some(e) => Some(Box::new((&**e).clone())),
                    None => None,
                },
            ),
            Expr::BuiltinFunction(name) => Expr::BuiltinFunction(name.clone()),
            Expr::Lambda(params, body) => Expr::Lambda(clone_exprs(params), clone_exprs(body)),
        }
    }
}

/// Two values are equal if they are integers, booleans or strings of the same
/// content. A name or a function equals nothing, not even itself.
pub open spec fn values_equal(a: ValueModel, b: ValueModel) -> bool {
    match (a, b) {
        (ValueModel::Int(x), ValueModel::Int(y)) => x == y,
        (ValueModel::Bool(x), ValueModel::Bool(y)) => x == y,
        (ValueModel::String(x), ValueModel::String(y)) => x == y,
        _ => false,
    }
}

impl PartialEq for Value {
    fn eq(&self, other: &Self) -> (r: bool) {
        match (self, other) {
            (Value::Int(x), Value::Int(y)) => *x == *y,
            (Value::Bool(x), Value::Bool(y)) => *x == *y,
            (Value::String(x), Value::String(y)) => *x == *y,
            _ => false,
        }
    }
}

impl vstd::std_specs::cmp::PartialEqSpecImpl for Value {
    open spec fn obeys_eq_spec() -> bool {
        true
    }

    open spec fn eq_spec(&self, other: &Self) -> bool {
        values_equal(self@, other@)
    }
}

// ---------------------------------------------------------------------------
// The parser
// ---------------------------------------------------------------------------

/// Whether the expression is a bare name.
pub fn is_identifier(e: &Expr) -> (r: bool)
    ensures
        r == is_name(e@),
{
    match e {
        Expr::Literal(v) => {
            assert(e@ == ExprModel::Literal(v@));
            match v {
                Value::Identifier(_) => true,
                _ => false,
            }
        },
        _ => false,
    }
}

/// Whether the expression is a function.
pub fn is_lambda(e: &Expr) -> (r: bool)
    ensures
        r == (e@ is Lambda),
{
    match e {
        Expr::Lambda(_, _) => true,
        _ => false,
    }
}

/// The expression that is the value `v`.
pub fn literal(v: Value) -> (r: Expr)
    ensures
        r@ == ExprModel::Literal(v@),
{
    Expr::Literal(v)
}

/// The expression that is the bare name `name`.
pub fn name_expr(name: String) -> (r: Expr)
    ensures
        r@ == name_of(name@),
{
    let v = Value::Identifier(name);
    assert(v@ == ValueModel::Identifier(name@));
    Expr::Literal(v)
}

/// The call of `callee` with `args`, see [`applied`].
pub fn apply(callee: Expr, args: Vec<Expr>) -> (r: Expr)
    ensures
        r@ == applied(callee@, expr_models(args@)),
{
    match callee {
        Expr::Get(receiver, name) => {
            let mut args = args;
            let ghost before = args@;
            args.insert(0, *receiver);
            assert(expr_models(args@) =~= seq![(*receiver)@] + expr_models(before));
            Expr::FunctionCall(Box::new(name_expr(name)), args)
        },
        other => Expr::FunctionCall(Box::new(other), args),
    }
}

/// `lhs |> rhs` as a call, see [`piped`].
pub fn pipe(lhs: Expr, rhs: Expr) -> (r: Result<Expr, ParseError>)
    ensures
        match piped(lhs@, rhs@) {
            Some(call) => r is Ok && r->Ok_0@ == call,
            None => r == Err::<Expr, ParseError>(ParseError::ExpectedCall),
        },
{
    match rhs {
        Expr::FunctionCall(callee, args) => {
            let mut args = args;
            let ghost before = args@;
            args.insert(0, lhs);
            assert(expr_models(args@) =~= seq![lhs@] + expr_models(before));
            Ok(Expr::FunctionCall(callee, args))
        },
        Expr::Literal(v) => {
            assert(rhs@ == ExprModel::Literal(v@));
            match v {
                Value::Identifier(name) => {
                    let mut args: Vec<Expr> = Vec::new();
                    args.push(lhs);
                    assert(expr_models(args@) =~= seq![lhs@]);
                    Ok(Expr::FunctionCall(Box::new(name_expr(name)), args))
                },
                _ => Err(ParseError::ExpectedCall),
            }
        },
        Expr::BuiltinFunction(name) => {
            let mut args: Vec<Expr> = Vec::new();
            args.push(lhs);
            assert(expr_models(args@) =~= seq![lhs@]);
            let callee = Expr::BuiltinFunction(name);
            assert(callee@ == rhs@);
            Ok(Expr::FunctionCall(Box::new(callee), args))
        },
        _ => Err(ParseError::ExpectedCall),
    }
}

/// Reads a token sequence into statements. Between two calls of
/// [`Parser::parse`] it holds nothing of interest.
pub struct Parser {
    tokens: Vec<Token>,
    index: usize,
    col: usize,
}

impl Parser {
    /// The tokens that the parser reads.
    pub closed spec fn stream(&self) -> Seq<TokenModel> {
        token_models(self.tokens@)
    }

    /// The position of the next token.
    pub closed spec fn position(&self) -> int {
        self.index as int
    }

    /// The column in which the statement began that the parser is in: the
    /// column that `&&`, `||` and `|>` on a later line must be indented under.
    pub closed spec fn anchor(&self) -> usize {
        self.col
    }

    /// The position lies in the token sequence, or at its end.
    pub closed spec fn wf(&self) -> bool {
        self.index <= self.tokens.len()
    }

    /// Whether `self` is what a parser leaves that started as `before` and
    /// whose grammar rule gives `expected`: the same tokens and column; for a
    /// tree, that tree as result and the position after it, which lies
    /// further on; else the error as result.
    pub closed spec fn parsed(
        &self,
        before: &Parser,
        r: Result<Expr, ParseError>,
        expected: Parsed,
    ) -> bool {
        &&& self.tokens == before.tokens
        &&& self.col == before.col
        &&& self.index <= self.tokens.len()
        &&& match expected {
            Ok((e, p)) => r is Ok && r->Ok_0@ == e && self.index == p && before.index < p,
            Err(e) => r == Err::<Expr, ParseError>(e),
        }
    }

    /// [`Parser::parsed`], for a rule that gives several trees.
    pub closed spec fn parsed_list(
        &self,
        before: &Parser,
        r: Result<Vec<Expr>, ParseError>,
        expected: ParsedList,
    ) -> bool {
        &&& self.tokens == before.tokens
        &&& self.col == before.col
        &&& self.index <= self.tokens.len()
        &&& match expected {
            Ok((e, p)) => r is Ok && expr_models(r->Ok_0@) == e && self.index == p && before.index
                <= p,
            Err(e) => r == Err::<Vec<Expr>, ParseError>(e),
        }
    }

    /// A parser that holds no tokens, stands at their start, and is in no
    /// statement yet: its column is 0.
    pub fn new() -> (r: Self)
        ensures
            r.wf(),
            r.position() == 0,
            r.stream() == Seq::<TokenModel>::empty(),
            r.anchor() == 0,
    {
        let r = Parser { tokens: Vec::new(), index: 0, col: 0 };
        assert(token_models(r.tokens@) =~= Seq::empty());
        r
    }

    /// The statements of `tokens`: those of [`parse_tokens`], or its error.
    pub fn parse(&mut self, tokens: Vec<Token>) -> (r: Result<Vec<Expr>, ParseError>)
        ensures
            final(self).wf(),
            match parse_tokens(token_models(tokens@)) {
                Ok(stmts) => r is Ok && expr_models(r->Ok_0@) == stmts,
                Err(e) => r == Err::<Vec<Expr>, ParseError>(e),
            },
    {
        reveal(parse_program);
        self.tokens = tokens;
        self.index = 0;
        self.col = 0;
        let ghost ts = token_models(tokens@);
        let mut res: Vec<Expr> = Vec::new();
        assert(expr_models(res@) =~= Seq::empty());
        loop
            invariant
                self.tokens == tokens,
                ts == token_models(tokens@),
                self.index <= self.tokens.len(),
                parse_program(ts, self.index as int, expr_models(res@)) == parse_tokens(ts),
            decreases self.tokens.len() - self.index,
        {
            reveal(parse_program);
            self.skip_lines();
            if self.check(&TokenType::EndOfFile) {
                return Ok(res);
            }
            let ghost before = res@;
            match self.statement() {
                Err(e) => {
                    return Err(e);
                },
                Ok(s) => {
                    proof {
                        lemma_expr_models_push(before, s);
                    }
                    res.push(s);
                },
            }
        }
    }

    /// Whether the next token is `token_type`.
    fn check(&self, token_type: &TokenType) -> (r: bool)
        requires
            self.wf(),
        ensures
            r == is_at(self.stream(), self.position(), *token_type),
    {
        if self.index < self.tokens.len() {
            self.tokens[self.index].token_type.same(token_type)
        } else {
            TokenType::EndOfFile.same(token_type)
        }
    }

    /// Goes past the next token and hands it out.
    fn advance(&mut self) -> (r: Token)
        requires
            old(self).index < old(self).tokens.len(),
        ensures
            final(self).tokens == old(self).tokens,
            final(self).col == old(self).col,
            final(self).index == old(self).index + 1,
            r@ == old(self).stream()[old(self).position()],
    {
        self.index += 1;
        self.previous()
    }

    /// The token before the next one.
    fn previous(&self) -> (r: Token)
        requires
            0 < self.index <= self.tokens.len(),
        ensures
            r@ == self.stream()[self.position() - 1],
    {
        self.tokens[self.index - 1].clone()
    }

    /// The next token, if there is one.
    fn peek(&self) -> (r: Option<Token>)
        requires
            self.wf(),
        ensures
            match r {
                Some(t) => self.position() < self.stream().len() && t@ == self.stream()[self.position()],
                None => self.position() >= self.stream().len(),
            },
    {
        if self.index >= self.tokens.len() {
            return None;
        }
        Some(self.tokens[self.index].clone())
    }

    /// The token after the next one, if there is one.
    fn peek_next(&self) -> (r: Option<Token>)
        requires
            self.wf(),
        ensures
            match r {
                Some(t) => self.position() + 1 < self.stream().len() && t@ == self.stream()[self.position() + 1],
                None => self.position() + 1 >= self.stream().len(),
            },
    {
        if self.index >= self.tokens.len() || self.index + 1 >= self.tokens.len() {
            return None;
        }
        Some(self.tokens[self.index + 1].clone())
    }

    /// Goes past the next token if it is `token_type`.
    fn matches(&mut self, token_type: &TokenType) -> (r: bool)
        requires
            old(self).wf(),
        ensures
            final(self).tokens == old(self).tokens,
            final(self).col == old(self).col,
            r == (old(self).position() < old(self).stream().len() && is_at(
                old(self).stream(),
                old(self).position(),
                *token_type,
            )),
            final(self).index == old(self).index + (if r {
                1int
            } else {
                0int
            }),
    {
        if self.index < self.tokens.len() && self.check(token_type) {
            self.index += 1;
            true
        } else {
            false
        }
    }

    /// Goes past the next two tokens if they are `first` and `second`.
    fn matches_all(&mut self, first: &TokenType, second: &TokenType) -> (r: bool)
        requires
            old(self).wf(),
        ensures
            final(self).tokens == old(self).tokens,
            final(self).col == old(self).col,
            r == (old(self).position() + 1 < old(self).stream().len() && is_at(
                old(self).stream(),
                old(self).position(),
                *first,
            ) && is_at(old(self).stream(), old(self).position() + 1, *second)),
            final(self).index == old(self).index + (if r {
                2int
            } else {
                0int
            }),
    {
        if self.index < self.tokens.len() && self.index + 1 < self.tokens.len()
            && self.tokens[self.index].token_type.same(first) && self.tokens[self.index
            + 1].token_type.same(second) {
            self.index += 2;
            true
        } else {
            false
        }
    }

    /// Goes past the operator `op`, which may stand here or open the next
    /// line, see [`operator_width`].
    fn matches_over_line(&mut self, op: &TokenType) -> (r: bool)
        requires
            old(self).wf(),
            op@ != Lexeme::Mark(TokenType::EndOfFile),
        ensures
            final(self).tokens == old(self).tokens,
            final(self).col == old(self).col,
            final(self).index == old(self).index + operator_width(
                old(self).stream(),
                old(self).position(),
                old(self).col,
                *op,
            ),
            final(self).index <= final(self).tokens.len(),
            r == (final(self).index > old(self).index),
    {
        if self.matches(op) {
            return true;
        }
        let deeper = match self.peek_next() {
            Some(t) => self.col < t.location.col,
            None => false,
        };
        deeper && self.matches_all(&TokenType::LineEnd, op)
    }

    /// Goes past the `LineEnd` tokens that stand here.
    fn skip_lines(&mut self)
        requires
            old(self).wf(),
        ensures
            final(self).tokens == old(self).tokens,
            final(self).col == old(self).col,
            final(self).index == skip_line_ends(old(self).stream(), old(self).position()),
            old(self).index <= final(self).index <= final(self).tokens.len(),
    {
        proof {
            lemma_skip_line_ends(self.stream(), self.position());
        }
        while self.matches(&TokenType::LineEnd)
            invariant
                self.tokens == old(self).tokens,
                self.col == old(self).col,
                old(self).index <= self.index <= self.tokens.len(),
                skip_line_ends(self.stream(), self.position()) == skip_line_ends(
                    old(self).stream(),
                    old(self).position(),
                ),
            decreases self.tokens.len() - self.index,
        {
        }
    }

    /// Goes past an operator of `level`, see [`level_width`].
    fn operator(&mut self, level: Level) -> (r: bool)
        requires
            old(self).wf(),
        ensures
            final(self).tokens == old(self).tokens,
            final(self).col == old(self).col,
            final(self).index == old(self).index + level_width(
                old(self).stream(),
                old(self).position(),
                old(self).col,
                level,
            ),
            final(self).index <= final(self).tokens.len(),
            r == (final(self).index > old(self).index),
    {
        match level {
            Level::Factor => self.matches(&TokenType::Star) || self.matches(&TokenType::Slash)
                || self.matches(&TokenType::SlashSlash) || self.matches(&TokenType::Mod),
            Level::Term => self.matches(&TokenType::Minus) || self.matches(&TokenType::Plus),
            Level::Comparison => self.matches(&TokenType::Greater) || self.matches(
                &TokenType::GreaterEqual,
            ) || self.matches(&TokenType::Less) || self.matches(&TokenType::LessEqual),
            Level::Equality => self.matches(&TokenType::EqualEqual) || self.matches(
                &TokenType::BangEqual,
            ),
            Level::LogicalAnd => self.matches_over_line(&TokenType::AndAnd),
            Level::LogicalOr => self.matches_over_line(&TokenType::OrOr),
        }
    }

    /// The statements of a block, after its `BeginBlock`.
    fn block(&mut self) -> (r: Result<Vec<Expr>, ParseError>)
        requires
            old(self).wf(),
        ensures
            final(self).parsed_list(
                old(self),
                r,
                parse_block(old(self).stream(), old(self).position(), Seq::empty()),
            ),
        decreases old(self).tokens.len() - old(self).index, 31nat,
    {
        reveal(parse_block);
        reveal(parse_statement);
        let mut res: Vec<Expr> = Vec::new();
        assert(expr_models(res@) =~= Seq::empty());
        loop
            invariant
                self.tokens == old(self).tokens,
                self.col == old(self).col,
                old(self).index <= self.index <= self.tokens.len(),
                parse_block(self.stream(), self.position(), expr_models(res@)) == parse_block(
                    old(self).stream(),
                    old(self).position(),
                    Seq::empty(),
                ),
            decreases self.tokens.len() - self.index,
        {
            reveal(parse_block);
            reveal(parse_statement);
            self.skip_lines();
            if self.matches(&TokenType::EndBlock) {
                return Ok(res);
            }
            let ghost before = res@;
            match self.statement() {
                Err(e) => {
                    return Err(e);
                },
                Ok(s) => {
                    proof {
                        lemma_expr_models_push(before, s);
                    }
                    res.push(s);
                },
            }
        }
    }

    /// The body of `if`, `else` or `while`.
    fn body(&mut self) -> (r: Result<Expr, ParseError>)
        requires
            old(self).wf(),
        ensures
            final(self).parsed(
                old(self),
                r,
                parse_body(old(self).stream(), old(self).position(), old(self).col),
            ),
        decreases old(self).tokens.len() - old(self).index, 28nat,
    {
        reveal(parse_body);
        reveal(parse_block);
        reveal(parse_expression);
        if self.matches(&TokenType::BeginBlock) {
            match self.block() {
                Err(e) => Err(e),
                Ok(stmts) => Ok(Expr::Block(stmts)),
            }
        } else {
            self.expression()
        }
    }

    fn control_expression(&mut self) -> (r: Result<Expr, ParseError>)
        requires
            old(self).wf(),
        ensures
            final(self).parsed(
                old(self),
                r,
                parse_expression(old(self).stream(), old(self).position(), old(self).col),
            ),
        decreases old(self).tokens.len() - old(self).index, 26nat,
    {
        reveal(parse_expression);
        reveal(parse_body);
        reveal(parse_pipeline);
        if self.matches(&TokenType::While) {
            let cond = match self.expression() {
                Err(e) => {
                    return Err(e);
                },
                Ok(e) => e,
            };
            if !self.matches(&TokenType::Colon) {
                return Err(ParseError::ExpectedColon);
            }
            match self.body() {
                Err(e) => Err(e),
                Ok(body) => Ok(Expr::While(Box::new(cond), Box::new(body))),
            }
        } else if self.matches(&TokenType::If) {
            let cond = match self.expression() {
                Err(e) => {
                    return Err(e);
                },
                Ok(e) => e,
            };
            if !self.matches(&TokenType::Colon) {
                return Err(ParseError::ExpectedColon);
            }
            let if_branch = match self.body() {
                Err(e) => {
                    return Err(e);
                },
                Ok(e) => e,
            };
            if self.matches(&TokenType::Else) {
                self.matches(&TokenType::Colon);
                match self.body() {
                    Err(e) => Err(e),
                    Ok(else_branch) => Ok(
                        Expr::If(Box::new(cond), Box::new(if_branch), Some(Box::new(else_branch))),
                    ),
                }
            } else {
                Ok(Expr::If(Box::new(cond), Box::new(if_branch), None))
            }
        } else {
            self.pipeline()
        }
    }

    /// A statement, see [`parse_statement`].
    fn statement(&mut self) -> (r: Result<Expr, ParseError>)
        requires
            old(self).wf(),
        ensures
            final(self).parsed(
                old(self),
                r,
                advanced(
                    old(self).stream(),
                    parse_statement(old(self).stream(), old(self).position()),
                    old(self).position(),
                ),
            ),
        decreases old(self).tokens.len() - old(self).index, 30nat,
    {
        reveal(parse_statement);
        reveal(parse_statement_form);
        let outer = self.col;
        self.col = match self.peek() {
            Some(first) => first.location.col,
            None => 0,
        };
        let r = self.statement_form();
        let r = match r {
            Err(e) => Err(e),
            Ok(e) => self.terminator(e),
        };
        self.col = outer;
        r
    }

    /// A statement without what ends it, see [`parse_statement_form`].
    fn statement_form(&mut self) -> (r: Result<Expr, ParseError>)
        requires
            old(self).wf(),
        ensures
            final(self).parsed(
                old(self),
                r,
                parse_statement_form(old(self).stream(), old(self).position(), old(self).col),
            ),
        decreases old(self).tokens.len() - old(self).index, 29nat,
    {
        reveal(parse_statement_form);
        reveal(parse_expression);
        reveal(parse_declaration);
        reveal(parse_assignment);
        let expr = match self.expression() {
            Err(e) => {
                return Err(e);
            },
            Ok(e) => e,
        };
        if self.check(&TokenType::Colon) {
            self.declaration(expr)
        } else if self.check(&TokenType::Equal) {
            self.assignment(expr)
        } else {
            Ok(expr)
        }
    }

    /// What ends the statement `e`, see [`terminated`].
    fn terminator(&mut self, e: Expr) -> (r: Result<Expr, ParseError>)
        requires
            old(self).wf(),
        ensures
            final(self).tokens == old(self).tokens,
            final(self).col == old(self).col,
            final(self).index <= final(self).tokens.len(),
            match terminated(old(self).stream(), old(self).position(), e@) {
                Ok((t, p)) => r is Ok && r->Ok_0@ == t && final(self).index == p && old(self).index
                    <= p,
                Err(err) => r == Err::<Expr, ParseError>(err),
            },
    {
        if self.matches(&TokenType::Semicolon) || self.matches(&TokenType::LineEnd) {
            Ok(e)
        } else if self.check(&TokenType::EndOfFile) || self.check(&TokenType::EndBlock)
            || self.after_block() {
            Ok(e)
        } else {
            Err(ParseError::MissingTerminator)
        }
    }

    /// The rest of a declaration, from its `:`.
    fn declaration(&mut self, expr: Expr) -> (r: Result<Expr, ParseError>)
        requires
            old(self).wf(),
        ensures
            final(self).parsed(
                old(self),
                r,
                parse_declaration(
                    old(self).stream(),
                    old(self).position(),
                    old(self).col,
                    expr@,
                ),
            ),
        decreases old(self).tokens.len() - old(self).index, 28nat,
    {
        reveal(parse_declaration);
        reveal(parse_expression);
        if !is_identifier(&expr) {
            return Err(ParseError::InvalidTarget);
        }
        if !self.matches_all(&TokenType::Colon, &TokenType::Equal) {
            return Err(ParseError::MalformedDeclaration);
        }
        match self.expression() {
            Err(e) => Err(e),
            Ok(init) => Ok(Expr::Declaration(Box::new(expr), Some(Box::new(init)))),
        }
    }

    /// The rest of an assignment, from its `=`.
    fn assignment(&mut self, expr: Expr) -> (r: Result<Expr, ParseError>)
        requires
            old(self).wf(),
        ensures
            final(self).parsed(
                old(self),
                r,
                parse_assignment(old(self).stream(), old(self).position(), old(self).col, expr@),
            ),
        decreases old(self).tokens.len() - old(self).index, 28nat,
    {
        reveal(parse_assignment);
        reveal(parse_expression);
        if !is_identifier(&expr) {
            return Err(ParseError::InvalidTarget);
        }
        if !self.matches(&TokenType::Equal) {
            return Err(ParseError::UnexpectedToken);
        }
        match self.expression() {
            Err(e) => Err(e),
            Ok(value) => Ok(Expr::Assignment(Box::new(expr), Box::new(value))),
        }
    }

    fn expression(&mut self) -> (r: Result<Expr, ParseError>)
        requires
            old(self).wf(),
        ensures
            final(self).parsed(
                old(self),
                r,
                parse_expression(old(self).stream(), old(self).position(), old(self).col),
            ),
        decreases old(self).tokens.len() - old(self).index, 27nat,
    {
        self.control_expression()
    }

    fn pipeline(&mut self) -> (r: Result<Expr, ParseError>)
        requires
            old(self).wf(),
        ensures
            final(self).parsed(
                old(self),
                r,
                parse_pipeline(old(self).stream(), old(self).position(), old(self).col),
            ),
        decreases old(self).tokens.len() - old(self).index, 25nat,
    {
        reveal(parse_pipeline);
        reveal(parse_pipeline_rest);
        reveal(parse_binary);
        let mut expr = match self.logical_or() {
            Err(e) => {
                return Err(e);
            },
            Ok(e) => e,
        };
        loop
            invariant
                self.tokens == old(self).tokens,
                self.col == old(self).col,
                old(self).index < self.index <= self.tokens.len(),
                parse_pipeline_rest(self.stream(), self.position(), self.col, expr@)
                    == parse_pipeline(old(self).stream(), old(self).position(), old(self).col),
            decreases self.tokens.len() - self.index,
        {
            reveal(parse_pipeline);
            reveal(parse_pipeline_rest);
            reveal(parse_binary);
            if !self.matches_over_line(&TokenType::Pipeline) {
                return Ok(expr);
            }
            let rhs = match self.logical_or() {
                Err(e) => {
                    return Err(e);
                },
                Ok(e) => e,
            };
            expr = match pipe(expr, rhs) {
                Err(e) => {
                    return Err(e);
                },
                Ok(e) => e,
            };
        }
    }

    /// The operands of `level`: expressions of the level below.
    fn operand(&mut self, level: Level) -> (r: Result<Expr, ParseError>)
        requires
            old(self).wf(),
        ensures
            final(self).parsed(
                old(self),
                r,
                parse_operand(old(self).stream(), old(self).position(), old(self).col, level),
            ),
        decreases old(self).tokens.len() - old(self).index, 7 + 3 * level_rank(level),
    {
        reveal(parse_operand);
        reveal(parse_unary);
        reveal(parse_binary);
        match level {
            Level::Factor => self.unary(),
            Level::Term => self.factor(),
            Level::Comparison => self.term(),
            Level::Equality => self.comparison(),
            Level::LogicalAnd => self.equality(),
            Level::LogicalOr => self.logical_and(),
        }
    }

    /// Operands of `level` with its operators between them, see [`parse_binary`].
    fn binary(&mut self, level: Level) -> (r: Result<Expr, ParseError>)
        requires
            old(self).wf(),
        ensures
            final(self).parsed(
                old(self),
                r,
                parse_binary(old(self).stream(), old(self).position(), old(self).col, level),
            ),
        decreases old(self).tokens.len() - old(self).index, 8 + 3 * level_rank(level),
    {
        reveal(parse_binary);
        reveal(parse_binary_rest);
        reveal(parse_operand);
        let mut expr = match self.operand(level) {
            Err(e) => {
                return Err(e);
            },
            Ok(e) => e,
        };
        loop
            invariant
                self.tokens == old(self).tokens,
                self.col == old(self).col,
                old(self).index < self.index <= self.tokens.len(),
                parse_binary_rest(self.stream(), self.position(), self.col, level, expr@)
                    == parse_binary(old(self).stream(), old(self).position(), old(self).col, level),
            decreases self.tokens.len() - self.index,
        {
            reveal(parse_binary);
            reveal(parse_binary_rest);
            reveal(parse_operand);
            if !self.operator(level) {
                return Ok(expr);
            }
            let op = self.previous();
            let rhs = match self.operand(level) {
                Err(e) => {
                    return Err(e);
                },
                Ok(e) => e,
            };
            expr = Expr::Binary(Box::new(expr), op, Box::new(rhs));
        }
    }

    /// Expressions joined by `||`.
    fn logical_or(&mut self) -> (r: Result<Expr, ParseError>)
        requires
            old(self).wf(),
        ensures
            final(self).parsed(
                old(self),
                r,
                parse_binary(old(self).stream(), old(self).position(), old(self).col, Level::LogicalOr),
            ),
        decreases old(self).tokens.len() - old(self).index, 24nat,
    {
        self.binary(Level::LogicalOr)
    }

    /// Expressions joined by `&&`.
    fn logical_and(&mut self) -> (r: Result<Expr, ParseError>)
        requires
            old(self).wf(),
        ensures
            final(self).parsed(
                old(self),
                r,
                parse_binary(old(self).stream(), old(self).position(), old(self).col, Level::LogicalAnd),
            ),
        decreases old(self).tokens.len() - old(self).index, 21nat,
    {
        self.binary(Level::LogicalAnd)
    }

    /// Expressions joined by `==` and `!=`.
    fn equality(&mut self) -> (r: Result<Expr, ParseError>)
        requires
            old(self).wf(),
        ensures
            final(self).parsed(
                old(self),
                r,
                parse_binary(old(self).stream(), old(self).position(), old(self).col, Level::Equality),
            ),
        decreases old(self).tokens.len() - old(self).index, 18nat,
    {
        self.binary(Level::Equality)
    }

    /// Expressions joined by `<`, `<=`, `>` and `>=`.
    fn comparison(&mut self) -> (r: Result<Expr, ParseError>)
        requires
            old(self).wf(),
        ensures
            final(self).parsed(
                old(self),
                r,
                parse_binary(old(self).stream(), old(self).position(), old(self).col, Level::Comparison),
            ),
        decreases old(self).tokens.len() - old(self).index, 15nat,
    {
        self.binary(Level::Comparison)
    }

    /// Expressions joined by `+` and `-`.
    fn term(&mut self) -> (r: Result<Expr, ParseError>)
        requires
            old(self).wf(),
        ensures
            final(self).parsed(
                old(self),
                r,
                parse_binary(old(self).stream(), old(self).position(), old(self).col, Level::Term),
            ),
        decreases old(self).tokens.len() - old(self).index, 12nat,
    {
        self.binary(Level::Term)
    }

    /// Expressions joined by `*`, `/`, `//` and `%`.
    fn factor(&mut self) -> (r: Result<Expr, ParseError>)
        requires
            old(self).wf(),
        ensures
            final(self).parsed(
                old(self),
                r,
                parse_binary(old(self).stream(), old(self).position(), old(self).col, Level::Factor),
            ),
        decreases old(self).tokens.len() - old(self).index, 9nat,
    {
        self.binary(Level::Factor)
    }

    fn unary(&mut self) -> (r: Result<Expr, ParseError>)
        requires
            old(self).wf(),
        ensures
            final(self).parsed(
                old(self),
                r,
                parse_unary(old(self).stream(), old(self).position(), old(self).col),
            ),
        decreases old(self).tokens.len() - old(self).index, 5nat,
    {
        reveal(parse_unary);
        reveal(parse_call);
        if self.matches(&TokenType::Minus) || self.matches(&TokenType::Bang) {
            let op = self.previous();
            match self.unary() {
                Err(e) => Err(e),
                Ok(rhs) => Ok(Expr::Unary(op, Box::new(rhs))),
            }
        } else {
            self.call()
        }
    }

    fn call(&mut self) -> (r: Result<Expr, ParseError>)
        requires
            old(self).wf(),
        ensures
            final(self).parsed(
                old(self),
                r,
                parse_call(old(self).stream(), old(self).position(), old(self).col),
            ),
        decreases old(self).tokens.len() - old(self).index, 4nat,
    {
        reveal(parse_call);
        reveal(parse_primary);
        reveal(parse_call_rest);
        let expr = match self.primary() {
            Err(e) => {
                return Err(e);
            },
            Ok(e) => e,
        };
        if is_lambda(&expr) {
            return Ok(expr);
        }
        self.call_rest(expr)
    }

    /// What follows a callee, see [`parse_call_rest`].
    fn call_rest(&mut self, callee: Expr) -> (r: Result<Expr, ParseError>)
        requires
            old(self).wf(),
        ensures
            final(self).tokens == old(self).tokens,
            final(self).col == old(self).col,
            final(self).index <= final(self).tokens.len(),
            match parse_call_rest(
                old(self).stream(),
                old(self).position(),
                old(self).col,
                callee@,
            ) {
                Ok((e, p)) => r is Ok && r->Ok_0@ == e && final(self).index == p && old(self).index
                    <= p,
                Err(e) => r == Err::<Expr, ParseError>(e),
            },
        decreases old(self).tokens.len() - old(self).index, 3nat,
    {
        reveal(parse_call_rest);
        reveal(parse_arguments);
        reveal(parse_inline_arguments);
        if self.matches(&TokenType::Dot) {
            let name = match self.name() {
                None => {
                    return Err(ParseError::ExpectedName);
                },
                Some(name) => name,
            };
            self.call_rest(Expr::Get(Box::new(callee), name))
        } else if self.matches(&TokenType::Bang) {
            let args = match self.arguments() {
                Err(e) => {
                    return Err(e);
                },
                Ok(args) => args,
            };
            self.call_rest(apply(callee, args))
        } else if self.starts_argument() && !self.after_block() {
            let args = match self.inline_arguments() {
                Err(e) => {
                    return Err(e);
                },
                Ok(args) => args,
            };
            self.call_rest(apply(callee, args))
        } else {
            Ok(callee)
        }
    }

    /// Goes past the next token if it is a name, and hands the name out.
    fn name(&mut self) -> (r: Option<String>)
        requires
            old(self).wf(),
        ensures
            final(self).tokens == old(self).tokens,
            final(self).col == old(self).col,
            final(self).index <= final(self).tokens.len(),
            match kind_at(old(self).stream(), old(self).position()) {
                Lexeme::Identifier(name) => r is Some && r->0@ == name && final(self).index == old(
                    self,
                ).index + 1,
                _ => r is None && final(self).index == old(self).index,
            },
    {
        if self.index >= self.tokens.len() {
            return None;
        }
        let name = match &self.tokens[self.index].token_type {
            TokenType::Identifier(name) => name.clone(),
            _ => {
                return None;
            },
        };
        self.index += 1;
        Some(name)
    }

    /// Whether the token before the next one is `EndBlock`.
    fn after_block(&self) -> (r: bool)
        requires
            self.wf(),
        ensures
            r == is_at(self.stream(), self.position() - 1, TokenType::EndBlock),
    {
        self.index > 0 && self.tokens[self.index - 1].token_type.same(&TokenType::EndBlock)
    }

    /// Whether the next token can start an argument.
    fn starts_argument(&self) -> (r: bool)
        requires
            self.wf(),
        ensures
            r == starts_primary(kind_at(self.stream(), self.position())),
    {
        if self.index >= self.tokens.len() {
            return false;
        }
        match &self.tokens[self.index].token_type {
            TokenType::Identifier(_) => true,
            TokenType::String(_) => true,
            TokenType::Int(_) => true,
            TokenType::True => true,
            TokenType::False => true,
            TokenType::LeftParen => true,
            TokenType::Fn => true,
            _ => false,
        }
    }

    /// The arguments after `!`, see [`parse_arguments`].
    fn arguments(&mut self) -> (r: Result<Vec<Expr>, ParseError>)
        requires
            old(self).wf(),
        ensures
            final(self).parsed_list(
                old(self),
                r,
                parse_arguments(old(self).stream(), old(self).position(), old(self).col),
            ),
        decreases old(self).tokens.len() - old(self).index, 32nat,
    {
        reveal(parse_arguments);
        reveal(parse_block_arguments);
        reveal(parse_inline_arguments);
        reveal(parse_binary);
        if self.matches(&TokenType::BeginBlock) {
            let mut args: Vec<Expr> = Vec::new();
            assert(expr_models(args@) =~= Seq::empty());
            loop
                invariant
                    self.tokens == old(self).tokens,
                    self.col == old(self).col,
                    old(self).index < self.index <= self.tokens.len(),
                    parse_block_arguments(
                        self.stream(),
                        self.position(),
                        self.col,
                        expr_models(args@),
                    ) == parse_arguments(old(self).stream(), old(self).position(), old(self).col),
                decreases self.tokens.len() - self.index,
            {
                reveal(parse_arguments);
                reveal(parse_block_arguments);
                reveal(parse_inline_arguments);
                reveal(parse_binary);
                self.skip_lines();
                if self.matches(&TokenType::EndBlock) {
                    return Ok(args);
                }
                let arg = match self.logical_or() {
                    Err(e) => {
                        return Err(e);
                    },
                    Ok(e) => e,
                };
                let ghost before = args@;
                let arg = match self.terminator(arg) {
                    Err(e) => {
                        return Err(e);
                    },
                    Ok(e) => e,
                };
                proof {
                    lemma_expr_models_push(before, arg);
                }
                args.push(arg);
            }
        } else {
            self.inline_arguments()
        }
    }

    /// The arguments on the callee's line, see [`parse_inline_arguments`].
    fn inline_arguments(&mut self) -> (r: Result<Vec<Expr>, ParseError>)
        requires
            old(self).wf(),
        ensures
            final(self).parsed_list(
                old(self),
                r,
                parse_inline_arguments(
                    old(self).stream(),
                    old(self).position(),
                    old(self).col,
                    Seq::empty(),
                ),
            ),
            r is Ok && starts_primary(kind_at(old(self).stream(), old(self).position()))
                ==> old(self).index < final(self).index,
        decreases old(self).tokens.len() - old(self).index, 2nat,
    {
        reveal(parse_inline_arguments);
        reveal(parse_primary);
        let mut args: Vec<Expr> = Vec::new();
        assert(expr_models(args@) =~= Seq::empty());
        while self.starts_argument()
            invariant
                self.tokens == old(self).tokens,
                self.col == old(self).col,
                old(self).index <= self.index <= self.tokens.len(),
                args@.len() > 0 || self.index == old(self).index,
                args@.len() > 0 ==> old(self).index < self.index,
                parse_inline_arguments(
                    self.stream(),
                    self.position(),
                    self.col,
                    expr_models(args@),
                ) == parse_inline_arguments(
                    old(self).stream(),
                    old(self).position(),
                    old(self).col,
                    Seq::empty(),
                ),
            decreases self.tokens.len() - self.index,
        {
            reveal(parse_inline_arguments);
            reveal(parse_primary);
            let ghost before = args@;
            match self.primary() {
                Err(e) => {
                    return Err(e);
                },
                Ok(arg) => {
                    proof {
                        lemma_expr_models_push(before, arg);
                    }
                    args.push(arg);
                },
            }
        }
        Ok(args)
    }

    fn primary(&mut self) -> (r: Result<Expr, ParseError>)
        requires
            old(self).wf(),
        ensures
            final(self).parsed(
                old(self),
                r,
                parse_primary(old(self).stream(), old(self).position(), old(self).col),
            ),
        decreases old(self).tokens.len() - old(self).index, 1nat,
    {
        reveal(parse_primary);
        reveal(parse_expression);
        reveal(parse_function);
        if self.index >= self.tokens.len() {
            return Err(ParseError::UnexpectedToken);
        }
        assert(kind_at(self.stream(), self.position()) == self.tokens[self.index as int].token_type@);
        match &self.tokens[self.index].token_type {
            TokenType::False => {
                self.index += 1;
                Ok(literal(Value::Bool(false)))
            },
            TokenType::True => {
                self.index += 1;
                Ok(literal(Value::Bool(true)))
            },
            TokenType::String(value) => {
                let value = value.clone();
                self.index += 1;
                Ok(literal(Value::String(value)))
            },
            TokenType::Identifier(value) => {
                let value = value.clone();
                self.index += 1;
                Ok(name_expr(value))
            },
            TokenType::Int(value) => {
                let value = *value;
                self.index += 1;
                Ok(literal(Value::Int(value)))
            },
            TokenType::LeftParen => {
                self.index += 1;
                let expr = match self.expression() {
                    Err(e) => {
                        return Err(e);
                    },
                    Ok(e) => e,
                };
                if !self.matches(&TokenType::RightParen) {
                    return Err(ParseError::UnclosedParen);
                }
                Ok(Expr::Group(Box::new(expr)))
            },
            TokenType::Plus => {
                self.index += 1;
                Ok(name_expr(String::from_str("+")))
            },
            TokenType::Fn => {
                self.index += 1;
                self.function_decl()
            },
            TokenType::Print => {
                let name = self.advance();
                Ok(Expr::BuiltinFunction(name))
            },
            _ => Err(ParseError::UnexpectedToken),
        }
    }

    /// A function, after its `fn`, see [`parse_function`].
    fn function_decl(&mut self) -> (r: Result<Expr, ParseError>)
        requires
            old(self).wf(),
        ensures
            final(self).tokens == old(self).tokens,
            final(self).col == old(self).col,
            final(self).index <= final(self).tokens.len(),
            match parse_function(
                old(self).stream(),
                old(self).position(),
                old(self).col,
                Seq::empty(),
            ) {
                Ok((e, p)) => r is Ok && r->Ok_0@ == e && final(self).index == p && old(self).index
                    <= p,
                Err(e) => r == Err::<Expr, ParseError>(e),
            },
        decreases old(self).tokens.len() - old(self).index, 2nat,
    {
        reveal(parse_function);
        reveal(parse_primary);
        reveal(parse_block);
        reveal(parse_expression);
        let mut args: Vec<Expr> = Vec::new();
        assert(expr_models(args@) =~= Seq::empty());
        while !self.check(&TokenType::ThinArrow)
            invariant
                self.tokens == old(self).tokens,
                self.col == old(self).col,
                old(self).index <= self.index <= self.tokens.len(),
                parse_function(self.stream(), self.position(), self.col, expr_models(args@))
                    == parse_function(
                    old(self).stream(),
                    old(self).position(),
                    old(self).col,
                    Seq::empty(),
                ),
            decreases self.tokens.len() - self.index,
        {
            reveal(parse_function);
            reveal(parse_primary);
            reveal(parse_block);
            reveal(parse_expression);
            let ghost before = args@;
            match self.primary() {
                Err(e) => {
                    return Err(e);
                },
                Ok(arg) => {
                    proof {
                        lemma_expr_models_push(before, arg);
                    }
                    args.push(arg);
                },
            }
        }
        self.index += 1;
        if self.matches(&TokenType::BeginBlock) {
            match self.block() {
                Err(e) => Err(e),
                Ok(exprs) => Ok(Expr::Lambda(args, exprs)),
            }
        } else {
            match self.expression() {
                Err(e) => Err(e),
                Ok(e) => {
                    let mut body: Vec<Expr> = Vec::new();
                    body.push(e);
                    assert(expr_models(body@) =~= seq![e@]);
                    Ok(Expr::Lambda(args, body))
                },
            }
        }
    }
}

impl Default for Parser {
    fn default() -> (r: Self)
        ensures
            r.wf(),
            r.position() == 0,
    {
        Self::new()
    }
}

} // verus!
