//! A small scripting language: a scanner that reads indentation as blocks, a
//! recursive-descent parser, and an evaluator with lexical scopes and closures.
//!
//! [`Compiler`] ties the three together. Each stage computes a function that
//! is defined on models: [`scanner::scan_text`], [`grammar::parse_tokens`] and
//! [`semantics::run`].
pub mod grammar;
pub mod interpreter;
pub mod laws;
pub mod parser;
pub mod printer;
pub mod scanner;
pub mod semantics;

use crate::grammar::{parse_tokens, ParseError};
use crate::interpreter::{Interpreter, DEFAULT_DEPTH, DEFAULT_TURNS};
use crate::parser::{expr_models, value_models, Expr, Parser, Value, ValueModel};
use crate::scanner::{scan_text, token_models, LexError, Scanner, Token};
use crate::semantics::{back_in, new_world, run, Limits, RuntimeError, World};
use vstd::prelude::*;
use vstd::string::*;

verus! {

/// Why a text could not be run.
#[derive(Clone, Copy, Debug, PartialEq, Eq)]
pub enum Error {
    Lex(LexError),
    Parse(ParseError),
    Runtime(RuntimeError),
}

/// What evaluating the statements `stmts` in world `w` yields for a caller
/// that goes on after an error: the values and the world of [`run`]; after an
/// error, evaluation stands in the outermost scope again.
pub open spec fn evaluation(stmts: Seq<crate::parser::ExprModel>, w: World, limits: Limits) -> (
    Result<Seq<ValueModel>, RuntimeError>,
    World,
) {
    match run(stmts, w, limits) {
        (Ok(values), after) => (Ok(values), after),
        (Err(e), after) => (Err(e), back_in(after, 0)),
    }
}

/// What running the text `text` in world `w` yields: the values of its
/// statements and the world after them, or the error of the first stage that
/// fails. Only evaluation changes the world.
pub open spec fn execution(text: Seq<char>, w: World, limits: Limits) -> (
    Result<Seq<ValueModel>, Error>,
    World,
) {
    match scan_text(text) {
        Err(e) => (Err(Error::Lex(e)), w),
        Ok(tokens) => match parse_tokens(tokens) {
            Err(e) => (Err(Error::Parse(e)), w),
            Ok(stmts) => match evaluation(stmts, w, limits) {
                (Ok(values), after) => (Ok(values), after),
                (Err(e), after) => (Err(Error::Runtime(e)), after),
            },
        },
    }
}

/// The three stages, and the world that the programs run in.
pub struct Compiler {
    scanner: Scanner,
    parser: Parser,
    interpreter: Interpreter,
}

impl View for Compiler {
    type V = World;

    closed spec fn view(&self) -> World {
        self.interpreter@
    }
}

impl Compiler {
    /// The limits that evaluation stops at.
    pub closed spec fn limits(&self) -> Limits {
        self.interpreter.limits()
    }

    pub closed spec fn wf(&self) -> bool {
        self.interpreter.wf()
    }

    /// A compiler in the new world, whose evaluation stops at the default
    /// limits, [`DEFAULT_DEPTH`] and [`DEFAULT_TURNS`].
    pub fn new() -> (r: Self)
        ensures
            r.wf(),
            r@ == new_world(),
            r.limits() == (Limits { depth: DEFAULT_DEPTH as nat, turns: DEFAULT_TURNS as nat }),
    {
        Compiler {
            scanner: Scanner::default(),
            parser: Parser::default(),
            interpreter: Interpreter::new(),
        }
    }

    /// A compiler in the new world, whose evaluation stops at the given limits.
    pub fn with_limits(depth: usize, turns: usize) -> (r: Self)
        ensures
            r.wf(),
            r@ == new_world(),
            r.limits() == (Limits { depth: depth as nat, turns: turns as nat }),
    {
        Compiler {
            scanner: Scanner::default(),
            parser: Parser::default(),
            interpreter: Interpreter::with_limits(depth, turns),
        }
    }

    /// Scans, parses and evaluates `line`, see [`execution`].
    pub fn run_line(&mut self, line: &str) -> (r: Result<Vec<Value>, Error>)
        requires
            old(self).wf(),
        ensures
            final(self).wf(),
            final(self).limits() == old(self).limits(),
            final(self)@ == execution(line@, old(self)@, old(self).limits()).1,
            match execution(line@, old(self)@, old(self).limits()).0 {
                Ok(values) => r is Ok && value_models(r->Ok_0@) == values,
                Err(e) => r == Err::<Vec<Value>, Error>(e),
            },
    {
        let tokens = match self.scan_line(line) {
            Err(e) => {
                return Err(Error::Lex(e));
            },
            Ok(tokens) => tokens,
        };
        let stmts = match self.parse(tokens) {
            Err(e) => {
                return Err(Error::Parse(e));
            },
            Ok(stmts) => stmts,
        };
        match self.evaluate(stmts) {
            Err(e) => Err(Error::Runtime(e)),
            Ok(values) => Ok(values),
        }
    }

    /// The tokens of `line`, see [`scan_text`].
    pub fn scan_line(&mut self, line: &str) -> (r: Result<Vec<Token>, LexError>)
        ensures
            final(self).wf() == old(self).wf(),
            final(self).limits() == old(self).limits(),
            final(self)@ == old(self)@,
            match scan_text(line@) {
                Ok(tokens) => r is Ok && token_models(r->Ok_0@) == tokens,
                Err(e) => r == Err::<Vec<Token>, LexError>(e),
            },
    {
        self.scanner.scan(String::from_str(line))
    }

    /// The statements of `tokens`, see [`parse_tokens`].
    pub fn parse(&mut self, tokens: Vec<Token>) -> (r: Result<Vec<Expr>, ParseError>)
        ensures
            final(self).wf() == old(self).wf(),
            final(self).limits() == old(self).limits(),
            final(self)@ == old(self)@,
            match parse_tokens(token_models(tokens@)) {
                Ok(stmts) => r is Ok && expr_models(r->Ok_0@) == stmts,
                Err(e) => r == Err::<Vec<Expr>, ParseError>(e),
            },
    {
        self.parser.parse(tokens)
    }

    /// The values of the statements, one for each, see [`evaluation`].
    pub fn evaluate(&mut self, expressions: Vec<Expr>) -> (r: Result<Vec<Value>, RuntimeError>)
        requires
            old(self).wf(),
        ensures
            final(self).wf(),
            final(self).limits() == old(self).limits(),
            r is Ok ==> r->Ok_0.len() == expressions.len(),
            final(self)@ == evaluation(expr_models(expressions@), old(self)@, old(self).limits()).1,
            match evaluation(expr_models(expressions@), old(self)@, old(self).limits()).0 {
                Ok(values) => r is Ok && value_models(r->Ok_0@) == values,
                Err(e) => r == Err::<Vec<Value>, RuntimeError>(e),
            },
    {
        match self.interpreter.interpret(expressions) {
            Ok(values) => Ok(values),
            Err(e) => {
                self.interpreter.reset_scope();
                Err(e)
            },
        }
    }

    /// What `print` has written so far.
    pub fn output(&self) -> (r: &String)
        ensures
            r@ == self@.output,
    {
        self.interpreter.output()
    }
}

impl Default for Compiler {
    fn default() -> (r: Self)
        ensures
            r.wf(),
            r@ == new_world(),
    {
        Self::new()
    }
}

} // verus!
