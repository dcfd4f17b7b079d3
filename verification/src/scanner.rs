//! The scanner: source text to tokens, with the block markers that indentation implies.
//!
//! What a text scans to is defined by [`scan_text`], a function on `Seq<char>`.
//! [`Scanner::scan`] computes exactly that. Which characters are letters and
//! numbers is Unicode's to say, and std's to know: the scanner asks once for
//! each character, see [`letters_in`], and reads the text by the answers, see
//! [`scan_source`] and [`Scanner::scan_classified`].
use vstd::prelude::*;
use vstd::string::*;

verus! {

/// The tag of a token, with the text or number that a literal carries.
#[derive(Debug, PartialEq, Eq)]
pub enum TokenType {
    LeftParen,
    RightParen,
    LeftBrace,
    RightBrace,
    Comma,
    Dot,
    Plus,
    Semicolon,
    Colon,
    Star,
    // One or two character tokens.
    Bang,
    BangEqual,
    Equal,
    EqualEqual,
    Greater,
    GreaterEqual,
    Less,
    LessEqual,
    And,
    AndAnd,
    Or,
    OrOr,
    Slash,
    SlashSlash,
    Mod,
    ModMod,
    Minus,
    ThinArrow,
    Pipeline,
    // Literals.
    Identifier(String),
    String(String),
    Int(i32),
    // Keywords.
    Then,
    Else,
    False,
    Fn,
    For,
    While,
    If,
    Print,
    Return,
    True,
    EndOfFile,
    Comment(String),
    BeginBlock,
    EndBlock,
    /// The end of a line that holds at least one token.
    LineEnd,
}

/// Where a token starts: line and column count from 0, a tab is 4 columns wide,
/// `index` counts characters from the start of the text. Line and column stay at
/// `usize::MAX` once they reach it.
#[derive(Clone, Copy, Debug, PartialEq, Eq)]
pub struct Location {
    pub line: usize,
    pub col: usize,
    pub index: usize,
}

#[derive(Debug, PartialEq, Eq)]
pub struct Token {
    pub token_type: TokenType,
    pub location: Location,
}

/// Why a text has no token sequence.
#[derive(Clone, Copy, Debug, PartialEq, Eq)]
pub enum LexError {
    /// A string literal whose closing quote is missing.
    UnterminatedString,
    /// A run of digits whose value does not fit in `i32`.
    InvalidNumber,
}

/// What a [`TokenType`] is in contracts: the text of a literal as a sequence of
/// characters, any other tag as itself.
pub enum Lexeme {
    Identifier(Seq<char>),
    Text(Seq<char>),
    Int(i32),
    Comment(Seq<char>),
    Mark(TokenType),
}

/// What a [`Token`] is in contracts.
pub struct TokenModel {
    pub kind: Lexeme,
    pub location: Location,
}

impl View for TokenType {
    type V = Lexeme;

    open spec fn view(&self) -> Lexeme {
        match *self {
            TokenType::Identifier(s) => Lexeme::Identifier(s@),
            TokenType::String(s) => Lexeme::Text(s@),
            TokenType::Int(n) => Lexeme::Int(n),
            TokenType::Comment(s) => Lexeme::Comment(s@),
            other => Lexeme::Mark(other),
        }
    }
}

impl View for Token {
    type V = TokenModel;

    open spec fn view(&self) -> TokenModel {
        TokenModel { kind: self.token_type@, location: self.location }
    }
}

/// The models of a sequence of tokens, one for one.
pub open spec fn token_models(tokens: Seq<Token>) -> Seq<TokenModel> {
    Seq::new(tokens.len(), |i: int| tokens[i]@)
}

impl Clone for TokenType {
    fn clone(&self) -> (r: Self)
        ensures
            r@ == self@,
    {
        match self {
            TokenType::LeftParen => TokenType::LeftParen,
            TokenType::RightParen => TokenType::RightParen,
            TokenType::LeftBrace => TokenType::LeftBrace,
            TokenType::RightBrace => TokenType::RightBrace,
            TokenType::Comma => TokenType::Comma,
            TokenType::Dot => TokenType::Dot,
            TokenType::Plus => TokenType::Plus,
            TokenType::Semicolon => TokenType::Semicolon,
            TokenType::Colon => TokenType::Colon,
            TokenType::Star => TokenType::Star,
            TokenType::Bang => TokenType::Bang,
            TokenType::BangEqual => TokenType::BangEqual,
            TokenType::Equal => TokenType::Equal,
            TokenType::EqualEqual => TokenType::EqualEqual,
            TokenType::Greater => TokenType::Greater,
            TokenType::GreaterEqual => TokenType::GreaterEqual,
            TokenType::Less => TokenType::Less,
            TokenType::LessEqual => TokenType::LessEqual,
            TokenType::And => TokenType::And,
            TokenType::AndAnd => TokenType::AndAnd,
            TokenType::Or => TokenType::Or,
            TokenType::OrOr => TokenType::OrOr,
            TokenType::Slash => TokenType::Slash,
            TokenType::SlashSlash => TokenType::SlashSlash,
            TokenType::Mod => TokenType::Mod,
            TokenType::ModMod => TokenType::ModMod,
            TokenType::Minus => TokenType::Minus,
            TokenType::ThinArrow => TokenType::ThinArrow,
            TokenType::Pipeline => TokenType::Pipeline,
            TokenType::Identifier(s) => TokenType::Identifier(s.clone()),
            TokenType::String(s) => TokenType::String(s.clone()),
            TokenType::Int(n) => TokenType::Int(*n),
            TokenType::Then => TokenType::Then,
            TokenType::Else => TokenType::Else,
            TokenType::False => TokenType::False,
            TokenType::Fn => TokenType::Fn,
            TokenType::For => TokenType::For,
            TokenType::While => TokenType::While,
            TokenType::If => TokenType::If,
            TokenType::Print => TokenType::Print,
            TokenType::Return => TokenType::Return,
            TokenType::True => TokenType::True,
            TokenType::EndOfFile => TokenType::EndOfFile,
            TokenType::Comment(s) => TokenType::Comment(s.clone()),
            TokenType::BeginBlock => TokenType::BeginBlock,
            TokenType::EndBlock => TokenType::EndBlock,
            TokenType::LineEnd => TokenType::LineEnd,
        }
    }
}

impl TokenType {
    /// Whether two token types are the same tag with the same content.
    pub fn same(&self, other: &TokenType) -> (r: bool)
        ensures
            r == (self@ == other@),
    {
        match (self, other) {
            (TokenType::LeftParen, TokenType::LeftParen) => true,
            (TokenType::RightParen, TokenType::RightParen) => true,
            (TokenType::LeftBrace, TokenType::LeftBrace) => true,
            (TokenType::RightBrace, TokenType::RightBrace) => true,
            (TokenType::Comma, TokenType::Comma) => true,
            (TokenType::Dot, TokenType::Dot) => true,
            (TokenType::Plus, TokenType::Plus) => true,
            (TokenType::Semicolon, TokenType::Semicolon) => true,
            (TokenType::Colon, TokenType::Colon) => true,
            (TokenType::Star, TokenType::Star) => true,
            (TokenType::Bang, TokenType::Bang) => true,
            (TokenType::BangEqual, TokenType::BangEqual) => true,
            (TokenType::Equal, TokenType::Equal) => true,
            (TokenType::EqualEqual, TokenType::EqualEqual) => true,
            (TokenType::Greater, TokenType::Greater) => true,
            (TokenType::GreaterEqual, TokenType::GreaterEqual) => true,
            (TokenType::Less, TokenType::Less) => true,
            (TokenType::LessEqual, TokenType::LessEqual) => true,
            (TokenType::And, TokenType::And) => true,
            (TokenType::AndAnd, TokenType::AndAnd) => true,
            (TokenType::Or, TokenType::Or) => true,
            (TokenType::OrOr, TokenType::OrOr) => true,
            (TokenType::Slash, TokenType::Slash) => true,
            (TokenType::SlashSlash, TokenType::SlashSlash) => true,
            (TokenType::Mod, TokenType::Mod) => true,
            (TokenType::ModMod, TokenType::ModMod) => true,
            (TokenType::Minus, TokenType::Minus) => true,
            (TokenType::ThinArrow, TokenType::ThinArrow) => true,
            (TokenType::Pipeline, TokenType::Pipeline) => true,
            (TokenType::Then, TokenType::Then) => true,
            (TokenType::Else, TokenType::Else) => true,
            (TokenType::False, TokenType::False) => true,
            (TokenType::Fn, TokenType::Fn) => true,
            (TokenType::For, TokenType::For) => true,
            (TokenType::While, TokenType::While) => true,
            (TokenType::If, TokenType::If) => true,
            (TokenType::Print, TokenType::Print) => true,
            (TokenType::Return, TokenType::Return) => true,
            (TokenType::True, TokenType::True) => true,
            (TokenType::EndOfFile, TokenType::EndOfFile) => true,
            (TokenType::BeginBlock, TokenType::BeginBlock) => true,
            (TokenType::EndBlock, TokenType::EndBlock) => true,
            (TokenType::LineEnd, TokenType::LineEnd) => true,
            (TokenType::Identifier(a), TokenType::Identifier(b)) => *a == *b,
            (TokenType::String(a), TokenType::String(b)) => *a == *b,
            (TokenType::Comment(a), TokenType::Comment(b)) => *a == *b,
            (TokenType::Int(a), TokenType::Int(b)) => *a == *b,
            _ => false,
        }
    }
}

impl Clone for Token {
    fn clone(&self) -> (r: Self)
        ensures
            r@ == self@,
    {
        Token { token_type: self.token_type.clone(), location: self.location }
    }
}

// ---------------------------------------------------------------------------
// Characters
// ---------------------------------------------------------------------------

/// A character that separates tokens and stands for nothing itself.
pub open spec fn is_blank(c: char) -> bool {
    c == ' ' || c == '\t' || c == '\r'
}

pub open spec fn is_digit(c: char) -> bool {
    '0' <= c && c <= '9'
}

/// The characters that operators are made of.
pub open spec fn is_symbol(c: char) -> bool {
    c == '-' || c == '>' || c == '<' || c == '+' || c == '/' || c == '%' || c == '&' || c == '|'
        || c == '!' || c == '=' || c == '*'
}

/// Whether Unicode counts `c` as a letter or a number, as `char::is_alphanumeric` decides it.
pub uninterp spec fn alphanumeric(c: char) -> bool;

/// A text, and for each of its characters whether it counts as a letter or a
/// number. The scanner reads names by the second; it never asks what a
/// letter is.
pub struct Source {
    pub text: Seq<char>,
    pub letters: Seq<bool>,
}

/// For each character of `text` whether Unicode counts it as a letter or a
/// number.
pub open spec fn letters_of(text: Seq<char>) -> Seq<bool> {
    Seq::new(text.len(), |i: int| alphanumeric(text[i]))
}

/// A text with its letters and numbers as Unicode counts them.
pub open spec fn source_of(text: Seq<char>) -> Source {
    Source { text, letters: letters_of(text) }
}

/// Whether position `i` holds a character that names and keywords are made
/// of: a letter, a number or `_`.
pub open spec fn is_word(src: Source, i: int) -> bool {
    (0 <= i < src.letters.len() && src.letters[i]) || src.text[i] == '_'
}

/// Calls `char::is_alphanumeric` of std, which looks `c` up in the Unicode tables
/// for the classes Alphabetic, Nd, Nl and No. The contract only gives that answer
/// its name in contracts, [`alphanumeric`].
#[verifier::external_body]
fn is_alphanumeric(c: char) -> (r: bool)
    ensures
        r == alphanumeric(c),
{
    c.is_alphanumeric()
}

/// The three kinds of run that a token can be read from.
pub enum CharClass {
    Digit,
    Word,
    Symbol,
}

/// Whether the character at position `i` is of `class`.
pub open spec fn in_class(src: Source, i: int, class: CharClass) -> bool {
    match class {
        CharClass::Digit => is_digit(src.text[i]),
        CharClass::Word => is_word(src, i),
        CharClass::Symbol => is_symbol(src.text[i]),
    }
}

/// The first position at or after `from` whose character is not in `class`,
/// or the length of the text if there is none.
pub open spec fn run_end(src: Source, from: int, class: CharClass) -> int
    decreases src.text.len() - from,
{
    if 0 <= from < src.text.len() && in_class(src, from, class) {
        run_end(src, from + 1, class)
    } else {
        from
    }
}

/// The first position at or after `from` that holds `quote`.
pub open spec fn closing_quote(text: Seq<char>, from: int, quote: char) -> Option<int>
    decreases text.len() - from,
{
    if from < 0 || from >= text.len() {
        None
    } else if text[from] == quote {
        Some(from)
    } else {
        closing_quote(text, from + 1, quote)
    }
}

pub open spec fn digit_value(c: char) -> nat {
    (c as nat - '0' as nat) as nat
}

/// The number that a sequence of decimal digits writes.
pub open spec fn decimal(digits: Seq<char>) -> nat
    decreases digits.len(),
{
    if digits.len() == 0 {
        0
    } else {
        decimal(digits.drop_last()) * 10 + digit_value(digits.last())
    }
}

/// The token that one character alone stands for, if it does.
pub open spec fn punctuation(c: char) -> Option<TokenType> {
    if c == '(' {
        Some(TokenType::LeftParen)
    } else if c == ')' {
        Some(TokenType::RightParen)
    } else if c == '{' {
        Some(TokenType::LeftBrace)
    } else if c == '}' {
        Some(TokenType::RightBrace)
    } else if c == ',' {
        Some(TokenType::Comma)
    } else if c == '.' {
        Some(TokenType::Dot)
    } else if c == ';' {
        Some(TokenType::Semicolon)
    } else if c == ':' {
        Some(TokenType::Colon)
    } else {
        None
    }
}

/// The table of operators and keywords.
pub open spec fn keyword(s: Seq<char>) -> Option<TokenType> {
    if s == "!="@ {
        Some(TokenType::BangEqual)
    } else if s == "!"@ {
        Some(TokenType::Bang)
    } else if s == "="@ {
        Some(TokenType::Equal)
    } else if s == "=="@ {
        Some(TokenType::EqualEqual)
    } else if s == "<="@ {
        Some(TokenType::LessEqual)
    } else if s == "<"@ {
        Some(TokenType::Less)
    } else if s == ">"@ {
        Some(TokenType::Greater)
    } else if s == ">="@ {
        Some(TokenType::GreaterEqual)
    } else if s == "&"@ {
        Some(TokenType::And)
    } else if s == "&&"@ {
        Some(TokenType::AndAnd)
    } else if s == "|"@ {
        Some(TokenType::Or)
    } else if s == "||"@ {
        Some(TokenType::OrOr)
    } else if s == "/"@ {
        Some(TokenType::Slash)
    } else if s == "//"@ {
        Some(TokenType::SlashSlash)
    } else if s == "%"@ {
        Some(TokenType::Mod)
    } else if s == "%%"@ {
        Some(TokenType::ModMod)
    } else if s == "-"@ {
        Some(TokenType::Minus)
    } else if s == "+"@ {
        Some(TokenType::Plus)
    } else if s == "*"@ {
        Some(TokenType::Star)
    } else if s == "|>"@ {
        Some(TokenType::Pipeline)
    } else if s == "->"@ {
        Some(TokenType::ThinArrow)
    } else if s == "false"@ {
        Some(TokenType::False)
    } else if s == "true"@ {
        Some(TokenType::True)
    } else if s == "fn"@ {
        Some(TokenType::Fn)
    } else if s == "for"@ {
        Some(TokenType::For)
    } else if s == "while"@ {
        Some(TokenType::While)
    } else if s == "return"@ {
        Some(TokenType::Return)
    } else if s == "print"@ {
        Some(TokenType::Print)
    } else if s == "if"@ {
        Some(TokenType::If)
    } else if s == "then"@ {
        Some(TokenType::Then)
    } else if s == "else"@ {
        Some(TokenType::Else)
    } else {
        None
    }
}

/// What a run of word or symbol characters stands for: its entry in the table,
/// or else an identifier of that text.
pub open spec fn word_lexeme(s: Seq<char>) -> Lexeme {
    match keyword(s) {
        Some(t) => Lexeme::Mark(t),
        None => Lexeme::Identifier(s),
    }
}

// ---------------------------------------------------------------------------
// Locations
// ---------------------------------------------------------------------------

pub open spec fn bump(x: usize, by: usize) -> usize {
    if x <= usize::MAX - by {
        (x + by) as usize
    } else {
        usize::MAX
    }
}

pub open spec fn origin() -> Location {
    Location { line: 0, col: 0, index: 0 }
}

/// The location that follows `loc` when `c` stands at `loc`.
pub open spec fn step(loc: Location, c: char) -> Location {
    if c == '\n' {
        Location { line: bump(loc.line, 1), col: 0, index: bump(loc.index, 1) }
    } else if c == '\t' {
        Location { line: loc.line, col: bump(loc.col, 4), index: bump(loc.index, 1) }
    } else {
        Location { line: loc.line, col: bump(loc.col, 1), index: bump(loc.index, 1) }
    }
}

/// The location of position `pos` of `text`.
pub open spec fn place(text: Seq<char>, pos: int) -> Location
    decreases pos,
{
    if pos <= 0 {
        origin()
    } else {
        step(place(text, pos - 1), text[pos - 1])
    }
}

/// The index of a location is its position, as far as a `usize` can count.
pub proof fn lemma_place_index(text: Seq<char>, pos: int)
    requires
        0 <= pos <= usize::MAX,
    ensures
        place(text, pos).index == pos,
    decreases pos,
{
    if pos > 0 {
        lemma_place_index(text, pos - 1);
    }
}

// ---------------------------------------------------------------------------
// One token
// ---------------------------------------------------------------------------

/// The token that starts at position `at`, and the position after it. `at` holds
/// a character that is neither blank nor a newline.
///
/// A quote opens a string literal that runs to the next quote of the same kind,
/// with no escapes. A digit starts the longest run of digits. Any other
/// character starts the longest run of its own class, word or symbol, which is
/// looked up in the table; a character of neither class stands alone.
pub open spec fn lexeme_at(src: Source, at: int) -> Result<(Lexeme, int), LexError> {
    let text = src.text;
    let c = text[at];
    if punctuation(c) is Some {
        Ok((Lexeme::Mark(punctuation(c)->0), at + 1))
    } else if c == '"' || c == '\'' {
        match closing_quote(text, at + 1, c) {
            None => Err(LexError::UnterminatedString),
            Some(close) => Ok((Lexeme::Text(text.subrange(at + 1, close)), close + 1)),
        }
    } else if is_digit(c) {
        let end = run_end(src, at, CharClass::Digit);
        let value = decimal(text.subrange(at, end));
        if value <= i32::MAX {
            Ok((Lexeme::Int(value as i32), end))
        } else {
            Err(LexError::InvalidNumber)
        }
    } else {
        let end = word_end(src, at);
        Ok((word_lexeme(text.subrange(at, end)), end))
    }
}

/// Where the name, keyword or operator that starts at `at` ends: the run of
/// word characters or of symbols that its first character starts; a
/// character that is neither stands alone.
pub open spec fn word_end(src: Source, at: int) -> int {
    if is_word(src, at) {
        run_end(src, at, CharClass::Word)
    } else if is_symbol(src.text[at]) {
        run_end(src, at, CharClass::Symbol)
    } else {
        at + 1
    }
}

pub proof fn lemma_run_end_bounds(src: Source, from: int, class: CharClass)
    requires
        0 <= from <= src.text.len(),
    ensures
        from <= run_end(src, from, class) <= src.text.len(),
        from < src.text.len() && in_class(src, from, class) ==> from < run_end(src, from, class),
        forall|i: int| from <= i < run_end(src, from, class) ==> #[trigger] in_class(src, i, class),
        run_end(src, from, class) < src.text.len() ==> !in_class(
            src,
            run_end(src, from, class),
            class,
        ),
    decreases src.text.len() - from,
{
    if from < src.text.len() && in_class(src, from, class) {
        lemma_run_end_bounds(src, from + 1, class);
    }
}

pub proof fn lemma_closing_quote_bounds(text: Seq<char>, from: int, quote: char)
    requires
        0 <= from,
    ensures
        match closing_quote(text, from, quote) {
            Some(close) => from <= close < text.len() && text[close] == quote && forall|i: int|
                from <= i < close ==> #[trigger] text[i] != quote,
            None => forall|i: int| from <= i < text.len() ==> #[trigger] text[i] != quote,
        },
    decreases text.len() - from,
{
    if from < text.len() && text[from] != quote {
        lemma_closing_quote_bounds(text, from + 1, quote);
    }
}

/// A token is at least one character long and ends inside the text.
pub proof fn lemma_lexeme_advances(src: Source, at: int)
    requires
        0 <= at < src.text.len(),
    ensures
        lexeme_at(src, at) is Ok ==> at < lexeme_at(src, at)->Ok_0.1 <= src.text.len(),
        at < word_end(src, at) <= src.text.len(),
{
    let c = src.text[at];
    lemma_closing_quote_bounds(src.text, at + 1, c);
    lemma_run_end_bounds(src, at, CharClass::Digit);
    lemma_run_end_bounds(src, at, CharClass::Word);
    lemma_run_end_bounds(src, at, CharClass::Symbol);
}

// ---------------------------------------------------------------------------
// Lines and blocks
// ---------------------------------------------------------------------------

/// A `:`, `->` or `!` that no token has followed yet. If the next token stands on
/// a later line, the lines below it may be a block.
#[derive(Clone, Copy, Debug, PartialEq, Eq)]
pub struct Opener {
    /// The column of the first token of the line that holds the opener.
    pub col: usize,
    /// Set for `!`, which opens a block only for a line that is indented
    /// deeper than `col`. A `:` or `->` at the end of a line always opens one.
    pub deep_only: bool,
}

/// What the scanner knows after it has read the text up to `pos`.
pub struct ScanState {
    /// The position of the next character.
    pub pos: int,
    /// The tokens so far.
    pub tokens: Seq<TokenModel>,
    /// The opener that is still waiting for a token.
    pub opener: Option<Opener>,
    /// The columns of the open blocks, outermost first: for each the column of
    /// the first token of the line that opened it.
    pub levels: Seq<usize>,
    /// The column of the first token of the current line, once it has one.
    pub line_col: Option<usize>,
}

pub open spec fn start_state() -> ScanState {
    ScanState { pos: 0, tokens: Seq::empty(), opener: None, levels: Seq::empty(), line_col: None }
}

pub open spec fn mark(kind: TokenType, at: Location) -> TokenModel {
    TokenModel { kind: Lexeme::Mark(kind), location: at }
}

/// `n` tokens of one kind at one location.
pub open spec fn marks(kind: TokenType, n: nat, at: Location) -> Seq<TokenModel> {
    Seq::new(n, |i: int| mark(kind, at))
}

/// The open blocks that stay open when a line starts in column `col`: from the
/// innermost outwards, a block whose column is `col` or more is closed.
pub open spec fn kept_levels(levels: Seq<usize>, col: usize) -> Seq<usize>
    decreases levels.len(),
{
    if levels.len() > 0 && levels.last() >= col {
        kept_levels(levels.drop_last(), col)
    } else {
        levels
    }
}

/// A waiting opener meets the first token of a later line, found at `at`: it
/// turns into `BeginBlock`, or for a `!` that the line is not indented under
/// into the `LineEnd` that was held back.
pub open spec fn opener_resolved(st: ScanState, at: Location) -> ScanState {
    match st.opener {
        Some(o) => if !o.deep_only || at.col > o.col {
            ScanState {
                tokens: st.tokens.push(mark(TokenType::BeginBlock, at)),
                levels: st.levels.push(o.col),
                opener: None,
                ..st
            }
        } else {
            ScanState {
                tokens: st.tokens.push(mark(TokenType::LineEnd, at)),
                opener: None,
                ..st
            }
        },
        None => st,
    }
}

/// One `EndBlock` at `at` for each open block that a line in column `col` closes.
pub open spec fn blocks_closed(st: ScanState, col: usize, at: Location) -> ScanState {
    let kept = kept_levels(st.levels, col);
    ScanState {
        tokens: st.tokens + marks(TokenType::EndBlock, (st.levels.len() - kept.len()) as nat, at),
        levels: kept,
        ..st
    }
}

/// The state once the first token of a line has been found at `at`, before it
/// is read: the waiting opener is resolved, then the line's column closes blocks.
pub open spec fn line_start(st: ScanState, at: Location) -> ScanState {
    ScanState { line_col: Some(at.col), ..blocks_closed(opener_resolved(st, at), at.col, at) }
}

pub open spec fn is_opener(kind: Lexeme) -> bool {
    kind == Lexeme::Mark(TokenType::Colon) || kind == Lexeme::Mark(TokenType::ThinArrow) || kind
        == Lexeme::Mark(TokenType::Bang)
}

/// The state before the token at `st.pos` is read: a first token of its line
/// starts the line, any other token only shows that a waiting opener did not
/// end its line.
pub open spec fn token_ready(text: Seq<char>, st: ScanState) -> ScanState {
    if st.line_col is None {
        line_start(st, place(text, st.pos))
    } else {
        ScanState { opener: None, ..st }
    }
}

/// The state after the token `kind`, which starts at `st.pos` and ends before `end`.
pub open spec fn token_done(text: Seq<char>, st: ScanState, kind: Lexeme, end: int) -> ScanState {
    ScanState {
        pos: end,
        tokens: st.tokens.push(TokenModel { kind, location: place(text, st.pos) }),
        opener: if is_opener(kind) {
            Some(Opener { col: st.line_col->0, deep_only: kind == Lexeme::Mark(TokenType::Bang) })
        } else {
            None
        },
        levels: st.levels,
        line_col: st.line_col,
    }
}

/// Reads the token at `st.pos`.
pub open spec fn token_step(src: Source, st: ScanState) -> Result<ScanState, LexError> {
    match lexeme_at(src, st.pos) {
        Err(e) => Err(e),
        Ok((kind, end)) => Ok(token_done(src.text, token_ready(src.text, st), kind, end)),
    }
}

/// Passes the newline at `st.pos`. A line with a token ends in `LineEnd`, unless
/// an opener is waiting: then the next line decides.
pub open spec fn newline_step(text: Seq<char>, st: ScanState) -> ScanState {
    ScanState {
        pos: st.pos + 1,
        tokens: if st.line_col is Some && st.opener is None {
            st.tokens.push(mark(TokenType::LineEnd, place(text, st.pos)))
        } else {
            st.tokens
        },
        opener: st.opener,
        levels: st.levels,
        line_col: None,
    }
}

/// The tokens of a text that has been read to its end: every open block is
/// closed, and `EndOfFile` comes last.
pub open spec fn finish(text: Seq<char>, st: ScanState) -> Seq<TokenModel> {
    let end = place(text, st.pos);
    (st.tokens + marks(TokenType::EndBlock, st.levels.len(), end)).push(
        mark(TokenType::EndOfFile, end),
    )
}

/// The tokens of a text, for a scanner that has read it up to `st.pos`.
pub open spec fn scan_from(src: Source, st: ScanState) -> Result<Seq<TokenModel>, LexError>
    decreases src.text.len() - st.pos,
{
    let text = src.text;
    if st.pos < 0 || st.pos >= text.len() {
        Ok(finish(text, st))
    } else if text[st.pos] == '\n' {
        scan_from(src, newline_step(text, st))
    } else if is_blank(text[st.pos]) {
        scan_from(src, ScanState { pos: st.pos + 1, ..st })
    } else {
        match token_step(src, st) {
            Err(e) => Err(e),
            Ok(next) => {
                proof {
                    lemma_lexeme_advances(src, st.pos);
                }
                scan_from(src, next)
            },
        }
    }
}

/// The tokens of a text whose letters and numbers are given, or the reason
/// why it has none.
pub open spec fn scan_source(src: Source) -> Result<Seq<TokenModel>, LexError> {
    scan_from(src, start_state())
}

/// The tokens of a text, or the reason why it has none. What is a letter and
/// what a number is for Unicode to say.
pub open spec fn scan_text(text: Seq<char>) -> Result<Seq<TokenModel>, LexError> {
    scan_source(source_of(text))
}

/// Whether the columns grow from each open block to the next.
pub open spec fn increasing(levels: Seq<usize>) -> bool {
    forall|i: int, j: int| 0 <= i < j < levels.len() ==> levels[i] < levels[j]
}

/// The blocks that stay open are the first of the open blocks.
pub proof fn lemma_kept_levels_prefix(levels: Seq<usize>, col: usize)
    ensures
        kept_levels(levels, col).len() <= levels.len(),
        kept_levels(levels, col) == levels.take(kept_levels(levels, col).len() as int),
        forall|i: int|
            kept_levels(levels, col).len() <= i < levels.len() ==> #[trigger] levels[i] >= col,
        kept_levels(levels, col).len() > 0 ==> kept_levels(levels, col).last() < col,
    decreases levels.len(),
{
    if levels.len() > 0 && levels.last() >= col {
        lemma_kept_levels_prefix(levels.drop_last(), col);
        let kept = kept_levels(levels, col);
        assert(kept =~= levels.take(kept.len() as int));
        assert forall|i: int| kept.len() <= i < levels.len() implies #[trigger] levels[i]
            >= col by {
            if i < levels.len() - 1 {
                assert(levels.drop_last()[i] == levels[i]);
            }
        }
    } else {
        assert(levels =~= levels.take(levels.len() as int));
    }
}

// ---------------------------------------------------------------------------
// The scanner
// ---------------------------------------------------------------------------

pub proof fn lemma_token_models_push(tokens: Seq<Token>, t: Token)
    ensures
        token_models(tokens.push(t)) == token_models(tokens).push(t@),
{
    assert(token_models(tokens.push(t)) =~= token_models(tokens).push(t@));
}

pub proof fn lemma_decimal_prefix(digits: Seq<char>, k: int)
    requires
        0 <= k <= digits.len(),
    ensures
        decimal(digits.take(k)) <= decimal(digits),
    decreases digits.len(),
{
    if k < digits.len() {
        lemma_decimal_prefix(digits.drop_last(), k);
        assert(digits.drop_last().take(k) =~= digits.take(k));
    } else {
        assert(digits.take(k) =~= digits);
    }
}

proof fn lemma_kept_levels_none(levels: Seq<usize>)
    ensures
        kept_levels(levels, 0).len() == 0,
    decreases levels.len(),
{
    if levels.len() > 0 {
        lemma_kept_levels_none(levels.drop_last());
    }
}

fn bump_by(x: usize, by: usize) -> (r: usize)
    ensures
        r == bump(x, by),
{
    if x <= usize::MAX - by {
        x + by
    } else {
        usize::MAX
    }
}

fn step_from(loc: Location, c: char) -> (r: Location)
    ensures
        r == step(loc, c),
{
    if c == '\n' {
        Location { line: bump_by(loc.line, 1), col: 0, index: bump_by(loc.index, 1) }
    } else if c == '\t' {
        Location { line: loc.line, col: bump_by(loc.col, 4), index: bump_by(loc.index, 1) }
    } else {
        Location { line: loc.line, col: bump_by(loc.col, 1), index: bump_by(loc.index, 1) }
    }
}

/// The characters of a string, in order.
pub fn chars_of(s: &str) -> (v: Vec<char>)
    ensures
        v@ == s@,
{
    let mut v: Vec<char> = Vec::new();
    for c in it: s.chars()
        invariant
            v@ == s@.take(it.index() as int),
            it.seq() == s@,
    {
        v.push(c);
    }
    assert(v@ =~= s@);
    v
}

/// For each character of `s` whether Unicode counts it as a letter or a number.
pub fn letters_in(s: &str) -> (r: Vec<bool>)
    ensures
        r@ == letters_of(s@),
{
    let mut r: Vec<bool> = Vec::new();
    for c in it: s.chars()
        invariant
            it.seq() == s@,
            r@ == letters_of(s@).take(it.index() as int),
    {
        assert(letters_of(s@).take(it.index() + 1) =~= letters_of(s@).take(it.index() as int).push(
            alphanumeric(c),
        ));
        r.push(is_alphanumeric(c));
    }
    assert(r@ =~= letters_of(s@));
    r
}

/// Whether two strings hold the same characters.
pub fn same_text(a: &str, b: &str) -> (r: bool)
    ensures
        r == (a@ == b@),
{
    let n = a.unicode_len();
    if n != b.unicode_len() {
        return false;
    }
    let mut i: usize = 0;
    while i < n
        invariant
            i <= n,
            n == a@.len(),
            n == b@.len(),
            forall|j: int| 0 <= j < i ==> a@[j] == b@[j],
        decreases n - i,
    {
        if a.get_char(i) != b.get_char(i) {
            return false;
        }
        i += 1;
    }
    assert(a@ =~= b@);
    true
}

fn punctuation_of(c: char) -> (r: Option<TokenType>)
    ensures
        r == punctuation(c),
{
    if c == '(' {
        Some(TokenType::LeftParen)
    } else if c == ')' {
        Some(TokenType::RightParen)
    } else if c == '{' {
        Some(TokenType::LeftBrace)
    } else if c == '}' {
        Some(TokenType::RightBrace)
    } else if c == ',' {
        Some(TokenType::Comma)
    } else if c == '.' {
        Some(TokenType::Dot)
    } else if c == ';' {
        Some(TokenType::Semicolon)
    } else if c == ':' {
        Some(TokenType::Colon)
    } else {
        None
    }
}

fn keyword_of(s: &str) -> (r: Option<TokenType>)
    ensures
        r == keyword(s@),
{
    if same_text(s, "!=") {
        Some(TokenType::BangEqual)
    } else if same_text(s, "!") {
        Some(TokenType::Bang)
    } else if same_text(s, "=") {
        Some(TokenType::Equal)
    } else if same_text(s, "==") {
        Some(TokenType::EqualEqual)
    } else if same_text(s, "<=") {
        Some(TokenType::LessEqual)
    } else if same_text(s, "<") {
        Some(TokenType::Less)
    } else if same_text(s, ">") {
        Some(TokenType::Greater)
    } else if same_text(s, ">=") {
        Some(TokenType::GreaterEqual)
    } else if same_text(s, "&") {
        Some(TokenType::And)
    } else if same_text(s, "&&") {
        Some(TokenType::AndAnd)
    } else if same_text(s, "|") {
        Some(TokenType::Or)
    } else if same_text(s, "||") {
        Some(TokenType::OrOr)
    } else if same_text(s, "/") {
        Some(TokenType::Slash)
    } else if same_text(s, "//") {
        Some(TokenType::SlashSlash)
    } else if same_text(s, "%") {
        Some(TokenType::Mod)
    } else if same_text(s, "%%") {
        Some(TokenType::ModMod)
    } else if same_text(s, "-") {
        Some(TokenType::Minus)
    } else if same_text(s, "+") {
        Some(TokenType::Plus)
    } else if same_text(s, "*") {
        Some(TokenType::Star)
    } else if same_text(s, "|>") {
        Some(TokenType::Pipeline)
    } else if same_text(s, "->") {
        Some(TokenType::ThinArrow)
    } else if same_text(s, "false") {
        Some(TokenType::False)
    } else if same_text(s, "true") {
        Some(TokenType::True)
    } else if same_text(s, "fn") {
        Some(TokenType::Fn)
    } else if same_text(s, "for") {
        Some(TokenType::For)
    } else if same_text(s, "while") {
        Some(TokenType::While)
    } else if same_text(s, "return") {
        Some(TokenType::Return)
    } else if same_text(s, "print") {
        Some(TokenType::Print)
    } else if same_text(s, "if") {
        Some(TokenType::If)
    } else if same_text(s, "then") {
        Some(TokenType::Then)
    } else if same_text(s, "else") {
        Some(TokenType::Else)
    } else {
        None
    }
}

/// Reads a text into tokens. Between two calls of [`Scanner::scan`] it holds nothing.
pub struct Scanner {
    source: String,
    stream: Vec<char>,
    letters: Vec<bool>,
    curr_loc: Location,
    tokens: Vec<Token>,
    open_block: Option<Opener>,
    block_levels: Vec<usize>,
    line_col: Option<usize>,
}

impl Scanner {
    /// The text that the scanner reads, with its letters and numbers.
    pub closed spec fn source(&self) -> Source {
        Source { text: self.stream@, letters: self.letters@ }
    }

    /// The text that the scanner reads.
    pub open spec fn text(&self) -> Seq<char> {
        self.source().text
    }

    /// How far the scanner has read, and what it has found.
    pub closed spec fn state(&self) -> ScanState {
        ScanState {
            pos: self.curr_loc.index as int,
            tokens: token_models(self.tokens@),
            opener: self.open_block,
            levels: self.block_levels@,
            line_col: self.line_col,
        }
    }

    /// The scanner's position lies in its text, and it knows the location of it.
    pub closed spec fn wf(&self) -> bool {
        &&& self.source@ == self.stream@
        &&& self.curr_loc.index <= self.stream@.len()
        &&& self.curr_loc == place(self.stream@, self.curr_loc.index as int)
    }

    pub fn new() -> (r: Self)
        ensures
            r.wf(),
            r.text() == Seq::<char>::empty(),
            r.state() == start_state(),
    {
        let r = Scanner {
            source: String::new(),
            stream: Vec::new(),
            letters: Vec::new(),
            curr_loc: Location { line: 0, col: 0, index: 0 },
            tokens: Vec::new(),
            open_block: None,
            block_levels: Vec::new(),
            line_col: None,
        };
        assert(token_models(r.tokens@) =~= Seq::empty());
        assert(r.block_levels@ =~= Seq::empty());
        r
    }

    /// Adds a token of the given type at the scanner's position.
    pub fn emit_token(&mut self, token_type: TokenType)
        requires
            old(self).wf(),
        ensures
            final(self).wf(),
            final(self).source() == old(self).source(),
            final(self).state() == (ScanState {
                tokens: old(self).state().tokens.push(
                    TokenModel {
                        kind: token_type@,
                        location: place(old(self).text(), old(self).state().pos),
                    },
                ),
                ..old(self).state()
            }),
    {
        let token = Token { token_type, location: self.curr_loc };
        proof {
            lemma_token_models_push(self.tokens@, token);
        }
        self.tokens.push(token);
    }

    /// Reads one character, if any is left, and tells whether it is `lexeme`.
    pub fn check(&mut self, lexeme: char) -> (r: bool)
        requires
            old(self).wf(),
        ensures
            final(self).wf(),
            final(self).source() == old(self).source(),
            old(self).state().pos < old(self).text().len() ==> r == (old(self).text()[old(
                self,
            ).state().pos] == lexeme) && final(self).state() == (ScanState {
                pos: old(self).state().pos + 1,
                ..old(self).state()
            }),
            old(self).state().pos >= old(self).text().len() ==> !r && final(self).state() == old(
                self,
            ).state(),
    {
        match self.next() {
            Some(c) => c == lexeme,
            None => false,
        }
    }

    fn peek(&self) -> (r: Option<char>)
        requires
            self.wf(),
        ensures
            r == (if self.state().pos < self.text().len() {
                Some(self.text()[self.state().pos])
            } else {
                None
            }),
    {
        if self.curr_loc.index >= self.stream.len() {
            None
        } else {
            Some(self.stream[self.curr_loc.index])
        }
    }

    fn next(&mut self) -> (r: Option<char>)
        requires
            old(self).wf(),
        ensures
            final(self).wf(),
            final(self).source() == old(self).source(),
            old(self).state().pos < old(self).text().len() ==> r == Some(
                old(self).text()[old(self).state().pos],
            ) && final(self).state() == (ScanState {
                pos: old(self).state().pos + 1,
                ..old(self).state()
            }),
            old(self).state().pos >= old(self).text().len() ==> r is None && final(self).state()
                == old(self).state(),
    {
        if self.curr_loc.index >= self.stream.len() {
            None
        } else {
            let c = self.stream[self.curr_loc.index];
            proof {
                lemma_place_index(self.stream@, self.curr_loc.index as int + 1);
            }
            self.curr_loc = step_from(self.curr_loc, c);
            Some(c)
        }
    }

    /// Reads on to position `end`.
    fn advance_to(&mut self, end: usize)
        requires
            old(self).wf(),
            old(self).state().pos <= end <= old(self).text().len(),
        ensures
            final(self).wf(),
            final(self).source() == old(self).source(),
            final(self).state() == (ScanState { pos: end as int, ..old(self).state() }),
    {
        while self.curr_loc.index < end
            invariant
                self.wf(),
                self.source() == old(self).source(),
                self.state().pos <= end <= self.text().len(),
                self.state() == (ScanState { pos: self.state().pos, ..old(self).state() }),
            decreases end - self.curr_loc.index,
        {
            self.next();
        }
    }

    /// Resolves a waiting opener at the first token of a line.
    fn emit_open_block(&mut self)
        requires
            old(self).wf(),
        ensures
            final(self).wf(),
            final(self).source() == old(self).source(),
            final(self).state() == opener_resolved(
                old(self).state(),
                place(old(self).text(), old(self).state().pos),
            ),
    {
        match self.open_block {
            Some(o) => {
                if !o.deep_only || self.curr_loc.col > o.col {
                    self.block_levels.push(o.col);
                    self.open_block = None;
                    self.emit_token(TokenType::BeginBlock);
                } else {
                    self.open_block = None;
                    self.emit_token(TokenType::LineEnd);
                }
            },
            None => {},
        }
    }

    /// Closes the blocks that a line in column `col` closes.
    fn emit_closed_blocks(&mut self, col: usize)
        requires
            old(self).wf(),
        ensures
            final(self).wf(),
            final(self).source() == old(self).source(),
            final(self).state() == blocks_closed(
                old(self).state(),
                col,
                place(old(self).text(), old(self).state().pos),
            ),
    {
        let ghost at = place(self.text(), self.state().pos);
        loop
            invariant
                self.wf(),
                self.source() == old(self).source(),
                at == place(self.text(), self.state().pos),
                blocks_closed(self.state(), col, at) == blocks_closed(old(self).state(), col, at),
            ensures
                self.wf(),
                self.source() == old(self).source(),
                self.state() == blocks_closed(old(self).state(), col, at),
            decreases self.block_levels.len(),
        {
            let n = self.block_levels.len();
            if n == 0 || self.block_levels[n - 1] < col {
                proof {
                    let st = self.state();
                    assert(kept_levels(st.levels, col) == st.levels);
                    assert(st.tokens + marks(TokenType::EndBlock, 0, at) =~= st.tokens);
                }
                break;
            }
            let ghost before = self.state();
            self.block_levels.pop();
            self.emit_token(TokenType::EndBlock);
            proof {
                let st = self.state();
                assert(st.levels =~= before.levels.drop_last());
                let kept = kept_levels(before.levels, col);
                assert(kept == kept_levels(st.levels, col));
                lemma_kept_levels_prefix(st.levels, col);
                assert(st.tokens + marks(
                    TokenType::EndBlock,
                    (st.levels.len() - kept.len()) as nat,
                    at,
                ) =~= before.tokens + marks(
                    TokenType::EndBlock,
                    (before.levels.len() - kept.len()) as nat,
                    at,
                ));
            }
        }
    }

    /// Closes every open block and ends the token sequence.
    fn emit_end_of_file(&mut self)
        requires
            old(self).wf(),
        ensures
            final(self).wf(),
            final(self).source() == old(self).source(),
            final(self).state().tokens == finish(old(self).text(), old(self).state()),
    {
        proof {
            lemma_kept_levels_none(self.state().levels);
        }
        self.emit_closed_blocks(0);
        self.emit_token(TokenType::EndOfFile);
    }

    fn identifier_symbol(c: char) -> (r: bool)
        ensures
            r == is_symbol(c),
    {
        c == '-' || c == '>' || c == '<' || c == '+' || c == '/' || c == '%' || c == '&' || c
            == '|' || c == '!' || c == '=' || c == '*'
    }

    /// Whether `c` is a character that names are made of, for a caller that
    /// knows whether it is a letter or a number.
    fn identifier_character(c: char, letter: bool) -> (r: bool)
        ensures
            r == (letter || c == '_'),
    {
        letter || c == '_'
    }

    /// Whether the character at position `i` is of `class`.
    fn belongs(&self, i: usize, class: &CharClass) -> (r: bool)
        requires
            i < self.text().len(),
        ensures
            r == in_class(self.source(), i as int, *class),
    {
        let c = self.stream[i];
        match class {
            CharClass::Digit => c >= '0' && c <= '9',
            CharClass::Word => Self::identifier_character(
                c,
                i < self.letters.len() && self.letters[i],
            ),
            CharClass::Symbol => Self::identifier_symbol(c),
        }
    }

    /// Where the run of `class` that starts at `from` ends.
    fn run_end_of(&self, from: usize, class: &CharClass) -> (end: usize)
        requires
            self.wf(),
            from <= self.text().len(),
        ensures
            end == run_end(self.source(), from as int, *class),
            from <= end <= self.text().len(),
    {
        let mut end = from;
        while end < self.stream.len() && self.belongs(end, class)
            invariant
                from <= end <= self.stream@.len(),
                run_end(self.source(), from as int, *class) == run_end(
                    self.source(),
                    end as int,
                    *class,
                ),
            decreases self.stream@.len() - end,
        {
            end += 1;
        }
        end
    }

    /// Where the name, keyword or operator at the scanner's position ends.
    fn scan_identifier(&self) -> (end: usize)
        requires
            self.wf(),
            self.state().pos < self.text().len(),
        ensures
            end == word_end(self.source(), self.state().pos),
            self.state().pos < end <= self.text().len(),
    {
        proof {
            lemma_lexeme_advances(self.source(), self.state().pos);
        }
        if self.belongs(self.curr_loc.index, &CharClass::Word) {
            self.run_end_of(self.curr_loc.index, &CharClass::Word)
        } else if self.belongs(self.curr_loc.index, &CharClass::Symbol) {
            self.run_end_of(self.curr_loc.index, &CharClass::Symbol)
        } else {
            assert(self.curr_loc.index < self.stream.len());
            self.curr_loc.index + 1
        }
    }

    /// The characters from `from` up to `to`, as a string.
    fn slice(&self, from: usize, to: usize) -> (r: String)
        requires
            self.wf(),
            from <= to <= self.text().len(),
        ensures
            r@ == self.text().subrange(from as int, to as int),
    {
        self.source.as_str().substring_char(from, to).to_owned()
    }

    /// Adds the token that runs from the scanner's position to `end`, and goes there.
    fn emit_lexeme(&mut self, token_type: TokenType, end: usize)
        requires
            old(self).wf(),
            old(self).state().pos <= end <= old(self).text().len(),
            old(self).state().line_col is Some,
        ensures
            final(self).wf(),
            final(self).source() == old(self).source(),
            final(self).state() == token_done(
                old(self).text(),
                old(self).state(),
                token_type@,
                end as int,
            ),
    {
        let col = match self.line_col {
            Some(c) => c,
            None => 0,
        };
        let opener = match token_type {
            TokenType::Colon => Some(Opener { col, deep_only: false }),
            TokenType::ThinArrow => Some(Opener { col, deep_only: false }),
            TokenType::Bang => Some(Opener { col, deep_only: true }),
            _ => None,
        };
        self.emit_token(token_type);
        self.advance_to(end);
        self.open_block = opener;
    }

    /// Reads the string literal whose opening quote stands at the scanner's position.
    fn emit_string(&mut self, boundary: char) -> (r: Result<(), LexError>)
        requires
            old(self).wf(),
            old(self).state().pos < old(self).text().len(),
            old(self).state().line_col is Some,
        ensures
            final(self).wf(),
            final(self).source() == old(self).source(),
            match closing_quote(old(self).text(), old(self).state().pos + 1, boundary) {
                None => r == Err::<(), LexError>(LexError::UnterminatedString),
                Some(close) => r is Ok && final(self).state() == token_done(
                    old(self).text(),
                    old(self).state(),
                    Lexeme::Text(old(self).text().subrange(old(self).state().pos + 1, close)),
                    close + 1,
                ),
            },
    {
        assert(self.curr_loc.index < self.stream.len());
        let start = self.curr_loc.index + 1;
        let mut close = start;
        while close < self.stream.len() && self.stream[close] != boundary
            invariant
                start <= close <= self.stream@.len(),
                closing_quote(self.stream@, start as int, boundary) == closing_quote(
                    self.stream@,
                    close as int,
                    boundary,
                ),
            decreases self.stream@.len() - close,
        {
            close += 1;
        }
        if close >= self.stream.len() {
            return Err(LexError::UnterminatedString);
        }
        let value = self.slice(start, close);
        self.emit_lexeme(TokenType::String(value), close + 1);
        Ok(())
    }

    /// Reads the number whose first digit stands at the scanner's position.
    fn emit_int(&mut self) -> (r: Result<(), LexError>)
        requires
            old(self).wf(),
            old(self).state().pos < old(self).text().len(),
            old(self).state().line_col is Some,
        ensures
            final(self).wf(),
            final(self).source() == old(self).source(),
            ({
                let text = old(self).text();
                let start = old(self).state().pos;
                let end = run_end(old(self).source(), start, CharClass::Digit);
                let value = decimal(text.subrange(start, end));
                if value <= i32::MAX {
                    r is Ok && final(self).state() == token_done(
                        text,
                        old(self).state(),
                        Lexeme::Int(value as i32),
                        end,
                    )
                } else {
                    r == Err::<(), LexError>(LexError::InvalidNumber)
                }
            }),
    {
        let start = self.curr_loc.index;
        let end = self.run_end_of(start, &CharClass::Digit);
        let ghost digits = self.stream@.subrange(start as int, end as int);
        proof {
            lemma_run_end_bounds(self.source(), start as int, CharClass::Digit);
        }
        let mut value: i64 = 0;
        let mut k = start;
        while k < end
            invariant
                *self == *old(self),
                self.wf(),
                start == self.curr_loc.index,
                end == run_end(self.source(), start as int, CharClass::Digit),
                start <= k <= end <= self.stream@.len(),
                digits == self.stream@.subrange(start as int, end as int),
                forall|i: int|
                    start <= i < end ==> #[trigger] in_class(self.source(), i, CharClass::Digit),
                value == decimal(digits.take(k - start)),
                0 <= value <= i32::MAX,
            decreases end - k,
        {
            let c = self.stream[k];
            assert(in_class(self.source(), k as int, CharClass::Digit));
            let d = (c as u32 - '0' as u32) as i64;
            proof {
                let longer = digits.take(k + 1 - start);
                assert(longer.drop_last() =~= digits.take(k - start));
                assert(longer.last() == c);
                lemma_decimal_prefix(digits, k + 1 - start);
            }
            value = value * 10 + d;
            if value > i32::MAX as i64 {
                return Err(LexError::InvalidNumber);
            }
            k += 1;
        }
        proof {
            assert(digits.take(end - start) =~= digits);
        }
        self.emit_lexeme(TokenType::Int(value as i32), end);
        Ok(())
    }

    /// Reads the name, keyword or operator at the scanner's position.
    fn emit_word(&mut self)
        requires
            old(self).wf(),
            old(self).state().pos < old(self).text().len(),
            old(self).state().line_col is Some,
        ensures
            final(self).wf(),
            final(self).source() == old(self).source(),
            ({
                let start = old(self).state().pos;
                let end = word_end(old(self).source(), start);
                final(self).state() == token_done(
                    old(self).text(),
                    old(self).state(),
                    word_lexeme(old(self).text().subrange(start, end)),
                    end,
                )
            }),
    {
        let end = self.scan_identifier();
        let id = self.slice(self.curr_loc.index, end);
        match keyword_of(id.as_str()) {
            Some(t) => self.emit_lexeme(t, end),
            None => self.emit_lexeme(TokenType::Identifier(id), end),
        }
    }

    /// Reads the token at the scanner's position, which holds `c`.
    fn scan_token(&mut self, c: char) -> (r: Result<(), LexError>)
        requires
            old(self).wf(),
            old(self).state().pos < old(self).text().len(),
            c == old(self).text()[old(self).state().pos],
        ensures
            final(self).wf(),
            final(self).source() == old(self).source(),
            match token_step(old(self).source(), old(self).state()) {
                Err(e) => r == Err::<(), LexError>(e),
                Ok(next) => r is Ok && final(self).state() == next,
            },
    {
        if self.line_col.is_none() {
            self.emit_open_block();
            self.emit_closed_blocks(self.curr_loc.col);
            self.line_col = Some(self.curr_loc.col);
        } else {
            self.open_block = None;
        }
        assert(self.state() == token_ready(old(self).text(), old(self).state()));
        match punctuation_of(c) {
            Some(t) => {
                assert(self.curr_loc.index < self.stream.len());
                self.emit_lexeme(t, self.curr_loc.index + 1);
                Ok(())
            },
            None => {
                if c == '"' || c == '\'' {
                    self.emit_string(c)
                } else if c >= '0' && c <= '9' {
                    self.emit_int()
                } else {
                    self.emit_word();
                    Ok(())
                }
            },
        }
    }

    /// Passes the newline at the scanner's position.
    fn end_line(&mut self)
        requires
            old(self).wf(),
            old(self).state().pos < old(self).text().len(),
        ensures
            final(self).wf(),
            final(self).source() == old(self).source(),
            final(self).state() == newline_step(old(self).text(), old(self).state()),
    {
        if self.line_col.is_some() && self.open_block.is_none() {
            self.emit_token(TokenType::LineEnd);
        }
        self.line_col = None;
        self.next();
    }

    /// Scans `line` from its start: the tokens of [`scan_text`], or its error.
    /// Whatever the scanner held before is dropped, and it holds nothing after.
    pub fn scan(&mut self, line: String) -> (r: Result<Vec<Token>, LexError>)
        ensures
            final(self).wf(),
            final(self).text() == Seq::<char>::empty(),
            final(self).state() == start_state(),
            match scan_text(line@) {
                Ok(tokens) => r is Ok && token_models(r->Ok_0@) == tokens,
                Err(e) => r == Err::<Vec<Token>, LexError>(e),
            },
            r is Ok ==> r->Ok_0.len() > 0 && r->Ok_0@.last().token_type@ == Lexeme::Mark(
                TokenType::EndOfFile,
            ),
    {
        let letters = letters_in(line.as_str());
        self.scan_classified(line, letters)
    }

    /// Scans `line` from its start, for a caller that says of each character
    /// whether it is a letter or a number, in `letters`; a character that
    /// `letters` is too short for is none. The tokens are those of
    /// [`scan_source`], or its error.
    pub fn scan_classified(&mut self, line: String, letters: Vec<bool>) -> (r: Result<
        Vec<Token>,
        LexError,
    >)
        ensures
            final(self).wf(),
            final(self).text() == Seq::<char>::empty(),
            final(self).state() == start_state(),
            match scan_source(Source { text: line@, letters: letters@ }) {
                Ok(tokens) => r is Ok && token_models(r->Ok_0@) == tokens,
                Err(e) => r == Err::<Vec<Token>, LexError>(e),
            },
            r is Ok ==> r->Ok_0.len() > 0 && r->Ok_0@.last().token_type@ == Lexeme::Mark(
                TokenType::EndOfFile,
            ),
    {
        let r = self.scan_all(line, letters);
        *self = Scanner::new();
        r
    }

    /// Scans `line` from its start, and leaves the scanner where it ended.
    fn scan_all(&mut self, line: String, letters: Vec<bool>) -> (r: Result<Vec<Token>, LexError>)
        ensures
            final(self).wf(),
            match scan_source(Source { text: line@, letters: letters@ }) {
                Ok(tokens) => r is Ok && token_models(r->Ok_0@) == tokens,
                Err(e) => r == Err::<Vec<Token>, LexError>(e),
            },
            r is Ok ==> r->Ok_0.len() > 0 && r->Ok_0@.last().token_type@ == Lexeme::Mark(
                TokenType::EndOfFile,
            ),
    {
        let stream = chars_of(line.as_str());
        let ghost src = Source { text: line@, letters: letters@ };
        *self = Scanner {
            source: line,
            stream,
            letters,
            curr_loc: Location { line: 0, col: 0, index: 0 },
            tokens: Vec::new(),
            open_block: None,
            block_levels: Vec::new(),
            line_col: None,
        };
        assert(token_models(self.tokens@) =~= Seq::empty());
        assert(self.block_levels@ =~= Seq::empty());
        loop
            invariant
                self.wf(),
                src == (Source { text: line@, letters: letters@ }),
                self.source() == src,
                scan_from(src, self.state()) == scan_source(src),
            ensures
                self.wf(),
                self.source() == src,
                self.state().pos >= src.text.len(),
                scan_from(src, self.state()) == scan_source(src),
            decreases self.stream@.len() - self.curr_loc.index,
        {
            match self.peek() {
                None => {
                    break;
                },
                Some(c) => {
                    if c == '\n' {
                        self.end_line();
                    } else if c == ' ' || c == '\t' || c == '\r' {
                        self.next();
                    } else {
                        proof {
                            lemma_lexeme_advances(src, self.state().pos);
                        }
                        match self.scan_token(c) {
                            Err(e) => {
                                return Err(e);
                            },
                            Ok(()) => {},
                        }
                    }
                },
            }
        }
        self.emit_end_of_file();
        let mut tokens: Vec<Token> = Vec::new();
        core::mem::swap(&mut tokens, &mut self.tokens);
        assert(token_models(tokens@).last() == tokens@.last()@);
        Ok(tokens)
    }
}

impl Default for Scanner {
    fn default() -> (r: Self)
        ensures
            r.wf(),
            r.state() == start_state(),
    {
        Self::new()
    }
}

} // verus!
