use zeal::scanner::{
    chars_of, letters_in, same_text, LexError, Location, Scanner, Token, TokenType,
};

fn kinds(source: &str) -> Vec<TokenType> {
    let tokens = Scanner::new().scan(String::from(source)).unwrap();
    let mut out = Vec::new();
    for token in tokens {
        out.push(token.token_type);
    }
    out
}

fn name(text: &str) -> TokenType {
    TokenType::Identifier(String::from(text))
}

#[test]
fn empty_text_is_end_of_file_alone() {
    assert_eq!(kinds(""), vec![TokenType::EndOfFile]);
    assert_eq!(kinds("  \t \r\n\n   "), vec![TokenType::EndOfFile]);
}

#[test]
fn declaration_is_colon_then_equal() {
    assert_eq!(
        kinds("i := 1"),
        vec![
            name("i"),
            TokenType::Colon,
            TokenType::Equal,
            TokenType::Int(1),
            TokenType::EndOfFile
        ]
    );
}

#[test]
fn every_token_ends_in_end_of_file() {
    for source in ["", "a", "a\n", "if a:\n  b", "f!\n  1\n  2", "x := fn ->\n    1\n"] {
        let all = kinds(source);
        assert_eq!(all.last(), Some(&TokenType::EndOfFile));
    }
}

#[test]
fn locations_are_where_tokens_start() {
    let tokens = Scanner::new().scan(String::from("ab  cd\n\tx \"s\"")).unwrap();
    let want = vec![
        (name("ab"), Location { line: 0, col: 0, index: 0 }),
        (name("cd"), Location { line: 0, col: 4, index: 4 }),
        (TokenType::LineEnd, Location { line: 0, col: 6, index: 6 }),
        (name("x"), Location { line: 1, col: 4, index: 8 }),
        (TokenType::String(String::from("s")), Location { line: 1, col: 6, index: 10 }),
        (TokenType::EndOfFile, Location { line: 1, col: 9, index: 13 }),
    ];
    assert_eq!(tokens.len(), want.len());
    for (token, (token_type, location)) in tokens.iter().zip(want.into_iter()) {
        assert_eq!(token.token_type, token_type);
        assert_eq!(token.location, location);
    }
}

#[test]
fn single_characters() {
    assert_eq!(
        kinds("( ) { } , . ; :"),
        vec![
            TokenType::LeftParen,
            TokenType::RightParen,
            TokenType::LeftBrace,
            TokenType::RightBrace,
            TokenType::Comma,
            TokenType::Dot,
            TokenType::Semicolon,
            TokenType::Colon,
            TokenType::EndOfFile
        ]
    );
}

#[test]
fn operators_are_looked_up_whole() {
    assert_eq!(
        kinds("!= ! = == <= < > >= & && | || / // % %% - + * |> ->"),
        vec![
            TokenType::BangEqual,
            TokenType::Bang,
            TokenType::Equal,
            TokenType::EqualEqual,
            TokenType::LessEqual,
            TokenType::Less,
            TokenType::Greater,
            TokenType::GreaterEqual,
            TokenType::And,
            TokenType::AndAnd,
            TokenType::Or,
            TokenType::OrOr,
            TokenType::Slash,
            TokenType::SlashSlash,
            TokenType::Mod,
            TokenType::ModMod,
            TokenType::Minus,
            TokenType::Plus,
            TokenType::Star,
            TokenType::Pipeline,
            TokenType::ThinArrow,
            TokenType::EndOfFile
        ]
    );
}

#[test]
fn keywords() {
    assert_eq!(
        kinds("true false fn if else while print for return then"),
        vec![
            TokenType::True,
            TokenType::False,
            TokenType::Fn,
            TokenType::If,
            TokenType::Else,
            TokenType::While,
            TokenType::Print,
            TokenType::For,
            TokenType::Return,
            TokenType::Then,
            TokenType::EndOfFile
        ]
    );
}

#[test]
fn a_run_of_symbols_is_one_token() {
    assert_eq!(kinds("a=-1"), vec![name("a"), name("=-"), TokenType::Int(1), TokenType::EndOfFile]);
    assert_eq!(kinds("a==b"), vec![name("a"), TokenType::EqualEqual, name("b"), TokenType::EndOfFile]);
    assert_eq!(kinds("a|>b"), vec![name("a"), TokenType::Pipeline, name("b"), TokenType::EndOfFile]);
}

#[test]
fn words_and_symbols_do_not_mix() {
    assert_eq!(kinds("foo+bar_1"), vec![name("foo"), TokenType::Plus, name("bar_1"), TokenType::EndOfFile]);
    assert_eq!(kinds("ifx"), vec![name("ifx"), TokenType::EndOfFile]);
    assert_eq!(kinds("12ab"), vec![TokenType::Int(12), name("ab"), TokenType::EndOfFile]);
    assert_eq!(kinds("ab12"), vec![name("ab12"), TokenType::EndOfFile]);
}

#[test]
fn letters_of_any_script_make_names() {
    assert_eq!(kinds("\u{e9}t\u{e9} \u{3b1}\u{3b2}"), vec![
        name("\u{e9}t\u{e9}"),
        name("\u{3b1}\u{3b2}"),
        TokenType::EndOfFile
    ]);
}

#[test]
fn a_character_of_no_class_stands_alone() {
    assert_eq!(kinds("@@"), vec![name("@"), name("@"), TokenType::EndOfFile]);
    assert_eq!(kinds("#a"), vec![name("#"), name("a"), TokenType::EndOfFile]);
}

#[test]
fn strings_have_no_escapes() {
    assert_eq!(
        kinds("\"a\\\" 'b\"c'"),
        vec![
            TokenType::String(String::from("a\\")),
            TokenType::String(String::from("b\"c")),
            TokenType::EndOfFile
        ]
    );
    assert_eq!(kinds("\"\""), vec![TokenType::String(String::new()), TokenType::EndOfFile]);
}

#[test]
fn a_string_may_span_lines() {
    let tokens = Scanner::new().scan(String::from("\"a\nb\" c")).unwrap();
    assert_eq!(tokens[0].token_type, TokenType::String(String::from("a\nb")));
    assert_eq!(tokens[1].token_type, name("c"));
    assert_eq!(tokens[1].location, Location { line: 1, col: 3, index: 6 });
}

#[test]
fn unterminated_string_is_an_error() {
    assert_eq!(Scanner::new().scan(String::from("\"abc")), Err(LexError::UnterminatedString));
    assert_eq!(Scanner::new().scan(String::from("x := 'abc\"")), Err(LexError::UnterminatedString));
    assert_eq!(Scanner::new().scan(String::from("\"")), Err(LexError::UnterminatedString));
}

#[test]
fn numbers_up_to_the_largest() {
    assert_eq!(kinds("0 007 2147483647"), vec![
        TokenType::Int(0),
        TokenType::Int(7),
        TokenType::Int(2147483647),
        TokenType::EndOfFile
    ]);
}

#[test]
fn a_number_too_large_is_an_error() {
    assert_eq!(Scanner::new().scan(String::from("2147483648")), Err(LexError::InvalidNumber));
    assert_eq!(
        Scanner::new().scan(String::from("x := 99999999999999999999999999")),
        Err(LexError::InvalidNumber)
    );
}

#[test]
fn a_line_with_tokens_ends_in_line_end() {
    assert_eq!(kinds("a\nb\n\n\nc"), vec![
        name("a"),
        TokenType::LineEnd,
        name("b"),
        TokenType::LineEnd,
        name("c"),
        TokenType::EndOfFile
    ]);
}

#[test]
fn colon_at_line_end_opens_a_block() {
    assert_eq!(kinds("if a:\n  b\nc"), vec![
        TokenType::If,
        name("a"),
        TokenType::Colon,
        TokenType::BeginBlock,
        name("b"),
        TokenType::LineEnd,
        TokenType::EndBlock,
        name("c"),
        TokenType::EndOfFile
    ]);
}

#[test]
fn arrow_at_line_end_opens_a_block() {
    assert_eq!(kinds("fn x ->\n  x\n"), vec![
        TokenType::Fn,
        name("x"),
        TokenType::ThinArrow,
        TokenType::BeginBlock,
        name("x"),
        TokenType::LineEnd,
        TokenType::EndBlock,
        TokenType::EndOfFile
    ]);
}

#[test]
fn a_body_on_the_same_line_opens_no_block() {
    assert_eq!(kinds("if a: b\nc"), vec![
        TokenType::If,
        name("a"),
        TokenType::Colon,
        name("b"),
        TokenType::LineEnd,
        name("c"),
        TokenType::EndOfFile
    ]);
}

#[test]
fn a_line_at_the_opening_column_closes_the_block() {
    assert_eq!(kinds("  if a:\n    b\n  c"), vec![
        TokenType::If,
        name("a"),
        TokenType::Colon,
        TokenType::BeginBlock,
        name("b"),
        TokenType::LineEnd,
        TokenType::EndBlock,
        name("c"),
        TokenType::EndOfFile
    ]);
}

#[test]
fn a_line_deeper_than_the_opening_column_stays_in_the_block() {
    assert_eq!(kinds("if a:\n      b\n  c\nd"), vec![
        TokenType::If,
        name("a"),
        TokenType::Colon,
        TokenType::BeginBlock,
        name("b"),
        TokenType::LineEnd,
        name("c"),
        TokenType::LineEnd,
        TokenType::EndBlock,
        name("d"),
        TokenType::EndOfFile
    ]);
}

#[test]
fn one_line_closes_several_blocks() {
    assert_eq!(kinds("if a:\n  if b:\n    if c:\n      d\ne"), vec![
        TokenType::If,
        name("a"),
        TokenType::Colon,
        TokenType::BeginBlock,
        TokenType::If,
        name("b"),
        TokenType::Colon,
        TokenType::BeginBlock,
        TokenType::If,
        name("c"),
        TokenType::Colon,
        TokenType::BeginBlock,
        name("d"),
        TokenType::LineEnd,
        TokenType::EndBlock,
        TokenType::EndBlock,
        TokenType::EndBlock,
        name("e"),
        TokenType::EndOfFile
    ]);
}

#[test]
fn the_end_of_the_text_closes_every_block() {
    assert_eq!(kinds("if a:\n  if b:\n    c"), vec![
        TokenType::If,
        name("a"),
        TokenType::Colon,
        TokenType::BeginBlock,
        TokenType::If,
        name("b"),
        TokenType::Colon,
        TokenType::BeginBlock,
        name("c"),
        TokenType::EndBlock,
        TokenType::EndBlock,
        TokenType::EndOfFile
    ]);
}

#[test]
fn a_block_under_a_colon_may_be_empty() {
    assert_eq!(kinds("if a:\nb"), vec![
        TokenType::If,
        name("a"),
        TokenType::Colon,
        TokenType::BeginBlock,
        TokenType::EndBlock,
        name("b"),
        TokenType::EndOfFile
    ]);
}

#[test]
fn bang_opens_a_block_only_for_a_deeper_line() {
    assert_eq!(kinds("f!\n  1\n  2\ng"), vec![
        name("f"),
        TokenType::Bang,
        TokenType::BeginBlock,
        TokenType::Int(1),
        TokenType::LineEnd,
        TokenType::Int(2),
        TokenType::LineEnd,
        TokenType::EndBlock,
        name("g"),
        TokenType::EndOfFile
    ]);
    assert_eq!(kinds("f!\ng!\n"), vec![
        name("f"),
        TokenType::Bang,
        TokenType::LineEnd,
        name("g"),
        TokenType::Bang,
        TokenType::EndOfFile
    ]);
}

#[test]
fn bang_before_a_token_on_its_line_opens_nothing() {
    assert_eq!(kinds("f! 1\n  2"), vec![
        name("f"),
        TokenType::Bang,
        TokenType::Int(1),
        TokenType::LineEnd,
        TokenType::Int(2),
        TokenType::EndOfFile
    ]);
}

#[test]
fn scanning_twice_starts_afresh() {
    let mut scanner = Scanner::new();
    let first = scanner.scan(String::from("if a:\n  b")).unwrap();
    let second = scanner.scan(String::from("c")).unwrap();
    assert_eq!(first.len(), 7);
    assert_eq!(second.len(), 2);
    assert_eq!(second[0].token_type, name("c"));
    assert_eq!(second[0].location, Location { line: 0, col: 0, index: 0 });
    assert_eq!(scanner.scan(String::from("'")), Err(LexError::UnterminatedString));
    assert_eq!(scanner.scan(String::from("c")).unwrap().len(), 2);
}

#[test]
fn check_on_an_empty_scanner_reads_nothing() {
    let mut scanner = Scanner::new();
    assert!(!scanner.check('a'));
    scanner.emit_token(TokenType::Comma);
    let tokens: Vec<Token> = scanner.scan(String::from("")).unwrap();
    assert_eq!(tokens.len(), 1);
}

#[test]
fn token_types_compare_by_content() {
    assert!(name("a").same(&name("a")));
    assert!(!name("a").same(&name("b")));
    assert!(!name("a").same(&TokenType::String(String::from("a"))));
    assert!(TokenType::Int(3).same(&TokenType::Int(3)));
    assert!(!TokenType::Int(3).same(&TokenType::Int(4)));
    assert!(TokenType::Colon.same(&TokenType::Colon));
    assert!(!TokenType::Colon.same(&TokenType::Comma));
    assert_eq!(name("a").clone(), name("a"));
}

#[test]
fn letters_and_numbers_are_what_unicode_says() {
    assert_eq!(letters_in(""), Vec::<bool>::new());
    assert_eq!(
        letters_in("a_ 1-\u{e9}\u{663}\u{2460}+\n"),
        vec![true, false, false, true, false, true, true, true, false, false]
    );
}

#[test]
fn names_are_read_by_the_letters_given() {
    let kinds = |letters: Vec<bool>| {
        let tokens = Scanner::new().scan_classified(String::from("ab_c d"), letters).unwrap();
        let mut out = Vec::new();
        for token in tokens {
            out.push(token.token_type);
        }
        out
    };
    assert_eq!(
        kinds(vec![true, true, false, true, false, true]),
        vec![name("ab_c"), name("d"), TokenType::EndOfFile]
    );
    assert_eq!(
        kinds(vec![false, true, false, false, false, true]),
        vec![name("a"), name("b_"), name("c"), name("d"), TokenType::EndOfFile]
    );
    assert_eq!(
        kinds(vec![true]),
        vec![name("a"), name("b"), name("_"), name("c"), name("d"), TokenType::EndOfFile]
    );
    assert_eq!(
        kinds(vec![true, true, false, true, false, true, true, true]),
        vec![name("ab_c"), name("d"), TokenType::EndOfFile]
    );
}

#[test]
fn scanning_classifies_by_itself() {
    let text = "caf\u{e9} := x1 + _y";
    let by_hand = Scanner::new().scan_classified(String::from(text), letters_in(text)).unwrap();
    let whole = Scanner::new().scan(String::from(text)).unwrap();
    assert_eq!(by_hand, whole);
    assert_eq!(whole[0].token_type, name("caf\u{e9}"));
    assert_eq!(whole[3].token_type, name("x1"));
    assert_eq!(whole[5].token_type, name("_y"));
}

#[test]
fn strings_as_characters() {
    assert_eq!(chars_of(""), Vec::<char>::new());
    assert_eq!(chars_of("a\u{e9}\n"), vec!['a', '\u{e9}', '\n']);
    assert!(same_text("", ""));
    assert!(same_text("ab\u{e9}", "ab\u{e9}"));
    assert!(!same_text("ab", "abc"));
    assert!(!same_text("ab", "ac"));
    assert!(!same_text("\u{e9}", "e"));
}

#[test]
fn scanning_leaves_the_scanner_empty() {
    let mut scanner = Scanner::new();
    scanner.scan(String::from("a b c")).unwrap();
    assert!(!scanner.check('a'));
    assert_eq!(scanner.scan(String::new()).unwrap().len(), 1);
}
