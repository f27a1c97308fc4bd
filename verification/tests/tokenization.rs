use vertex_lang::compiler::expressions::build_expressions;
use vertex_lang::compiler::tokenization::{
    kind_of, pattern_of, position_to_line_col, token_from, tokenize, Capture, ScanError, Token,
    TokenType, KIND_COUNT,
};

#[test]
fn tokenize_hello_world() {
    const HELLO_WORLD_PROGRAM: &str = r#"export serial function main(args: string[])
  greeting = 'Hello '+args[0]+'!'

  serial std:println(greeting)
"#;

    let token_list = tokenize(&String::from(HELLO_WORLD_PROGRAM));

    let tokens: Vec<Token> = vec![
        Token {
            token_type: TokenType::ExportKeyword,
            line: 0,
            col: 0,
            contents: String::from("export"),
        },
        Token {
            token_type: TokenType::SerialKeyword,
            line: 0,
            col: 7,
            contents: String::from("serial"),
        },
        Token {
            token_type: TokenType::FunctionKeyword,
            line: 0,
            col: 14,
            contents: String::from("function"),
        },
        Token {
            token_type: TokenType::Name,
            line: 0,
            col: 23,
            contents: String::from("main"),
        },
        Token {
            token_type: TokenType::OpenParenthesesSymbol,
            line: 0,
            col: 27,
            contents: String::from("("),
        },
        Token {
            token_type: TokenType::Name,
            line: 0,
            col: 28,
            contents: String::from("args"),
        },
        Token {
            token_type: TokenType::ColonSymbol,
            line: 0,
            col: 32,
            contents: String::from(":"),
        },
        Token {
            token_type: TokenType::Name,
            line: 0,
            col: 34,
            contents: String::from("string"),
        },
        Token {
            token_type: TokenType::OpenBracketsSymbol,
            line: 0,
            col: 40,
            contents: String::from("["),
        },
        Token {
            token_type: TokenType::CloseBracketsSymbol,
            line: 0,
            col: 41,
            contents: String::from("]"),
        },
        Token {
            token_type: TokenType::CloseParenthesesSymbol,
            line: 0,
            col: 42,
            contents: String::from(")"),
        },
        Token {
            token_type: TokenType::EndLineIndicator,
            line: 0,
            col: 43,
            contents: String::from("\n"),
        },
        Token {
            token_type: TokenType::Name,
            line: 1,
            col: 2,
            contents: String::from("greeting"),
        },
        Token {
            token_type: TokenType::AssignEqualsSymbol,
            line: 1,
            col: 11,
            contents: String::from("="),
        },
        Token {
            token_type: TokenType::String,
            line: 1,
            col: 13,
            contents: String::from("'Hello '"),
        },
        Token {
            token_type: TokenType::PlusSymbol,
            line: 1,
            col: 21,
            contents: String::from("+"),
        },
        Token {
            token_type: TokenType::Name,
            line: 1,
            col: 22,
            contents: String::from("args"),
        },
        Token {
            token_type: TokenType::OpenBracketsSymbol,
            line: 1,
            col: 26,
            contents: String::from("["),
        },
        Token {
            token_type: TokenType::Integer,
            line: 1,
            col: 27,
            contents: String::from("0"),
        },
        Token {
            token_type: TokenType::CloseBracketsSymbol,
            line: 1,
            col: 28,
            contents: String::from("]"),
        },
        Token {
            token_type: TokenType::PlusSymbol,
            line: 1,
            col: 29,
            contents: String::from("+"),
        },
        Token {
            token_type: TokenType::String,
            line: 1,
            col: 30,
            contents: String::from("'!'"),
        },
        Token {
            token_type: TokenType::EndLineIndicator,
            line: 1,
            col: 33,
            contents: String::from("\n"),
        },
        Token {
            token_type: TokenType::EndLineIndicator,
            line: 2,
            col: 0,
            contents: String::from("\n"),
        },
        Token {
            token_type: TokenType::SerialKeyword,
            line: 3,
            col: 2,
            contents: String::from("serial"),
        },
        Token {
            token_type: TokenType::Name,
            line: 3,
            col: 9,
            contents: String::from("std"),
        },
        Token {
            token_type: TokenType::ColonSymbol,
            line: 3,
            col: 12,
            contents: String::from(":"),
        },
        Token {
            token_type: TokenType::Name,
            line: 3,
            col: 13,
            contents: String::from("println"),
        },
        Token {
            token_type: TokenType::OpenParenthesesSymbol,
            line: 3,
            col: 20,
            contents: String::from("("),
        },
        Token {
            token_type: TokenType::Name,
            line: 3,
            col: 21,
            contents: String::from("greeting"),
        },
        Token {
            token_type: TokenType::CloseParenthesesSymbol,
            line: 3,
            col: 29,
            contents: String::from(")"),
        },
        Token {
            token_type: TokenType::EndLineIndicator,
            line: 3,
            col: 30,
            contents: String::from("\n"),
        },
        Token {
            token_type: TokenType::ProgramEnd,
            line: 4,
            col: 0,
            contents: String::from(""),
        },
    ];

    assert_eq!(token_list, Ok(tokens));
}

#[test]
fn unknown_characters() {
    const HELLO_WORLD_PROGRAM: &str = "export serial function @{main\n";

    let token_list = tokenize(&String::from(HELLO_WORLD_PROGRAM));

    let tokens: Vec<Token> = vec![
        Token {
            token_type: TokenType::ExportKeyword,
            line: 0,
            col: 0,
            contents: String::from("export"),
        },
        Token {
            token_type: TokenType::SerialKeyword,
            line: 0,
            col: 7,
            contents: String::from("serial"),
        },
        Token {
            token_type: TokenType::FunctionKeyword,
            line: 0,
            col: 14,
            contents: String::from("function"),
        },
        Token {
            token_type: TokenType::Unknown,
            line: 0,
            col: 23,
            contents: String::from("@{main"),
        },
        Token {
            token_type: TokenType::EndLineIndicator,
            line: 0,
            col: 29,
            contents: String::from("\n"),
        },
        Token {
            token_type: TokenType::ProgramEnd,
            line: 1,
            col: 0,
            contents: String::from(""),
        },
    ];

    assert_eq!(token_list, Ok(tokens));
}

#[test]
fn an_empty_text_is_its_end_alone() {
    assert_eq!(
        tokenize(&String::new()),
        Ok(vec![Token {
            token_type: TokenType::ProgramEnd,
            line: 0,
            col: 0,
            contents: String::new(),
        }]),
    );
}

#[test]
fn blanks_at_the_end_stall_the_reading() {
    assert_eq!(tokenize(&String::from("  \t")), Err(ScanError::Stalled { position: 2 }));
    assert_eq!(tokenize(&String::from("x ")), Err(ScanError::Stalled { position: 1 }));
}

#[test]
fn blanks_before_a_line_end_are_passed_over() {
    let tokens = tokenize(&String::from("x \n")).unwrap();
    let seen: Vec<(TokenType, usize, usize, &str)> = tokens
        .iter()
        .map(|token| (token.token_type, token.line, token.col, token.contents.as_str()))
        .collect();
    assert_eq!(
        seen,
        vec![
            (TokenType::Name, 0, 0, "x"),
            (TokenType::EndLineIndicator, 0, 2, "\n"),
            (TokenType::ProgramEnd, 1, 0, ""),
        ],
    );
}

#[test]
fn keywords_numbers_and_symbols_are_told_apart() {
    let tokens = tokenize(&String::from("module true false x1 == 12 3.5 # note")).unwrap();
    let seen: Vec<(TokenType, usize, &str)> = tokens
        .iter()
        .map(|token| (token.token_type, token.col, token.contents.as_str()))
        .collect();
    assert_eq!(
        seen,
        vec![
            (TokenType::ModuleKeyword, 0, "module"),
            (TokenType::TrueKeyword, 7, "true"),
            (TokenType::FalseKeyword, 12, "false"),
            (TokenType::Name, 18, "x1"),
            (TokenType::CheckEqualsSymbol, 21, "=="),
            (TokenType::Integer, 24, "12"),
            (TokenType::Integer, 27, "3"),
            (TokenType::PeriodSymbol, 28, "."),
            (TokenType::Integer, 29, "5"),
            (TokenType::Comment, 31, "# note"),
            (TokenType::ProgramEnd, 37, ""),
        ],
    );
}

#[test]
fn columns_count_bytes() {
    let tokens = tokenize(&String::from("'h\u{e9}' x")).unwrap();
    assert_eq!(tokens.len(), 3);
    assert_eq!(tokens[0].token_type, TokenType::String);
    assert_eq!(tokens[0].contents, "'h\u{e9}'");
    assert_eq!(tokens[1].token_type, TokenType::Name);
    assert_eq!((tokens[1].line, tokens[1].col), (0, 6));
}

#[test]
fn a_text_of_signs_alone_stalls_at_its_start() {
    assert_eq!(tokenize(&String::from("@")), Err(ScanError::Stalled { position: 0 }));
}

#[test]
fn an_empty_unknown_token_stalls_the_reading() {
    assert_eq!(tokenize(&String::from("a @")), Err(ScanError::Stalled { position: 1 }));
}

#[test]
fn lines_and_columns_of_places() {
    let code = "ab\ncd\n\ne";
    assert_eq!(position_to_line_col(0, code), (0, 0));
    assert_eq!(position_to_line_col(2, code), (0, 2));
    assert_eq!(position_to_line_col(3, code), (1, 0));
    assert_eq!(position_to_line_col(5, code), (1, 2));
    assert_eq!(position_to_line_col(6, code), (2, 0));
    assert_eq!(position_to_line_col(7, code), (3, 0));
    assert_eq!(position_to_line_col(8, code), (3, 1));
}

#[test]
fn a_capture_gives_the_token_it_spans() {
    let code = "one\n  two three";
    assert_eq!(
        token_from(code, 4, TokenType::Name, Capture::Span { start: 2, end: 5 }),
        Token { token_type: TokenType::Name, line: 1, col: 2, contents: String::from("two") },
    );
    assert_eq!(
        token_from(code, 9, TokenType::ProgramEnd, Capture::Absent),
        Token { token_type: TokenType::ProgramEnd, line: 1, col: 5, contents: String::new() },
    );
}

#[test]
fn the_kinds_are_tried_in_their_order() {
    assert_eq!(KIND_COUNT, 27);
    assert_eq!(kind_of(0), TokenType::EndLineIndicator);
    assert_eq!(kind_of(4), TokenType::FunctionKeyword);
    assert_eq!(kind_of(8), TokenType::Name);
    assert_eq!(kind_of(9), TokenType::Integer);
    assert_eq!(kind_of(10), TokenType::Float);
    assert_eq!(kind_of(25), TokenType::Unknown);
    assert_eq!(kind_of(26), TokenType::ProgramEnd);
    assert_eq!(pattern_of(TokenType::ProgramEnd), r"^\s*$");
    assert_eq!(pattern_of(TokenType::SerialKeyword), r"^\s*((serial)\b.*)");
}

#[test]
fn modules_are_named_by_the_token_behind_the_keyword() {
    let keyword = |col: usize| Token {
        token_type: TokenType::ModuleKeyword,
        line: 0,
        col,
        contents: String::from("module"),
    };
    let name = |col: usize, text: &str| Token {
        token_type: TokenType::Name,
        line: 0,
        col,
        contents: String::from(text),
    };
    let tokens = vec![keyword(0), name(7, "first"), keyword(13), name(20, "second")];
    let modules = build_expressions(&tokens);
    assert_eq!(modules.len(), 2);
    assert_eq!(modules[0].name, "first");
    assert_eq!(modules[1].name, "second");
    assert!(modules[0].functions.is_empty() && modules[0].data_types.is_empty());
    assert!(modules[1].functions.is_empty() && modules[1].data_types.is_empty());
    assert!(build_expressions(&Vec::new()).is_empty());
}
