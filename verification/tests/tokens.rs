use vertex_lang::compiler::token_reader::{
    read_all_tokens, read_token, Token, TokenContents, TokenError, TokenType,
};

#[test]
fn parse_generic_name() {
    let code = "  apple7  ";
    let token = read_token(&code, 0, 0, 0);

    assert_eq!(
        token,
        Ok(Some(TokenContents {
            token_type: TokenType::Name,
            contents: String::from("apple7"),
            skipped: 2,
            len: 6,
        })),
    );
}

#[test]
fn parse_function_keyword() {
    let code = "export function my_func()";
    let token = read_token(&code, 6, 0, 6);

    assert_eq!(
        token,
        Ok(Some(TokenContents {
            token_type: TokenType::FunctionKeyword,
            contents: String::from("function"),
            skipped: 1,
            len: 8,
        }))
    );
}

#[test]
fn parse_string_single_quotes() {
    let code = "name = 'Hello, world!' + '..'";
    let token = read_token(&code, 6, 0, 6);

    assert_eq!(
        token,
        Ok(Some(TokenContents {
            token_type: TokenType::String,
            contents: String::from("'Hello, world!'"),
            skipped: 1,
            len: 15,
        }))
    );
}

#[test]
fn mismatched_quotes_are_an_unterminated_string() {
    let code = "'Hello, world!\"";
    assert_eq!(
        read_token(&code, 0, 0, 0),
        Err(TokenError::UnterminatedString { line: 0, col: 0 })
    );
    assert_eq!(
        read_token("x = \"open\nnext\"", 3, 4, 5),
        Err(TokenError::UnterminatedString { line: 4, col: 5 })
    );
    assert_eq!(
        read_all_tokens("a\n 'b"),
        Err(TokenError::UnterminatedString { line: 1, col: 0 })
    );
}

#[test]
fn parse_integer() {
    let code = "123";
    let token = read_token(&code, 0, 0, 0);

    assert_eq!(
        token,
        Ok(Some(TokenContents {
            token_type: TokenType::Integer,
            contents: String::from("123"),
            skipped: 0,
            len: 3,
        }))
    );
}

#[test]
fn parse_float() {
    let code = "10.5";
    let token = read_token(&code, 0, 0, 0);

    assert_eq!(
        token,
        Ok(Some(TokenContents {
            token_type: TokenType::Float,
            contents: String::from("10.5"),
            skipped: 0,
            len: 4,
        }))
    );
}

#[test]
fn parse_all_tokens() {
    let code = "export function hello_world\n  'hi'";
    let tokens = read_all_tokens(&code).unwrap();

    assert_eq!(
        tokens,
        vec![
            Token {
                token_type: TokenType::ExportKeyword,
                contents: String::from("export"),
                line: 0,
                col: 0
            },
            Token {
                token_type: TokenType::FunctionKeyword,
                contents: String::from("function"),
                line: 0,
                col: 7
            },
            Token {
                token_type: TokenType::Name,
                contents: String::from("hello_world"),
                line: 0,
                col: 16
            },
            Token {
                token_type: TokenType::NewLine,
                contents: String::from("\n"),
                line: 0,
                col: 27
            },
            Token {
                token_type: TokenType::String,
                contents: String::from("'hi'"),
                line: 1,
                col: 2
            },
        ]
    );
}

fn kind(code: &str) -> Option<(TokenType, usize)> {
    read_token(code, 0, 0, 0).unwrap().map(|c| (c.token_type, c.len))
}

#[test]
fn numbers_are_integers_or_else_floats() {
    assert_eq!(kind("-17"), Some((TokenType::Integer, 3)));
    assert_eq!(kind("9223372036854775807"), Some((TokenType::Integer, 19)));
    assert_eq!(kind("-9223372036854775808"), Some((TokenType::Integer, 20)));
    assert_eq!(kind("9223372036854775808"), Some((TokenType::Float, 19)));
    assert_eq!(kind("-9223372036854775809"), Some((TokenType::Float, 20)));
    assert_eq!(kind("5."), Some((TokenType::Float, 2)));
    assert_eq!(kind(".5"), Some((TokenType::Float, 2)));
    assert_eq!(kind("-.5"), Some((TokenType::Float, 3)));
    assert_eq!(kind("1.5)"), Some((TokenType::Float, 3)));
    // What is no number may still begin with a name.
    assert_eq!(kind("1.2.3"), Some((TokenType::Name, 1)));
    assert_eq!(kind("1-2"), Some((TokenType::Name, 1)));
    assert_eq!(kind("."), None);
    assert_eq!(kind("-"), None);
    assert_eq!(kind("--1"), None);
}

#[test]
fn symbols_and_keywords() {
    let symbols = [
        ("<=", TokenType::LTEConditional),
        (">=", TokenType::GTEConditional),
        ("<", TokenType::LTConditional),
        (">", TokenType::GTConditional),
        ("==", TokenType::EqConditional),
        ("{", TokenType::OpenBlock),
        ("}", TokenType::CloseBlock),
        ("(", TokenType::OpenParams),
        (")", TokenType::CloseParams),
        ("[", TokenType::OpenArray),
        ("]", TokenType::CloseArray),
        ("\n", TokenType::NewLine),
        ("=", TokenType::VarAssignment),
        (":", TokenType::ModuleReference),
        ("export", TokenType::ExportKeyword),
        ("serial", TokenType::SerialKeyword),
        ("acceleratable", TokenType::AcceleratableKeyword),
        ("function", TokenType::FunctionKeyword),
        ("return", TokenType::FunctionKeyword),
        ("true", TokenType::FunctionKeyword),
        ("false", TokenType::FunctionKeyword),
        ("exported", TokenType::Name),
        ("_x9", TokenType::Name),
    ];
    for (text, token_type) in symbols {
        assert_eq!(kind(text), Some((token_type, text.chars().count())), "{:?}", text);
    }
    assert_eq!(kind("=<"), Some((TokenType::VarAssignment, 1)));
    assert_eq!(kind("@"), None);
    assert_eq!(kind(""), None);
    assert_eq!(kind(" \t\r"), None);
    assert_eq!(read_token("ab", 5, 0, 0), Ok(None));
}

#[test]
fn a_backslash_keeps_a_quote_from_closing_a_string() {
    assert_eq!(kind(r#""a\"b" c"#), Some((TokenType::String, 6)));
    assert_eq!(kind(r#"'a\\' c"#), Some((TokenType::String, 5)));
    assert_eq!(kind(r#""it's""#), Some((TokenType::String, 6)));
    let tokens = read_all_tokens("x = \"é\" == 'é'\r\n y").unwrap();
    let places: Vec<(usize, usize)> = tokens.iter().map(|t| (t.line, t.col)).collect();
    assert_eq!(places, vec![(0, 0), (0, 2), (0, 4), (0, 8), (0, 11), (0, 15), (1, 1)]);
    assert_eq!(tokens[2].contents, "\"é\"");
    // The text has no further token where one cannot be read.
    assert_eq!(read_all_tokens("a @ b").unwrap().len(), 1);
}
