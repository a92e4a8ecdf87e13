use conclave::lang::lexer::{keyword_or_ident, lexing_cuts_char, tokenize, Token};
use conclave::lang::parser::source_cuts_char;

fn tok(input: &str) -> Vec<Token> {
    tokenize(input)
        .unwrap()
        .into_iter()
        .map(|s| s.token)
        .collect()
}

#[test]
fn goal_ident_parens() {
    assert_eq!(
        tok("goal Foo()"),
        vec![
            Token::Goal,
            Token::Ident("Foo".into()),
            Token::LParen,
            Token::RParen
        ]
    );
}

#[test]
fn req_per_sec_unit() {
    assert_eq!(tok("2 req/s"), vec![Token::Number(2), Token::ReqPerSec]);
}

#[test]
fn req_per_sec_no_space() {
    assert_eq!(tok("2req/s"), vec![Token::Number(2), Token::ReqPerSec]);
}

#[test]
fn arrow_token() {
    assert_eq!(
        tok("-> Html"),
        vec![Token::Arrow, Token::Ident("Html".into())]
    );
}

#[test]
fn lteq_token() {
    assert_eq!(tok("<= 2"), vec![Token::LtEq, Token::Number(2)]);
}

#[test]
fn version_line() {
    assert_eq!(
        tok("version 0.1;"),
        vec![
            Token::Version,
            Token::Number(0),
            Token::Dot,
            Token::Number(1),
            Token::Semicolon
        ]
    );
}

#[test]
fn string_literal() {
    assert_eq!(tok(r#""hello""#), vec![Token::StringLit("hello".into())]);
}

#[test]
fn line_comment_skipped() {
    assert_eq!(tok("// this is a comment\ngoal"), vec![Token::Goal]);
}

#[test]
fn keywords_recognized() {
    let kws =
        "version type capability intrinsic goal want map as let emit return constraints where";
    let tokens = tok(kws);
    assert_eq!(
        tokens,
        vec![
            Token::Version,
            Token::Type,
            Token::Capability,
            Token::Intrinsic,
            Token::Goal,
            Token::Want,
            Token::MapKeyword,
            Token::As,
            Token::Let,
            Token::Emit,
            Token::Return,
            Token::Constraints,
            Token::Where,
        ]
    );
}

#[test]
fn unknown_char_errors() {
    let result = tokenize("@");
    assert!(result.is_err());
}

#[test]
fn unterminated_string_errors() {
    let result = tokenize(r#""unterminated"#);
    assert!(result.is_err());
}

#[test]
fn tokenize_records_line_numbers() {
    let spanned = tokenize("goal\n\n  want").unwrap();
    assert_eq!(spanned.len(), 2);
    assert_eq!(spanned[0].line, 1);
    assert_eq!(spanned[1].line, 3);
}

#[test]
fn unknown_char_error_names_line() {
    match tokenize("goal\n@") {
        Err(conclave::lang::error::LangError::UnexpectedToken { line, got, .. }) => {
            assert_eq!(line, 2);
            assert_eq!(got, "@");
        }
        other => panic!("expected UnexpectedToken, got {:?}", other),
    }
}

#[test]
fn unterminated_string_is_eof_error() {
    assert!(matches!(
        tokenize("\"abc"),
        Err(conclave::lang::error::LangError::UnexpectedEof { .. })
    ));
}

#[test]
fn expanded_keywords_recognized() {
    assert_eq!(
        tok("import if else reduce into pure"),
        vec![Token::Import, Token::If, Token::Else, Token::Reduce, Token::Into, Token::Pure]
    );
}

#[test]
fn keyword_or_ident_distinguishes_words() {
    assert_eq!(keyword_or_ident("map"), Token::MapKeyword);
    assert_eq!(keyword_or_ident("mapper"), Token::Ident("mapper".into()));
}

#[test]
fn punctuation_tokens() {
    assert_eq!(
        tok("{ } ( ) < > ; , : = ."),
        vec![
            Token::LBrace,
            Token::RBrace,
            Token::LParen,
            Token::RParen,
            Token::LAngle,
            Token::RAngle,
            Token::Semicolon,
            Token::Comma,
            Token::Colon,
            Token::Equals,
            Token::Dot
        ]
    );
}

#[test]
fn rate_window_ending_inside_a_character_is_flagged() {
    // "req/" is four bytes and 'é' two: the five-byte window ends inside 'é'.
    assert!(lexing_cuts_char("limit 2 req/é"));
    assert!(lexing_cuts_char("2 ééé"));
    // Fewer than five bytes after the number, or a window on a boundary.
    assert!(!lexing_cuts_char("2 é"));
    assert!(!lexing_cuts_char("2 req/s"));
    assert!(!lexing_cuts_char("2 abcd"));
    assert!(lexing_cuts_char("2 abcdé"));
    assert!(!lexing_cuts_char("rate_limit(fetch) <= 2 req/s;"));
    // A text that fails to lex before the number is not flagged.
    assert!(!lexing_cuts_char("@ 2 req/é"));
}

#[test]
fn source_window_check_sees_normalized_line_endings() {
    // "abc\r\n" is five bytes, but normalized "abc\n" is four and the
    // window then ends inside 'é'.
    assert!(source_cuts_char("2 abc\r\né"));
    assert!(!source_cuts_char("goal G() { }"));
}

#[test]
fn added_layout_between_tokens_keeps_tokens() {
    let a = tokenize("let x = f(y);").unwrap();
    let b = tokenize("let  x =\n f( y )\t;").unwrap();
    let ka: Vec<Token> = a.iter().map(|s| s.token.clone()).collect();
    let kb: Vec<Token> = b.iter().map(|s| s.token.clone()).collect();
    assert_eq!(ka, kb);
    // The line feed moves the later tokens to line 2.
    assert_eq!(b[3].line, 2);
    assert_eq!(a[3].line, 1);
    // After a number, a line feed before `req/s` ends the rate: the lexer then
    // meets `/` and fails, where a space keeps the rate.
    assert_eq!(tok("2  req/s"), vec![Token::Number(2), Token::ReqPerSec]);
    assert!(tokenize("2\nreq/s").is_err());
}

#[test]
fn multi_line_string_literal_carries_its_opening_line() {
    let ts = tokenize("\"a\nb\" x").unwrap();
    assert_eq!(ts[0].token, Token::StringLit("a\nb".into()));
    assert_eq!(ts[0].line, 1);
    // Lexing goes on after the literal on its closing line.
    assert_eq!(ts[1].line, 2);
}

#[test]
fn spaces_and_tabs_are_interchangeable() {
    let a = tokenize("let x = f(y);\nrate_limit(f) <= 2 req/s;").unwrap();
    let b = tokenize("let\tx\t= f(y);\nrate_limit(f)\t<=\t2\treq/s;").unwrap();
    let ka: Vec<(Token, usize)> = a.iter().map(|s| (s.token.clone(), s.line)).collect();
    let kb: Vec<(Token, usize)> = b.iter().map(|s| (s.token.clone(), s.line)).collect();
    assert_eq!(ka, kb);
}

#[test]
fn doubled_spaces_lex_alike() {
    let a = "version 0.1;\n// a comment here\nrate_limit(f) <= 2 req/s;\nlet x = f(y, z);";
    let b = a.replace(' ', "  ");
    let ta: Vec<(Token, usize)> = tokenize(a).unwrap().iter().map(|s| (s.token.clone(), s.line)).collect();
    let tb: Vec<(Token, usize)> = tokenize(&b).unwrap().iter().map(|s| (s.token.clone(), s.line)).collect();
    assert_eq!(ta, tb);
}
