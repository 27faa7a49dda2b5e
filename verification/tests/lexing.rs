use luy::lexer::{lex, unquote, Token};

fn ok(t: Token) -> Result<Token, ()> {
    Ok(t)
}

#[test]
fn lex_pattern_with_braces() {
    let items = lex(r#"fn { params contains "Arg" }"#);
    assert_eq!(
        items,
        vec![
            ok(Token::Fn),
            ok(Token::LeftBrace),
            ok(Token::Params),
            ok(Token::Contains),
            ok(Token::Text("Arg".to_string())),
            ok(Token::RightBrace),
        ]
    );
}

#[test]
fn lex_takes_longest_keyword() {
    assert_eq!(lex("params"), vec![ok(Token::Params)]);
    assert_eq!(lex("param"), vec![ok(Token::Param)]);
    assert_eq!(lex("args arg"), vec![ok(Token::Args), ok(Token::Arg)]);
    assert_eq!(lex("returns"), vec![ok(Token::ReturnType)]);
}

#[test]
fn lex_every_keyword() {
    let items = lex("fn var comment call param arg string import type { } , params args value name body returns = not and or matches contains all count");
    assert_eq!(
        items,
        vec![
            ok(Token::Fn),
            ok(Token::Var),
            ok(Token::Comment),
            ok(Token::Call),
            ok(Token::Param),
            ok(Token::Arg),
            ok(Token::String),
            ok(Token::Import),
            ok(Token::Type),
            ok(Token::LeftBrace),
            ok(Token::RightBrace),
            ok(Token::Comma),
            ok(Token::Params),
            ok(Token::Args),
            ok(Token::Value),
            ok(Token::Name),
            ok(Token::Body),
            ok(Token::ReturnType),
            ok(Token::Equals),
            ok(Token::Not),
            ok(Token::And),
            ok(Token::Or),
            ok(Token::Matches),
            ok(Token::Contains),
            ok(Token::All),
            ok(Token::Count),
        ]
    );
}

#[test]
fn lex_error_after_keyword_prefix() {
    assert_eq!(lex("fnx"), vec![ok(Token::Fn), Err(())]);
}

#[test]
fn lex_unterminated_string_gives_errors() {
    assert_eq!(lex("\"ab"), vec![Err(()), Err(()), Err(())]);
}

#[test]
fn lex_strings_keep_escapes() {
    assert_eq!(lex(r#"'hi'"#), vec![ok(Token::Text("hi".to_string()))]);
    assert_eq!(lex(r#""a\"b""#), vec![ok(Token::Text(r#"a\"b"#.to_string()))]);
    assert_eq!(lex(r#""kin:\s\w""#), vec![ok(Token::Text(r"kin:\s\w".to_string()))]);
    assert_eq!(lex("\"héllo wörld\""), vec![ok(Token::Text("héllo wörld".to_string()))]);
    assert_eq!(lex("\"\""), vec![ok(Token::Text(String::new()))]);
}

#[test]
fn lex_newlines_and_blanks() {
    assert_eq!(
        lex("fn\n\r\n\t\x0cname"),
        vec![ok(Token::Fn), ok(Token::Newline), ok(Token::Newline), ok(Token::Name)]
    );
    assert_eq!(lex("\r"), vec![Err(())]);
    assert_eq!(lex("   "), vec![]);
}

#[test]
fn lex_blank_separates_pieces() {
    // the pieces lex the same way alone and joined by a blank
    let s = "fn { name = x";
    let t = "\"y\" }";
    let mut joined = lex(s);
    joined.extend(lex(t));
    assert_eq!(lex(&format!("{} {}", s, t)), joined);
}

#[test]
fn unquote_drops_first_and_last() {
    assert_eq!(unquote("\"abc\""), "abc");
    assert_eq!(unquote("''"), "");
    assert_eq!(unquote("'é'"), "é");
    assert_eq!(unquote("\"日本\""), "日本");
    assert_eq!(unquote("xyz").len(), "xyz".len() - 2);
}
