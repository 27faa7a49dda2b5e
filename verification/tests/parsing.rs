use luy::ir::{Field, Kind, Predicate, Query};
use luy::lexer::lex;
use luy::parser::{ParseError, Parser};

fn parse(q: &str) -> Result<Query, ParseError> {
    let mut p = Parser::new(lex(q));
    p.parse_query()
}

#[test]
fn parse_single_filter_on_node_itself() {
    let Query::Pattern(p) = parse(r#"comment contains "Hello world""#).unwrap();
    assert_eq!(p.kind, Kind::Comment);
    assert_eq!(p.filters.len(), 1);
    assert_eq!(p.filters[0].field, Field::Self_);
    match &p.filters[0].predicate {
        Predicate::ContainsText(c) => {
            assert_eq!(c.text, "Hello world");
            assert!(c.case_sensitive);
        }
        other => panic!("unexpected predicate {:?}", other),
    }
}

#[test]
fn parse_kind_alone() {
    let Query::Pattern(p) = parse("comment").unwrap();
    assert_eq!(p.kind, Kind::Comment);
    assert!(p.filters.is_empty());
}

#[test]
fn parse_braces_with_separators() {
    let Query::Pattern(p) =
        parse("fn {\n, name = \"main\" ,, \n params matches \"a+\"\n returns contains \"P\"}").unwrap();
    assert_eq!(p.kind, Kind::Function);
    assert_eq!(p.filters.len(), 3);
    assert_eq!(p.filters[0].field, Field::Name);
    assert_eq!(p.filters[1].field, Field::Params);
    assert_eq!(p.filters[2].field, Field::ReturnType);
    match &p.filters[0].predicate {
        Predicate::Eq(v) => assert_eq!(v, "main"),
        other => panic!("unexpected predicate {:?}", other),
    }
    match &p.filters[1].predicate {
        Predicate::Matches(v) => assert_eq!(v, "a+"),
        other => panic!("unexpected predicate {:?}", other),
    }
}

#[test]
fn parse_nested_pattern() {
    let Query::Pattern(p) = parse(r#"fn { body contains call { contains "needle" } }"#).unwrap();
    assert_eq!(p.kind, Kind::Function);
    assert_eq!(p.filters[0].field, Field::Body);
    match &p.filters[0].predicate {
        Predicate::ContainsPattern(inner) => {
            assert_eq!(inner.kind, Kind::Call);
            assert_eq!(inner.filters.len(), 1);
            assert_eq!(inner.filters[0].field, Field::Self_);
        }
        other => panic!("unexpected predicate {:?}", other),
    }
}

#[test]
fn parse_empty_braces() {
    let Query::Pattern(p) = parse("fn { }").unwrap();
    assert!(p.filters.is_empty());
}

#[test]
fn parse_error_trailing_tokens() {
    assert_eq!(parse(r#"comment contains "x" fn"#).unwrap_err(), ParseError::TrailingTokens);
    assert_eq!(parse("comment contains \"x\"\n").unwrap_err(), ParseError::TrailingTokens);
}

#[test]
fn parse_error_invalid_kind() {
    assert_eq!(parse("var { }").unwrap_err(), ParseError::InvalidKind);
    assert_eq!(parse("").unwrap_err(), ParseError::InvalidKind);
    assert_eq!(parse(r#"fn { body contains "x" = }"#).unwrap_err(), ParseError::InvalidKind);
    assert_eq!(parse(r#"fn { body contains }"#).unwrap_err(), ParseError::InvalidKind);
}

#[test]
fn parse_error_invalid_field() {
    assert_eq!(parse("fn {").unwrap_err(), ParseError::InvalidField);
    assert_eq!(parse("fn { @ }").unwrap_err(), ParseError::InvalidField);
}

#[test]
fn parse_error_expected_predicate() {
    assert_eq!(parse("fn { name }").unwrap_err(), ParseError::ExpectedPredicate);
    assert_eq!(parse(r#"fn { all = "x" }"#).unwrap_err(), ParseError::ExpectedPredicate);
    assert_eq!(parse("fn name").unwrap_err(), ParseError::ExpectedPredicate);
    // a nested pattern with nothing after its kind reads the brace as a filter
    assert_eq!(parse("fn { body contains call }").unwrap_err(), ParseError::ExpectedPredicate);
}

#[test]
fn parse_error_expected_string() {
    assert_eq!(
        parse(r#"fn { name = comment contains "x" }"#).unwrap_err(),
        ParseError::ExpectedString
    );
    assert_eq!(
        parse(r#"fn { name matches comment contains "x" }"#).unwrap_err(),
        ParseError::ExpectedString
    );
}

#[test]
fn parse_error_invalid_regex() {
    assert_eq!(parse(r#"fn { name matches "(" }"#).unwrap_err(), ParseError::InvalidRegex);
}
