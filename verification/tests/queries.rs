use luy::language::lang::Lang;
use luy::language::ts_spec::TypeScriptSpec;
use luy::lexer::lex;
use luy::parser::parser_pool::ParserPool;
use luy::parser::Parser;
use luy::query::query_engine::{Match, QueryEngine};
use luy::query::walking_engine::WalkingEngine;
use luy::syntax::parse_syntax_tree;

fn typescript_helper(query: &str, source: &str) -> Result<Vec<Match>, String> {
    let spec = TypeScriptSpec {};

    let tokens = lex(query);
    let mut query_parser = Parser::new(tokens);
    let query = query_parser.parse_query().map_err(|e| format!("{:?}", e))?;

    let mut parser_pool = ParserPool::new();
    let parser = parser_pool
        .parser_for(Lang::TypeScript)
        .map_err(|e| format!("{:?}", e))?;

    let tree = parse_syntax_tree(parser, source)
        .ok_or_else(|| "tree-sitter failed to parse source".to_string())?;

    let engine = WalkingEngine::new(&spec, &query);
    let matches = engine.run(&tree, source);
    Ok(matches)
}

#[test]
fn comment_contains() -> Result<(), String> {
    let query = r#"comment contains "Hello world""#;
    let source = r#"
            // Hello world!
            // Foo Bar
            function main() {
                console.log("Hello world!");
            }
        "#;

    let matches = typescript_helper(query, source)?;

    assert_eq!(matches.len(), 1);
    assert_eq!(matches.first().unwrap().text, "// Hello world!");
    Ok(())
}

#[test]
fn comment_equals() -> Result<(), String> {
    let query = r#"comment = "// Hello world!""#;
    let source = r#"
            // Hello world!
            // Foo Bar
            function main() {
                console.log("Hello world!");
            }
        "#;

    let matches = typescript_helper(query, source)?;

    assert_eq!(matches.len(), 1);
    assert_eq!(matches.first().unwrap().text, "// Hello world!");
    Ok(())
}

#[test]
fn fn_params_contains() -> Result<(), String> {
    let query = r#"fn { params contains "Arg" }"#;
    let source = r#"
            // Hello world!
            // Foo Bar
            function main(in: Arg): void {
                console.log("Hello world!");
            }

            function slain(kin: Slarg): droid {
                console.log("shouldn't match");
            }
        "#;

    let matches = typescript_helper(query, source)?;

    assert_eq!(matches.len(), 1);
    assert_eq!(
        matches.first().unwrap().text,
        r#"function main(in: Arg): void {
                console.log("Hello world!");
            }"#
    );
    Ok(())
}

#[test]
fn fn_body_contains_call_contains() -> Result<(), String> {
    let query = r#"fn { body contains call { contains "needle" } }"#;
    let source = r#"
            // Hello world!
            // Foo Bar
            function main(in: Arg): void {
                console.log("Hello world!");
            }

            function slain(kin: Slarg): droid {
                console.log("needle");
            }
        "#;

    let matches = typescript_helper(query, source)?;

    assert_eq!(matches.len(), 1);
    assert_eq!(
        matches.first().unwrap().text,
        r#"function slain(kin: Slarg): droid {
                console.log("needle");
            }"#
    );
    Ok(())
}

#[test]
fn fn_return_type() -> Result<(), String> {
    let query = r#"fn { returns contains "Promise" }"#;
    let source = r#"
            // Hello world!
            // Foo Bar
            async function main(in: Arg): Promise<void> {
                return Promise.resolve(() => console.log("Hello world!"));
            }

            function slain(kin: Slarg): droid {
                console.log("needle");
            }
        "#;

    let matches = typescript_helper(query, source)?;

    assert_eq!(matches.len(), 1);
    assert_eq!(
        matches.first().unwrap().text,
        r#"async function main(in: Arg): Promise<void> {
                return Promise.resolve(() => console.log("Hello world!"));
            }"#
    );
    Ok(())
}

#[test]
fn fn_body_matches() -> Result<(), String> {
    let query = r#"fn { params matches "kin:\s\w" }"#;
    let source = r#"
            // Hello world!
            // Foo Bar
            async function main(in: Arg): Promise<void> {
                return Promise.resolve(() => console.log("Hello world!"));
            }

            function slain(kin: Slarg): droid {
                console.log("needle");
            }
        "#;

    let matches = typescript_helper(query, source)?;

    assert_eq!(matches.len(), 1);
    assert_eq!(
        matches.first().unwrap().text,
        r#"function slain(kin: Slarg): droid {
                console.log("needle");
            }"#
    );
    Ok(())
}
