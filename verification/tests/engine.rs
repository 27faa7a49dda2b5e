use luy::ir::Query;
use luy::language::js_spec::JavaScriptSpec;
use luy::language::lang::Lang;
use luy::language::language_spec::LanguageSpec;
use luy::language::rust_spec::RustSpec;
use luy::lexer::lex;
use luy::parser::parser_pool::ParserPool;
use luy::parser::Parser;
use luy::query::query_engine::{Match, QueryEngine};
use luy::query::walking_engine::WalkingEngine;
use luy::syntax::{child_by_field_name, parse_syntax_tree, syntax_tree_from_nodes, syntax_tree_of, NodeInfo, SyntaxTree};

fn query_of(q: &str) -> Query {
    Parser::new(lex(q)).parse_query().unwrap()
}

fn tree_of(lang: Lang, source: &str) -> SyntaxTree {
    let mut pool = ParserPool::new();
    let parser = pool.parser_for(lang).unwrap();
    parse_syntax_tree(parser, source).unwrap()
}

fn run<S: LanguageSpec>(spec: &S, lang: Lang, q: &str, source: &str) -> Vec<Match> {
    let query = query_of(q);
    let tree = tree_of(lang, source);
    let engine = WalkingEngine::new(spec, &query);
    engine.run(&tree, source)
}

const RUST_SOURCE: &str = "fn main() {\n    let x = helper(1);\n}\n\n// a note\nfn helper(n: u32) -> u32 { n }\n";

#[test]
fn rust_function_by_name() {
    let matches = run(&RustSpec, Lang::Rust, r#"fn { name = "helper" }"#, RUST_SOURCE);
    assert_eq!(matches.len(), 1);
    assert_eq!(matches[0].kind, "function_item");
    assert_eq!(matches[0].text, "fn helper(n: u32) -> u32 { n }");
    assert_eq!(matches[0].start_row, 5);
    assert_eq!(matches[0].start_col, 0);
    assert_eq!(&RUST_SOURCE[matches[0].start_byte..matches[0].end_byte], matches[0].text);
}

#[test]
fn rust_every_function_in_preorder() {
    let matches = run(&RustSpec, Lang::Rust, "fn", RUST_SOURCE);
    assert_eq!(matches.len(), 2);
    assert!(matches[0].start_byte < matches[1].start_byte);
    assert!(matches[0].text.starts_with("fn main"));
}

#[test]
fn rust_comment_kinds() {
    let matches = run(&RustSpec, Lang::Rust, "comment", RUST_SOURCE);
    assert_eq!(matches.len(), 1);
    assert_eq!(matches[0].kind, "line_comment");
}

#[test]
fn rust_body_contains_call() {
    let matches = run(&RustSpec, Lang::Rust, "fn { body contains call { name = \"helper\" } }", RUST_SOURCE);
    assert_eq!(matches.len(), 1);
    assert!(matches[0].text.starts_with("fn main"));
}

#[test]
fn rust_field_without_name_list_fails_filter() {
    // Rust functions have no return-type field in this spec
    let matches = run(&RustSpec, Lang::Rust, "fn { returns contains \"u32\" }", RUST_SOURCE);
    assert!(matches.is_empty());
}

#[test]
fn javascript_arrow_function_and_call() {
    let source = "const f = (a) => g(a);\nfunction h() { return f(2); }\n";
    let matches = run(&JavaScriptSpec, Lang::JavaScript, "fn", source);
    // the `function` keyword is itself a node of kind "function"
    let kinds: Vec<&str> = matches.iter().map(|m| m.kind.as_str()).collect();
    assert_eq!(kinds, vec!["arrow_function", "function_declaration", "function"]);
    let calls = run(&JavaScriptSpec, Lang::JavaScript, "call { name = \"f\" }", source);
    assert_eq!(calls.len(), 1);
    assert_eq!(calls[0].text, "f(2)");
}

#[test]
fn regex_filter_matches_text() {
    let matches = run(&RustSpec, Lang::Rust, r#"fn { params matches "n:\s*u\d+" }"#, RUST_SOURCE);
    assert_eq!(matches.len(), 1);
    assert!(matches[0].text.starts_with("fn helper"));
}

#[test]
fn regex_filter_rejects_non_matching_text() {
    let matches = run(&RustSpec, Lang::Rust, r#"fn { name matches "^h.*r$" }"#, RUST_SOURCE);
    assert_eq!(matches.len(), 1);
    assert!(matches[0].text.starts_with("fn helper"));
    let none = run(&RustSpec, Lang::Rust, r#"fn { name matches "^x" }"#, RUST_SOURCE);
    assert!(none.is_empty());
}

#[test]
fn syntax_tree_is_preorder_with_fields() {
    let tree = tree_of(Lang::Rust, "fn a() {}");
    assert_eq!(tree.nodes[0].parent, None);
    assert_eq!(tree.nodes[0].end, tree.nodes.len());
    let f = (0..tree.nodes.len()).find(|&i| tree.nodes[i].kind == "function_item").unwrap();
    let name = child_by_field_name(&tree, f, "name").unwrap();
    assert_eq!(tree.nodes[name].kind, "identifier");
    assert_eq!(tree.nodes[name].parent, Some(f));
    assert_eq!(child_by_field_name(&tree, f, "nonexistent"), None);
    for (i, n) in tree.nodes.iter().enumerate() {
        assert!(i < n.end);
        if let Some(p) = n.parent {
            assert!(p < i && n.end <= tree.nodes[p].end);
        }
    }
}

fn info(kind: &str, field: Option<&str>, descendants: usize) -> NodeInfo {
    NodeInfo {
        kind: kind.to_string(),
        field: field.map(|f| f.to_string()),
        start_byte: 0,
        end_byte: 0,
        start_row: 0,
        start_col: 0,
        descendants,
    }
}

#[test]
fn tree_from_nodes_takes_nearest_parents() {
    // root { a { b } c }
    let infos = vec![
        info("root", None, 4),
        info("a", Some("left"), 2),
        info("b", None, 1),
        info("c", Some("right"), 1),
    ];
    let tree = syntax_tree_from_nodes(&infos).unwrap();
    let parents: Vec<Option<usize>> = tree.nodes.iter().map(|n| n.parent).collect();
    assert_eq!(parents, vec![None, Some(0), Some(1), Some(0)]);
    let ends: Vec<usize> = tree.nodes.iter().map(|n| n.end).collect();
    assert_eq!(ends, vec![4, 3, 3, 4]);
    assert_eq!(tree.nodes[3].field, Some("right".to_string()));
    assert_eq!(tree.nodes[2].kind, "b");
    assert_eq!(child_by_field_name(&tree, 0, "right"), Some(3));
}

#[test]
fn tree_from_nodes_refuses_sizes_that_do_not_nest() {
    assert!(syntax_tree_from_nodes(&vec![]).is_none());
    // a subtree running past the list
    assert!(syntax_tree_from_nodes(&vec![info("root", None, 2)]).is_none());
    // an empty subtree
    assert!(syntax_tree_from_nodes(&vec![info("root", None, 2), info("a", None, 0)]).is_none());
    // a child whose subtree runs past its parent's
    assert!(syntax_tree_from_nodes(&vec![info("root", None, 2), info("a", None, 2), info("b", None, 1)]).is_none());
    // a second root
    assert!(syntax_tree_from_nodes(&vec![info("root", None, 1), info("a", None, 1)]).is_none());
}

fn preorder(node: tree_sitter::Node, out: &mut Vec<(String, usize, usize)>) {
    out.push((node.kind().to_string(), node.start_byte(), node.end_byte()));
    let mut cursor = node.walk();
    let children: Vec<tree_sitter::Node> = node.children(&mut cursor).collect();
    for child in children {
        preorder(child, out);
    }
}

#[test]
fn syntax_tree_follows_tree_sitter_preorder() {
    let source = "function f(a: number) { return g(a, 'x'); }\n// done\n";
    let mut parser = tree_sitter::Parser::new();
    parser.set_language(&tree_sitter_typescript::LANGUAGE_TYPESCRIPT.into()).unwrap();
    let ts_tree = parser.parse(source, None).unwrap();
    let mut expected = Vec::new();
    preorder(ts_tree.root_node(), &mut expected);
    let tree = syntax_tree_of(&ts_tree).unwrap();
    let got: Vec<(String, usize, usize)> =
        tree.nodes.iter().map(|n| (n.kind.clone(), n.start_byte, n.end_byte)).collect();
    assert_eq!(got, expected);
    for w in got.windows(2) {
        assert!(w[0].1 <= w[1].1);
    }
}

#[test]
fn parser_pool_keeps_one_parser_per_language() {
    let mut pool = ParserPool::new();
    let rust = tree_of(Lang::Rust, "fn a() {}");
    assert_eq!(rust.nodes[0].kind, "source_file");
    let p = pool.parser_for(Lang::TypeScript).unwrap();
    let ts = parse_syntax_tree(p, "let x = 1;").unwrap();
    assert_eq!(ts.nodes[0].kind, "program");
    let p = pool.parser_for(Lang::Tsx).unwrap();
    assert!(parse_syntax_tree(p, "const a = <div/>;").is_some());
    let p = pool.parser_for(Lang::TypeScript).unwrap();
    assert_eq!(parse_syntax_tree(p, "f();").unwrap().nodes[0].kind, "program");
}
