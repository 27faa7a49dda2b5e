use luy::language::js_spec::JavaScriptSpec;
use luy::language::lang::{lang_for_extension, lang_for_path, Lang};
use luy::language::language_spec::{is_one_of, LanguageSpec};
use luy::language::rust_spec::RustSpec;
use luy::language::spec_pool::{AnySpec, LanguageSpecPool};
use luy::language::ts_spec::TypeScriptSpec;
use luy::ir::{Field, Kind};
use luy::parser::parser_pool::ParserPool;
use luy::text::{chars_contain, chars_of, str_contains, str_eq, text_of_byte_range};

#[test]
fn string_equality_and_search() {
    assert!(str_eq("abc", "abc"));
    assert!(!str_eq("abc", "abd"));
    assert!(!str_eq("ab", "abc"));
    assert!(str_contains("// Hello world!", "Hello world"));
    assert!(!str_contains("Slarg", "Arg"));
    assert!(str_contains("anything", ""));
    assert!(!str_contains("", "a"));
    assert_eq!(chars_of("héé"), vec!['h', 'é', 'é']);
    assert!(chars_contain(&vec!['a', 'b', 'c'], &vec!['b', 'c']));
    assert!(!chars_contain(&vec!['a', 'b'], &vec!['b', 'c']));
}

#[test]
fn byte_ranges_respect_characters() {
    let s = "aé-b";
    assert_eq!(text_of_byte_range(s, 0, 1), Some("a".to_string()));
    assert_eq!(text_of_byte_range(s, 1, 3), Some("é".to_string()));
    assert_eq!(text_of_byte_range(s, 1, 2), None);
    assert_eq!(text_of_byte_range(s, 3, 5), Some("-b".to_string()));
    assert_eq!(text_of_byte_range(s, 3, 6), None);
    assert_eq!(text_of_byte_range(s, 4, 3), None);
    // an empty range is empty text, even inside a character
    assert_eq!(text_of_byte_range(s, 2, 2), Some(String::new()));
    assert_eq!(text_of_byte_range(s, 5, 5), Some(String::new()));
    assert_eq!(text_of_byte_range(s, 6, 6), None);
}

#[test]
fn language_specs() {
    assert!(RustSpec.matches_kind(&Kind::Comment, "block_comment"));
    assert!(!RustSpec.matches_kind(&Kind::Comment, "comment"));
    assert!(JavaScriptSpec.matches_kind(&Kind::Function, "arrow_function"));
    assert!(!JavaScriptSpec.matches_kind(&Kind::Type, "type_identifier"));
    assert!(TypeScriptSpec.matches_kind(&Kind::Type, "union_type"));
    assert!(TypeScriptSpec.matches_kind(&Kind::Import, "import_clause"));
    assert_eq!(TypeScriptSpec.field_names(&Kind::Param, &Field::Name), &["pattern", "name"]);
    assert_eq!(TypeScriptSpec.field_names(&Kind::Function, &Field::ReturnType), &["return_type"]);
    assert!(TypeScriptSpec.field_names(&Kind::Function, &Field::Self_).is_empty());
    assert!(RustSpec.field_names(&Kind::Function, &Field::ReturnType).is_empty());
    assert_eq!(JavaScriptSpec.field_names(&Kind::Call, &Field::Name), &["function"]);
    assert!(is_one_of(&["x", "y"], "y"));
    assert!(!is_one_of(&[], "y"));
}

#[test]
fn extensions_select_languages() {
    assert_eq!(lang_for_extension("rs"), Some(Lang::Rust));
    assert_eq!(lang_for_extension("ts"), Some(Lang::TypeScript));
    assert_eq!(lang_for_extension("tsx"), Some(Lang::Tsx));
    assert_eq!(lang_for_extension("js"), Some(Lang::JavaScript));
    assert_eq!(lang_for_extension("py"), None);
    assert_eq!(lang_for_extension(""), None);
}

#[test]
fn paths_select_languages_by_extension() {
    assert_eq!(lang_for_path("src/main.rs"), Some(Lang::Rust));
    assert_eq!(lang_for_path("a/b.ts"), Some(Lang::TypeScript));
    assert_eq!(lang_for_path("web/app.component.ts"), Some(Lang::TypeScript));
    assert_eq!(lang_for_path("App.tsx"), Some(Lang::Tsx));
    assert_eq!(lang_for_path("index.js"), Some(Lang::JavaScript));
    for p in ["Makefile", "a.jsx", "a.py", "main.RS", "x.rs.bak", ".rs", "dir.rs/file", "README.md"] {
        assert_eq!(lang_for_path(p), None, "{}", p);
    }
}

#[test]
fn spec_pool_hands_out_the_same_spec() {
    let mut pool = LanguageSpecPool::new();
    let a = pool.spec_for(Lang::Rust);
    let b = pool.spec_for(Lang::Rust);
    assert!(matches!(a, AnySpec::Rust(_)));
    assert!(matches!(b, AnySpec::Rust(_)));
    let t = pool.spec_for(Lang::TypeScript);
    assert!(matches!(t, AnySpec::TypeScript(_)));
    assert!(t.matches_kind(&Kind::Function, "method_definition"));
    assert!(!a.matches_kind(&Kind::Function, "method_definition"));
}

#[test]
fn parser_pool_serves_every_language() {
    let mut pool = ParserPool::new();
    for lang in [Lang::Rust, Lang::JavaScript, Lang::TypeScript, Lang::Tsx, Lang::Rust] {
        assert!(pool.parser_for(lang).is_ok());
    }
}
