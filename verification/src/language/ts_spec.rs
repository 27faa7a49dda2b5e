use vstd::prelude::*;
use crate::ir::{Field, Kind};
use crate::language::language_spec::{is_one_of, names_view, LanguageSpec};

verus! {

/// The node kinds and fields of the TypeScript grammar.
#[derive(Clone, Copy, Debug)]
pub struct TypeScriptSpec;

pub open spec fn ts_kind_list(kind: Kind) -> Seq<Seq<char>> {
    match kind {
        Kind::Function => seq![
            "function_declaration"@,
            "function"@,
            "arrow_function"@,
            "method_definition"@,
            "generator_function"@,
            "generator_function_declaration"@,
        ],
        Kind::Var => seq!["variable_declarator"@, "lexical_declaration"@, "variable_declaration"@],
        Kind::Comment => seq!["comment"@],
        Kind::Call => seq!["call_expression"@],
        Kind::Param => seq!["required_parameter"@, "optional_parameter"@, "formal_parameter"@],
        Kind::Arg => seq!["arguments"@],
        Kind::String => seq!["string"@, "template_string"@],
        Kind::Import => seq!["import_statement"@, "import_clause"@, "import_specifier"@],
        Kind::Type => seq![
            "type_identifier"@,
            "predefined_type"@,
            "generic_type"@,
            "object_type"@,
            "union_type"@,
            "intersection_type"@,
            "type_alias_declaration"@,
            "interface_declaration"@,
        ],
    }
}

/// The TypeScript node kinds of each kind.
pub fn ts_kind_names(kind: &Kind) -> (r: &'static [&'static str])
    ensures
        names_view(r@) == ts_kind_list(*kind),
{
    match kind {
        Kind::Function => &[
            "function_declaration",
            "function",
            "arrow_function",
            "method_definition",
            "generator_function",
            "generator_function_declaration",
        ],
        Kind::Var => &["variable_declarator", "lexical_declaration", "variable_declaration"],
        Kind::Comment => &["comment"],
        Kind::Call => &["call_expression"],
        Kind::Param => &["required_parameter", "optional_parameter", "formal_parameter"],
        Kind::Arg => &["arguments"],
        Kind::String => &["string", "template_string"],
        Kind::Import => &["import_statement", "import_clause", "import_specifier"],
        Kind::Type => &[
            "type_identifier",
            "predefined_type",
            "generic_type",
            "object_type",
            "union_type",
            "intersection_type",
            "type_alias_declaration",
            "interface_declaration",
        ],
    }
}

/// The TypeScript field names of each field of each kind; the node itself
/// (`Self_`) has none.
pub open spec fn ts_field_list(kind: Kind, field: Field) -> Seq<Seq<char>> {
    match (kind, field) {
        (_, Field::Self_) => seq![],
        (Kind::Function, Field::Name) => seq!["name"@],
        (Kind::Function, Field::Params) => seq!["parameters"@],
        (Kind::Function, Field::Body) => seq!["body"@],
        (Kind::Function, Field::ReturnType) => seq!["return_type"@],
        (Kind::Call, Field::Name) => seq!["function"@],
        (Kind::Call, Field::Args) => seq!["arguments"@],
        (Kind::Param, Field::Name) => seq!["pattern"@, "name"@],
        (Kind::Param, Field::Type) => seq!["type"@],
        (Kind::Var, Field::Name) => seq!["name"@],
        (Kind::Var, Field::Value) => seq!["value"@],
        (Kind::Import, Field::Path) => seq!["source"@],
        (Kind::Import, Field::Name) => seq!["name"@],
        _ => seq![],
    }
}

impl LanguageSpec for TypeScriptSpec {
    open spec fn kind_names(&self, kind: Kind) -> Seq<Seq<char>> {
        ts_kind_list(kind)
    }

    open spec fn field_name_list(&self, kind: Kind, field: Field) -> Seq<Seq<char>> {
        ts_field_list(kind, field)
    }

    fn matches_kind(&self, kind: &Kind, node_kind: &str) -> (r: bool) {
        is_one_of(ts_kind_names(kind), node_kind)
    }

    fn field_names(&self, kind: &Kind, field: &Field) -> (r: &'static [&'static str]) {
        match (kind, field) {
            (_, Field::Self_) => &[],
            (Kind::Function, Field::Name) => &["name"],
            (Kind::Function, Field::Params) => &["parameters"],
            (Kind::Function, Field::Body) => &["body"],
            (Kind::Function, Field::ReturnType) => &["return_type"],
            (Kind::Call, Field::Name) => &["function"],
            (Kind::Call, Field::Args) => &["arguments"],
            (Kind::Param, Field::Name) => &["pattern", "name"],
            (Kind::Param, Field::Type) => &["type"],
            (Kind::Var, Field::Name) => &["name"],
            (Kind::Var, Field::Value) => &["value"],
            (Kind::Import, Field::Path) => &["source"],
            (Kind::Import, Field::Name) => &["name"],
            _ => &[],
        }
    }
}

} // verus!
