use vstd::prelude::*;
use crate::ir::{Field, Kind};
use crate::language::language_spec::{is_one_of, names_view, LanguageSpec};

verus! {

/// The node kinds and fields of the JavaScript grammar.
#[derive(Clone, Copy, Debug)]
pub struct JavaScriptSpec;

pub open spec fn js_kind_list(kind: Kind) -> Seq<Seq<char>> {
    match kind {
        Kind::Function => seq!["function_declaration"@, "function"@, "arrow_function"@],
        Kind::Var => seq!["variable_declarator"@],
        Kind::Comment => seq!["comment"@],
        Kind::Call => seq!["call_expression"@],
        Kind::Param => seq!["formal_parameter"@],
        Kind::String => seq!["string"@],
        _ => seq![],
    }
}

/// The JavaScript node kinds of each kind.
pub fn js_kind_names(kind: &Kind) -> (r: &'static [&'static str])
    ensures
        names_view(r@) == js_kind_list(*kind),
{
    match kind {
        Kind::Function => &["function_declaration", "function", "arrow_function"],
        Kind::Var => &["variable_declarator"],
        Kind::Comment => &["comment"],
        Kind::Call => &["call_expression"],
        Kind::Param => &["formal_parameter"],
        Kind::String => &["string"],
        _ => &[],
    }
}

/// The JavaScript field names of each field of each kind.
pub open spec fn js_field_list(kind: Kind, field: Field) -> Seq<Seq<char>> {
    match (kind, field) {
        (Kind::Function, Field::Name) => seq!["name"@],
        (Kind::Function, Field::Params) => seq!["parameters"@],
        (Kind::Function, Field::Body) => seq!["body"@],
        (Kind::Call, Field::Args) => seq!["arguments"@],
        (Kind::Call, Field::Name) => seq!["function"@],
        _ => seq![],
    }
}

impl LanguageSpec for JavaScriptSpec {
    open spec fn kind_names(&self, kind: Kind) -> Seq<Seq<char>> {
        js_kind_list(kind)
    }

    open spec fn field_name_list(&self, kind: Kind, field: Field) -> Seq<Seq<char>> {
        js_field_list(kind, field)
    }

    fn matches_kind(&self, kind: &Kind, node_kind: &str) -> (r: bool) {
        is_one_of(js_kind_names(kind), node_kind)
    }

    fn field_names(&self, kind: &Kind, field: &Field) -> (r: &'static [&'static str]) {
        match (kind, field) {
            (Kind::Function, Field::Name) => &["name"],
            (Kind::Function, Field::Params) => &["parameters"],
            (Kind::Function, Field::Body) => &["body"],
            (Kind::Call, Field::Args) => &["arguments"],
            (Kind::Call, Field::Name) => &["function"],
            _ => &[],
        }
    }
}

} // verus!
