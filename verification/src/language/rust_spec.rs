use vstd::prelude::*;
use crate::ir::{Field, Kind};
use crate::language::language_spec::{is_one_of, names_view, LanguageSpec};

verus! {

/// The node kinds and fields of the Rust grammar.
#[derive(Clone, Copy, Debug)]
pub struct RustSpec;

/// The Rust node kinds of each kind.
pub fn rust_kind_names(kind: &Kind) -> (r: &'static [&'static str])
    ensures
        names_view(r@) == rust_kind_list(*kind),
{
    match kind {
        Kind::Function => &["function_item"],
        Kind::Var => &["let_declaration"],
        Kind::Comment => &["line_comment", "block_comment"],
        Kind::Call => &["call_expression"],
        Kind::Param => &["parameter"],
        Kind::String => &["string_literal"],
        _ => &[],
    }
}

pub open spec fn rust_kind_list(kind: Kind) -> Seq<Seq<char>> {
    match kind {
        Kind::Function => seq!["function_item"@],
        Kind::Var => seq!["let_declaration"@],
        Kind::Comment => seq!["line_comment"@, "block_comment"@],
        Kind::Call => seq!["call_expression"@],
        Kind::Param => seq!["parameter"@],
        Kind::String => seq!["string_literal"@],
        _ => seq![],
    }
}


/// The Rust field names of each field of each kind.
pub open spec fn rust_field_list(kind: Kind, field: Field) -> Seq<Seq<char>> {
    match (kind, field) {
        (Kind::Function, Field::Name) => seq!["name"@],
        (Kind::Function, Field::Params) => seq!["parameters"@],
        (Kind::Function, Field::Body) => seq!["body"@],
        (Kind::Call, Field::Args) => seq!["arguments"@],
        (Kind::Call, Field::Name) => seq!["function"@],
        _ => seq![],
    }
}

impl LanguageSpec for RustSpec {
    open spec fn kind_names(&self, kind: Kind) -> Seq<Seq<char>> {
        rust_kind_list(kind)
    }

    open spec fn field_name_list(&self, kind: Kind, field: Field) -> Seq<Seq<char>> {
        rust_field_list(kind, field)
    }

    fn matches_kind(&self, kind: &Kind, node_kind: &str) -> (r: bool) {
        is_one_of(rust_kind_names(kind), node_kind)
    }

    fn field_names(&self, kind: &Kind, field: &Field) -> (r: &'static [&'static str]) {
        match (kind, field) {
            (Kind::Function, Field::Name) => &["name"],
            (Kind::Function, Field::Params) => &["parameters"],
            (Kind::Function, Field::Body) => &["body"],
            (Kind::Call, Field::Args) => &["arguments"],
            (Kind::Call, Field::Name) => &["function"],
            _ => &[],
        }
    }
}

} // verus!
