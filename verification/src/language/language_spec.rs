//! How a language's syntax trees spell the kinds and fields of the query language.
use vstd::prelude::*;
use crate::ir::{Field, Kind};
use crate::text::str_eq;

verus! {

/// The node kinds and field names through which a language's syntax trees
/// express the kinds and fields of a query.
pub trait LanguageSpec {
    /// The node kinds that `kind` selects.
    spec fn kind_names(&self, kind: Kind) -> Seq<Seq<char>>;

    /// The field names under which `field` of a `kind` node is found, in order
    /// of preference.
    spec fn field_name_list(&self, kind: Kind, field: Field) -> Seq<Seq<char>>;

    /// Whether a node of kind `node_kind` is one that `kind` selects.
    fn matches_kind(&self, kind: &Kind, node_kind: &str) -> (r: bool)
        ensures
            r == self.kind_names(*kind).contains(node_kind@),
    ;

    /// The field names under which `field` of a `kind` node is found.
    fn field_names(&self, kind: &Kind, field: &Field) -> (r: &'static [&'static str])
        ensures
            names_view(r@) == self.field_name_list(*kind, *field),
    ;
}

/// The texts of a sequence of names.
pub open spec fn names_view(names: Seq<&str>) -> Seq<Seq<char>> {
    names.map_values(|n: &str| n@)
}

/// Whether `s` is one of `names`.
pub fn is_one_of(names: &[&str], s: &str) -> (r: bool)
    ensures
        r == names_view(names@).contains(s@),
{
    let mut i: usize = 0;
    while i < names.len()
        invariant
            0 <= i <= names@.len(),
            forall|j: int| 0 <= j < i ==> names@[j]@ != s@,
        decreases names@.len() - i,
    {
        if str_eq(names[i], s) {
            assert(names_view(names@)[i as int] == s@);
            return true;
        }
        i = i + 1;
    }
    assert forall|j: int| 0 <= j < names_view(names@).len() implies names_view(names@)[j] != s@ by {}
    false
}

} // verus!
