//! Keeps the language specs that have been asked for, one per language.
use vstd::prelude::*;
use crate::ir::{Field, Kind};
use crate::language::js_spec::JavaScriptSpec;
use crate::language::lang::Lang;
use crate::language::language_spec::LanguageSpec;
use crate::language::rust_spec::RustSpec;
use crate::language::ts_spec::TypeScriptSpec;

verus! {

/// One of the language specs of this crate.
#[derive(Clone, Copy, Debug)]
pub enum AnySpec {
    Rust(RustSpec),
    JavaScript(JavaScriptSpec),
    TypeScript(TypeScriptSpec),
}

impl LanguageSpec for AnySpec {
    open spec fn kind_names(&self, kind: Kind) -> Seq<Seq<char>> {
        match self {
            AnySpec::Rust(s) => s.kind_names(kind),
            AnySpec::JavaScript(s) => s.kind_names(kind),
            AnySpec::TypeScript(s) => s.kind_names(kind),
        }
    }

    open spec fn field_name_list(&self, kind: Kind, field: Field) -> Seq<Seq<char>> {
        match self {
            AnySpec::Rust(s) => s.field_name_list(kind, field),
            AnySpec::JavaScript(s) => s.field_name_list(kind, field),
            AnySpec::TypeScript(s) => s.field_name_list(kind, field),
        }
    }

    fn matches_kind(&self, kind: &Kind, node_kind: &str) -> (r: bool) {
        match self {
            AnySpec::Rust(s) => s.matches_kind(kind, node_kind),
            AnySpec::JavaScript(s) => s.matches_kind(kind, node_kind),
            AnySpec::TypeScript(s) => s.matches_kind(kind, node_kind),
        }
    }

    fn field_names(&self, kind: &Kind, field: &Field) -> (r: &'static [&'static str]) {
        match self {
            AnySpec::Rust(s) => s.field_names(kind, field),
            AnySpec::JavaScript(s) => s.field_names(kind, field),
            AnySpec::TypeScript(s) => s.field_names(kind, field),
        }
    }
}

/// The languages that the pool has a spec for.
pub open spec fn pool_supports(lang: Lang) -> bool {
    lang == Lang::Rust || lang == Lang::TypeScript
}

/// The spec the pool hands out for a supported language.
pub open spec fn spec_of(lang: Lang) -> AnySpec {
    if lang == Lang::Rust {
        AnySpec::Rust(RustSpec)
    } else {
        AnySpec::TypeScript(TypeScriptSpec)
    }
}

/// Stores and reuses the language specs that were asked for.
pub struct LanguageSpecPool {
    spec: Vec<(Lang, AnySpec)>,
}

impl LanguageSpecPool {
    /// The languages whose spec the pool holds.
    pub closed spec fn cached(&self) -> Set<Lang> {
        Set::new(|l: Lang| exists|i: int| 0 <= i < self.spec@.len() && self.spec@[i].0 == l)
    }

    /// One spec per language, each the one of its language.
    pub closed spec fn wf(&self) -> bool {
        &&& forall|i: int|
            0 <= i < self.spec@.len() ==> pool_supports(#[trigger] self.spec@[i].0)
                && self.spec@[i].1 == spec_of(self.spec@[i].0)
        &&& forall|i: int, j: int|
            0 <= i < j < self.spec@.len() ==> #[trigger] self.spec@[i].0 != #[trigger] self.spec@[j].0
    }

    /// An empty pool.
    pub fn new() -> (r: Self)
        ensures
            r.wf(),
            r.cached() == Set::<Lang>::empty(),
    {
        let r = LanguageSpecPool { spec: Vec::new() };
        assert(r.cached() =~= Set::<Lang>::empty());
        r
    }

    /// The spec of `lang`, which the pool holds from then on.
    pub fn spec_for(&mut self, lang: Lang) -> (r: AnySpec)
        requires
            old(self).wf(),
            pool_supports(lang),
        ensures
            final(self).wf(),
            r == spec_of(lang),
            final(self).cached() == old(self).cached().insert(lang),
    {
        let mut i: usize = 0;
        while i < self.spec.len()
            invariant
                self.wf(),
                self.spec == old(self).spec,
                0 <= i <= self.spec@.len(),
                forall|j: int| 0 <= j < i ==> self.spec@[j].0 != lang,
            decreases self.spec@.len() - i,
        {
            if self.spec[i].0 == lang {
                let found = self.spec[i].1;
                assert(self.cached() =~= old(self).cached().insert(lang));
                return found;
            }
            i = i + 1;
        }
        let spec = if lang == Lang::Rust {
            AnySpec::Rust(RustSpec)
        } else {
            AnySpec::TypeScript(TypeScriptSpec)
        };
        let ghost before = self.spec@;
        self.spec.push((lang, spec));
        proof {
            assert(self.spec@[before.len() as int].0 == lang);
            assert forall|l: Lang| #[trigger] self.cached().contains(l) == old(self).cached().insert(lang).contains(l) by {
                if l != lang && self.cached().contains(l) {
                    let i = choose|i: int| 0 <= i < self.spec@.len() && self.spec@[i].0 == l;
                    assert(before[i].0 == l);
                }
                if old(self).cached().contains(l) {
                    let i = choose|i: int| 0 <= i < before.len() && before[i].0 == l;
                    assert(self.spec@[i].0 == l);
                }
            }
            assert(self.cached() =~= old(self).cached().insert(lang));
        }
        spec
    }
}

/// TypeScript's grammar extends JavaScript's: for every query kind, each node
/// kind that the JavaScript spec selects, the TypeScript spec selects too.
pub proof fn lemma_typescript_selects_what_javascript_selects(kind: Kind, k: Seq<char>)
    ensures
        JavaScriptSpec.kind_names(kind).contains(k) ==> TypeScriptSpec.kind_names(kind).contains(k),
{
    let js = JavaScriptSpec.kind_names(kind);
    let ts = TypeScriptSpec.kind_names(kind);
    if js.contains(k) {
        let i = choose|i: int| 0 <= i < js.len() && js[i] == k;
        match kind {
            Kind::Function => {
                assert(ts[i] == js[i]);
            },
            Kind::Var | Kind::Comment | Kind::Call | Kind::String => {
                assert(ts[0] == js[0]);
            },
            Kind::Param => {
                assert(ts[2] == js[0]);
            },
            _ => {},
        }
    }
}

/// Beyond JavaScript's, TypeScript's grammar has methods and generators, which
/// a function query selects too.
pub proof fn lemma_typescript_functions_include_methods_and_generators()
    ensures
        TypeScriptSpec.kind_names(Kind::Function).contains("method_definition"@),
        TypeScriptSpec.kind_names(Kind::Function).contains("generator_function"@),
        TypeScriptSpec.kind_names(Kind::Function).contains("generator_function_declaration"@),
{
    let ts = TypeScriptSpec.kind_names(Kind::Function);
    assert(ts[3] == "method_definition"@);
    assert(ts[4] == "generator_function"@);
    assert(ts[5] == "generator_function_declaration"@);
}

/// The grammars of all three languages hang a function's name, parameters and
/// body, and a call's callee and arguments, under the same field names.
pub proof fn lemma_fields_agree_across_languages(kind: Kind, field: Field)
    ensures
        RustSpec.field_name_list(kind, field) == JavaScriptSpec.field_name_list(kind, field),
        JavaScriptSpec.field_name_list(kind, field).len() > 0 ==> TypeScriptSpec.field_name_list(kind, field)
            == JavaScriptSpec.field_name_list(kind, field),
{
}

/// In every language, a function's name is found under the field `name`, its
/// parameters under `parameters` and its body under `body`; a call's callee
/// under `function` and its arguments under `arguments`.
pub proof fn lemma_function_and_call_fields(spec: AnySpec)
    ensures
        spec.field_name_list(Kind::Function, Field::Name) == seq!["name"@],
        spec.field_name_list(Kind::Function, Field::Params) == seq!["parameters"@],
        spec.field_name_list(Kind::Function, Field::Body) == seq!["body"@],
        spec.field_name_list(Kind::Call, Field::Name) == seq!["function"@],
        spec.field_name_list(Kind::Call, Field::Args) == seq!["arguments"@],
{
}

/// A filter on the node itself looks up no field, in every language.
pub proof fn lemma_self_has_no_field_names(spec: AnySpec, kind: Kind)
    ensures
        spec.field_name_list(kind, Field::Self_) == Seq::<Seq<char>>::empty(),
{
    assert(spec.field_name_list(kind, Field::Self_) =~= Seq::<Seq<char>>::empty());
}

/// Only TypeScript's grammar has return type annotations: a `returns` filter
/// on a function looks under `return_type` there and under no field in Rust
/// and JavaScript.
pub proof fn lemma_return_type_only_in_typescript()
    ensures
        TypeScriptSpec.field_name_list(Kind::Function, Field::ReturnType) == seq!["return_type"@],
        RustSpec.field_name_list(Kind::Function, Field::ReturnType) == Seq::<Seq<char>>::empty(),
        JavaScriptSpec.field_name_list(Kind::Function, Field::ReturnType) == Seq::<Seq<char>>::empty(),
{
    assert(RustSpec.field_name_list(Kind::Function, Field::ReturnType) =~= Seq::<Seq<char>>::empty());
    assert(JavaScriptSpec.field_name_list(Kind::Function, Field::ReturnType) =~= Seq::<Seq<char>>::empty());
}

/// In every language a call query selects the grammar's `call_expression`
/// nodes; a comment query selects Rust's line and block comments and the
/// `comment` nodes of JavaScript and TypeScript.
pub proof fn lemma_calls_and_comments(spec: AnySpec)
    ensures
        spec.kind_names(Kind::Call).contains("call_expression"@),
        spec is Rust ==> spec.kind_names(Kind::Comment).contains("line_comment"@) && spec.kind_names(
            Kind::Comment,
        ).contains("block_comment"@),
        !(spec is Rust) ==> spec.kind_names(Kind::Comment).contains("comment"@),
{
    assert(spec.kind_names(Kind::Call)[0] == "call_expression"@);
    if spec is Rust {
        assert(spec.kind_names(Kind::Comment)[0] == "line_comment"@);
        assert(spec.kind_names(Kind::Comment)[1] == "block_comment"@);
    } else {
        assert(spec.kind_names(Kind::Comment)[0] == "comment"@);
    }
}

} // verus!
