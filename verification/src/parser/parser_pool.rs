//! Keeps one `tree_sitter` parser per language, set up with that language's grammar.
use vstd::prelude::*;
use crate::language::lang::Lang;
use crate::syntax::{tree_nodes, NodeInfo};
use tree_sitter::Parser as TsParser;
use tree_sitter::Language as Grammar;

verus! {

#[verifier::external_type_specification]
#[verifier::external_body]
pub struct ExParser(TsParser);

#[verifier::external_type_specification]
#[verifier::external_body]
pub struct ExLanguage(Grammar);

#[verifier::external_type_specification]
#[verifier::external_body]
pub struct ExLanguageError(tree_sitter::LanguageError);

/// A grammar that a parser could not be set up with. `tree_sitter` accepts
/// each of the grammars this crate uses, so [`ParserPool::parser_for`] never
/// returns it.
#[derive(Clone, Copy, Debug, PartialEq, Eq, Structural)]
pub enum GrammarError {
    /// The grammar is not one that this version of `tree_sitter` can use.
    Incompatible,
}

/// A `tree_sitter` grammar, with the language it is the grammar of. Only the
/// four grammar functions below make one.
pub struct LangGrammar {
    grammar: Grammar,
    lang: Ghost<Lang>,
}

impl LangGrammar {
    /// The language this is the grammar of.
    pub closed spec fn lang(&self) -> Lang {
        self.lang@
    }
}

/// A `tree_sitter` parser, with the language whose grammar it was set up with
/// (`None` before it was set up with one).
pub struct LangParser {
    parser: TsParser,
    lang: Ghost<Option<Lang>>,
}

impl LangParser {
    /// The language whose grammar the parser was set up with.
    pub closed spec fn lang(&self) -> Option<Lang> {
        self.lang@
    }
}

/// `TsParser::new`: a parser without a grammar.
#[verifier::external_body]
fn ts_new_parser() -> (r: LangParser)
    ensures
        r.lang() is None,
{
    LangParser { parser: TsParser::new(), lang: Ghost(None) }
}

/// `tree_sitter_rust::LANGUAGE`, as a `Grammar`: the grammar of Rust.
#[verifier::external_body]
fn ts_rust_grammar() -> (r: LangGrammar)
    ensures
        r.lang() == Lang::Rust,
{
    LangGrammar { grammar: tree_sitter_rust::LANGUAGE.into(), lang: Ghost(Lang::Rust) }
}

/// `tree_sitter_javascript::LANGUAGE`, as a `Grammar`: the grammar of JavaScript.
#[verifier::external_body]
fn ts_javascript_grammar() -> (r: LangGrammar)
    ensures
        r.lang() == Lang::JavaScript,
{
    LangGrammar { grammar: tree_sitter_javascript::LANGUAGE.into(), lang: Ghost(Lang::JavaScript) }
}

/// `tree_sitter_typescript::LANGUAGE_TYPESCRIPT`, as a `Grammar`: the grammar
/// of TypeScript.
#[verifier::external_body]
fn ts_typescript_grammar() -> (r: LangGrammar)
    ensures
        r.lang() == Lang::TypeScript,
{
    LangGrammar { grammar: tree_sitter_typescript::LANGUAGE_TYPESCRIPT.into(), lang: Ghost(Lang::TypeScript) }
}

/// `tree_sitter_typescript::LANGUAGE_TSX`, as a `Grammar`: the grammar of TSX.
#[verifier::external_body]
fn ts_tsx_grammar() -> (r: LangGrammar)
    ensures
        r.lang() == Lang::Tsx,
{
    LangGrammar { grammar: tree_sitter_typescript::LANGUAGE_TSX.into(), lang: Ghost(Lang::Tsx) }
}

/// `TsParser::set_language` with the grammar of `grammar`: the parser is set
/// up with that grammar. In the version brought it fails only for a grammar
/// whose ABI version lies outside 13..=15 or that cannot be parsed with (a
/// wasm grammar); the four grammars above are native, of versions 15 (Rust,
/// JavaScript) and 14 (TypeScript, TSX), so it succeeds.
#[verifier::external_body]
fn ts_set_language(parser: &mut LangParser, grammar: &LangGrammar) -> (r: Result<(), tree_sitter::LanguageError>)
    ensures
        r is Ok,
        final(parser).lang() == Some(grammar.lang()),
{
    parser.parser.set_language(&grammar.grammar)
}

/// The nodes (see [`tree_nodes`]) of the tree that `tree_sitter` builds when
/// it parses `source` with the grammar of `lang` and no earlier tree.
pub uninterp spec fn parsed_nodes(lang: Lang, source: Seq<char>) -> Seq<NodeInfo>;

/// `TsParser::parse` of `source`, with no earlier tree. Its documentation
/// and source (`ts_parser_parse`) return `None` only when the parser has no
/// grammar; this version has no timeout and no cancellation, so with a grammar
/// the tree depends on the grammar and `source` alone. Parsing leaves the
/// parser's grammar as it was.
#[verifier::external_body]
pub(crate) fn ts_parse(parser: &mut LangParser, source: &str) -> (r: Option<tree_sitter::Tree>)
    ensures
        final(parser).lang() == old(parser).lang(),
        old(parser).lang() is None ==> r is None,
        old(parser).lang() matches Some(l) ==> r matches Some(t) && tree_nodes(t) == parsed_nodes(l, source@),
{
    parser.parser.parse(source, None)
}

/// The grammar of `lang`.
fn grammar_for(lang: Lang) -> (r: LangGrammar)
    ensures
        r.lang() == lang,
{
    match lang {
        Lang::Rust => ts_rust_grammar(),
        Lang::JavaScript => ts_javascript_grammar(),
        Lang::TypeScript => ts_typescript_grammar(),
        Lang::Tsx => ts_tsx_grammar(),
    }
}

/// The position of the entry for `l` in `ps`.
spec fn slot_in(ps: Seq<(Lang, LangParser)>, l: Lang) -> int {
    choose|i: int| 0 <= i < ps.len() && ps[i].0 == l
}

/// Where no language occurs twice, the entry for `l` is the one at `j`.
proof fn lemma_slot_in(ps: Seq<(Lang, LangParser)>, l: Lang, j: int)
    requires
        forall|a: int, b: int| 0 <= a < b < ps.len() ==> #[trigger] ps[a].0 != #[trigger] ps[b].0,
        0 <= j < ps.len(),
        ps[j].0 == l,
    ensures
        slot_in(ps, l) == j,
{
    let k = slot_in(ps, l);
    assert(0 <= k < ps.len() && ps[k].0 == l);
    if k < j {
        assert(ps[k].0 != ps[j].0);
    } else if j < k {
        assert(ps[j].0 != ps[k].0);
    }
}

/// Stores and reuses one parser per language.
pub struct ParserPool {
    parsers: Vec<(Lang, LangParser)>,
}

impl ParserPool {
    /// The languages the pool holds a parser for.
    pub closed spec fn cached(&self) -> Set<Lang> {
        Set::new(|l: Lang| exists|i: int| 0 <= i < self.parsers@.len() && self.parsers@[i].0 == l)
    }

    /// The parser the pool holds for `l` (for `l` in [`Self::cached`]).
    pub closed spec fn parser(&self, l: Lang) -> LangParser {
        self.parsers@[slot_in(self.parsers@, l)].1
    }

    /// No language occurs twice.
    pub closed spec fn keys_unique(&self) -> bool {
        forall|i: int, j: int|
            0 <= i < j < self.parsers@.len() ==> #[trigger] self.parsers@[i].0 != #[trigger] self.parsers@[j].0
    }

    /// One parser per language, each set up with its language's grammar.
    pub open spec fn wf(&self) -> bool {
        &&& self.keys_unique()
        &&& forall|l: Lang| #[trigger] self.cached().contains(l) ==> self.parser(l).lang() == Some(l)
    }

    /// An empty pool.
    pub fn new() -> (r: Self)
        ensures
            r.wf(),
            r.cached() == Set::<Lang>::empty(),
    {
        let r = ParserPool { parsers: Vec::new() };
        assert(r.cached() =~= Set::<Lang>::empty());
        r
    }

    /// The parser of `lang`: the one the pool holds, or a new one set up with
    /// the grammar of `lang`, which the pool holds from then on. Always `Ok`,
    /// with a parser set up with the grammar of `lang`; the parsers of other
    /// languages stay as they were. The pool stays well formed as long as the
    /// parser handed out keeps its grammar, which [`crate::syntax::parse_syntax_tree`]
    /// does.
    pub fn parser_for(&mut self, lang: Lang) -> (r: Result<&mut LangParser, GrammarError>)
        requires
            old(self).wf(),
        ensures
            final(self).keys_unique(),
            final(self).cached() == old(self).cached().insert(lang),
            r matches Ok(p) && p.lang() == Some(lang) && final(self).parser(lang) == *final(p)
                && (old(self).cached().contains(lang) ==> *p == old(self).parser(lang))
                && (final(p).lang() == Some(lang) ==> final(self).wf()),
            forall|l: Lang| l != lang && #[trigger] old(self).cached().contains(l) ==> final(self).parser(l)
                == old(self).parser(l),
    {
        let mut i: usize = 0;
        while i < self.parsers.len() && self.parsers[i].0 != lang
            invariant
                self.parsers@ == old(self).parsers@,
                0 <= i <= self.parsers@.len(),
                forall|j: int| 0 <= j < i ==> self.parsers@[j].0 != lang,
            decreases self.parsers@.len() - i,
        {
            i = i + 1;
        }
        if i == self.parsers.len() {
            let mut parser = ts_new_parser();
            let grammar = grammar_for(lang);
            match ts_set_language(&mut parser, &grammar) {
                Ok(()) => {},
                Err(_) => {
                    return Err(GrammarError::Incompatible);
                },
            }
            self.parsers.push((lang, parser));
        } else {
            proof {
                assert(old(self).cached().contains(lang));
                lemma_slot_in(old(self).parsers@, lang, i as int);
            }
        }
        let ghost mid = self.parsers@;
        proof {
            assert(mid[i as int].0 == lang);
            assert(mid[i as int].1.lang() == Some(lang));
        }
        let r = &mut self.parsers[i].1;
        proof {
            let after = after_borrow(self.parsers)@;
            let before = old(self).parsers@;
            assert(after == mid.update(i as int, (lang, *final(r))));
            assert(forall|a: int, b: int| 0 <= a < b < after.len() ==> #[trigger] after[a].0 != #[trigger] after[b].0) by {
                assert forall|a: int, b: int| 0 <= a < b < after.len() implies #[trigger] after[a].0 != #[trigger] after[b].0 by {
                    assert(after[a].0 == mid[a].0 && after[b].0 == mid[b].0);
                    if b == before.len() {
                        assert(mid[a] == before[a]);
                    } else {
                        assert(mid[a] == before[a] && mid[b] == before[b]);
                    }
                }
            }
            assert forall|l: Lang| #[trigger] old(self).cached().insert(lang).contains(l) == (exists|j: int| 0 <= j < after.len() && after[j].0 == l) by {
                if exists|j: int| 0 <= j < after.len() && after[j].0 == l {
                    let j = choose|j: int| 0 <= j < after.len() && after[j].0 == l;
                    if l != lang {
                        assert(mid[j].0 == l);
                        if j < before.len() {
                            assert(before[j].0 == l);
                        }
                    }
                }
                if old(self).cached().contains(l) {
                    let j = choose|j: int| 0 <= j < before.len() && before[j].0 == l;
                    assert(mid[j].0 == l);
                    assert(after[j].0 == l);
                }
                if l == lang {
                    assert(after[i as int].0 == l);
                }
            }
            assert forall|l: Lang| l != lang && #[trigger] old(self).cached().contains(l) implies slot_in(after, l)
                == slot_in(before, l) && after[slot_in(after, l)] == before[slot_in(before, l)] by {
                let j = choose|j: int| 0 <= j < before.len() && before[j].0 == l;
                lemma_slot_in(before, l, j);
                assert(mid[j] == before[j]);
                assert(after[j] == mid[j]);
                lemma_slot_in(after, l, j);
            }
            lemma_slot_in(after, lang, i as int);
            assert forall|l: Lang| #[trigger] old(self).cached().insert(lang).contains(l) && l != lang implies after[slot_in(
                after,
                l,
            )].1.lang() == Some(l) by {
                assert(old(self).cached().contains(l));
                assert(old(self).parser(l).lang() == Some(l));
            }
            assert(after[slot_in(after, lang)].1 == *final(r));
            assert forall|l: Lang| #![trigger slot_in(after, l)]
                (exists|j: int| 0 <= j < after.len() && after[j].0 == l) implies (l == lang && after[slot_in(
                after,
                l,
            )].1 == *final(r)) || after[slot_in(after, l)].1.lang() == Some(l) by {
                assert(old(self).cached().insert(lang).contains(l));
            }
        }
        Ok(r)
    }
}

} // verus!
