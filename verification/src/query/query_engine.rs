//! Query engines take a query in the intermediate representation and return
//! the nodes of a syntax tree that it matches.
use vstd::prelude::*;
use crate::ir::Query;
use crate::language::language_spec::LanguageSpec;
use crate::syntax::SyntaxTree;

verus! {

/// A node that a query matched.
#[derive(Debug)]
pub struct Match {
    pub kind: String,
    pub start_byte: usize,
    pub end_byte: usize,
    pub start_row: usize,
    pub start_col: usize,
    pub text: String,
}

/// Mathematical model of a [`Match`].
pub struct MatchView {
    pub kind: Seq<char>,
    pub start_byte: usize,
    pub end_byte: usize,
    pub start_row: usize,
    pub start_col: usize,
    pub text: Seq<char>,
}

impl View for Match {
    type V = MatchView;

    open spec fn view(&self) -> MatchView {
        MatchView {
            kind: self.kind@,
            start_byte: self.start_byte,
            end_byte: self.end_byte,
            start_row: self.start_row,
            start_col: self.start_col,
            text: self.text@,
        }
    }
}

/// An engine that runs one query, with one language's spec, over syntax trees.
pub trait QueryEngine<'a, 'b, S: LanguageSpec>: Sized {
    fn new(spec: &'a S, query: &'b Query) -> Self;

    fn run(&self, tree: &SyntaxTree, source: &str) -> Vec<Match>
        requires
            tree.wf(),
    ;
}

} // verus!
