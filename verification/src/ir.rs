//! The intermediate representation of a query: a query is converted into
//! these types by the parser and then handed to a query engine.
use vstd::prelude::*;

verus! {

/// The kind of syntax node a pattern selects.
#[derive(Clone, Copy, Debug, PartialEq, Eq, Structural)]
pub enum Kind {
    Function,
    Var,
    Comment,
    Call,
    Param,
    Arg,
    String,
    Import,
    Type,
}

/// The part of a node that a filter looks at; `Self_` is the node itself.
#[derive(Clone, Copy, Debug, PartialEq, Eq, Structural)]
pub enum Field {
    Self_,
    Name,
    Body,
    Params,
    Args,
    Type,
    ReturnType,
    Value,
    Receiver,
    Path,
    Condition,
}

#[derive(Debug)]
pub enum Query {
    Pattern(Pattern),
}

#[derive(Debug)]
pub struct Pattern {
    pub kind: Kind,
    pub filters: Vec<Filter>,
}

#[derive(Debug)]
pub struct Filter {
    pub field: Field,
    pub predicate: Predicate,
}

#[derive(Clone, Debug)]
pub struct ContainsText {
    pub case_sensitive: bool,
    pub text: String,
}

/// A test on the text (or the subtree) of a node.
/// `Matches` holds the source of a regular expression that compiles.
#[derive(Debug)]
pub enum Predicate {
    Eq(String),
    Matches(String),
    ContainsText(ContainsText),
    ContainsPattern(Box<Pattern>),
}

/// Mathematical model of a [`Query`].
pub enum QueryView {
    Pattern(PatternView),
}

/// Mathematical model of a [`Pattern`].
pub struct PatternView {
    pub kind: Kind,
    pub filters: Seq<FilterView>,
}

/// Mathematical model of a [`Filter`].
pub struct FilterView {
    pub field: Field,
    pub predicate: PredicateView,
}

/// Mathematical model of a [`Predicate`].
pub enum PredicateView {
    Eq(Seq<char>),
    Matches(Seq<char>),
    ContainsText { case_sensitive: bool, text: Seq<char> },
    ContainsPattern(Box<PatternView>),
}

pub open spec fn pattern_view(p: Pattern) -> PatternView
    decreases p,
{
    PatternView {
        kind: p.kind,
        filters: Seq::new(
            p.filters@.len(),
            |i: int|
                {
                    if 0 <= i < p.filters@.len() {
                        proof {
                            assert(decreases_to!(p => p.filters));
                            assert(decreases_to!(p.filters => p.filters@));
                            assert(decreases_to!(p.filters@ => p.filters@[i]));
                        }
                        filter_view(p.filters@[i])
                    } else {
                        arbitrary()
                    }
                },
        ),
    }
}

pub open spec fn filter_view(f: Filter) -> FilterView
    decreases f,
{
    FilterView { field: f.field, predicate: predicate_view(f.predicate) }
}

pub open spec fn predicate_view(p: Predicate) -> PredicateView
    decreases p,
{
    match p {
        Predicate::Eq(s) => PredicateView::Eq(s@),
        Predicate::Matches(s) => PredicateView::Matches(s@),
        Predicate::ContainsText(c) => PredicateView::ContainsText {
            case_sensitive: c.case_sensitive,
            text: c.text@,
        },
        Predicate::ContainsPattern(b) => PredicateView::ContainsPattern(Box::new(pattern_view(*b))),
    }
}

impl View for Pattern {
    type V = PatternView;

    open spec fn view(&self) -> PatternView {
        pattern_view(*self)
    }
}

impl View for Filter {
    type V = FilterView;

    open spec fn view(&self) -> FilterView {
        filter_view(*self)
    }
}

impl View for Predicate {
    type V = PredicateView;

    open spec fn view(&self) -> PredicateView {
        predicate_view(*self)
    }
}

impl View for Query {
    type V = QueryView;

    open spec fn view(&self) -> QueryView {
        match self {
            Query::Pattern(p) => QueryView::Pattern(p@),
        }
    }
}

} // verus!
