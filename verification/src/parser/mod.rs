//! The parser of the query language: from the lexer's items to a [`Query`].
//!
//! ```text
//! query     := pattern <end>
//! pattern   := kind ( '{' filters '}' | filter )?     -- a lone filter when any token follows
//! filters   := sep* ( filter sep* )*                  -- up to the closing brace
//! sep       := ',' | <newline>
//! filter    := field? predicate
//! field     := 'name' | 'params' | 'body' | 'returns'
//! predicate := '=' value | 'matches' value | 'contains' value
//! value     := <string> | pattern
//! kind      := 'fn' | 'comment' | 'call'
//! ```
//! `=` and `matches` want a string value, and `matches` one that compiles as
//! a regular expression.
pub mod parser_pool;

use vstd::prelude::*;
use crate::ir::{ContainsText, Field, Filter, FilterView, Kind, Pattern, PatternView, Predicate, PredicateView, Query, QueryView};
use crate::lexer::{items_view, LexItem, Token, TokenView};
use crate::text::{regex_compiles, regex_is_valid};

verus! {

/// Why a query was refused.
#[derive(Clone, Copy, Debug, PartialEq, Eq, Structural)]
pub enum ParseError {
    /// Tokens after a complete query.
    TrailingTokens,
    /// A pattern that does not start with a kind.
    InvalidKind,
    /// A filter that starts with an error item or at the end of the input.
    InvalidField,
    /// A predicate expected and not found.
    ExpectedPredicate,
    /// `=` or `matches` followed by a pattern.
    ExpectedString,
    /// `matches` with a string that is no regular expression.
    InvalidRegex,
}

/// A value after a predicate: a string or a pattern.
pub enum ValueView {
    Str(Seq<char>),
    Pat(PatternView),
}

pub type Toks = Seq<Result<TokenView, ()>>;

pub open spec fn cur(toks: Toks, p: int) -> Option<Result<TokenView, ()>> {
    if 0 <= p < toks.len() { Some(toks[p]) } else { None }
}

pub open spec fn is_separator(t: Option<Result<TokenView, ()>>) -> bool {
    t == Some(Ok::<TokenView, ()>(TokenView::Comma)) || t == Some(Ok::<TokenView, ()>(TokenView::Newline))
}

/// The position after the commas and line breaks from `p` on.
pub open spec fn skip_separators(toks: Toks, p: int) -> int
    decreases toks.len() - p,
{
    if 0 <= p < toks.len() && is_separator(cur(toks, p)) {
        skip_separators(toks, p + 1)
    } else {
        p
    }
}

pub proof fn lemma_skip_separators(toks: Toks, p: int)
    ensures
        p <= skip_separators(toks, p),
        0 <= p <= toks.len() ==> skip_separators(toks, p) <= toks.len(),
    decreases toks.len() - p,
{
    if 0 <= p < toks.len() && is_separator(cur(toks, p)) {
        lemma_skip_separators(toks, p + 1);
    }
}

pub open spec fn sp_kind(toks: Toks, p: int) -> Result<(Kind, int), ParseError> {
    match cur(toks, p) {
        Some(Ok(TokenView::Fn)) => Ok((Kind::Function, p + 1)),
        Some(Ok(TokenView::Comment)) => Ok((Kind::Comment, p + 1)),
        Some(Ok(TokenView::Call)) => Ok((Kind::Call, p + 1)),
        _ => Err(ParseError::InvalidKind),
    }
}

/// The field that starts a filter at `p`, and where its predicate starts;
/// a token that names no field leaves the filter on the node itself.
pub open spec fn sp_field(toks: Toks, p: int) -> Result<(Field, int), ParseError> {
    match cur(toks, p) {
        Some(Ok(TokenView::Name)) => Ok((Field::Name, p + 1)),
        Some(Ok(TokenView::Params)) => Ok((Field::Params, p + 1)),
        Some(Ok(TokenView::Body)) => Ok((Field::Body, p + 1)),
        Some(Ok(TokenView::ReturnType)) => Ok((Field::ReturnType, p + 1)),
        Some(Ok(_)) => Ok((Field::Self_, p)),
        _ => Err(ParseError::InvalidField),
    }
}

pub open spec fn sp_pattern(toks: Toks, p: int) -> Result<(PatternView, int), ParseError>
    decreases toks.len() - p, 4int,
{
    match sp_kind(toks, p) {
        Err(e) => Err(e),
        Ok((kind, q)) => {
            if cur(toks, q) == Some(Ok::<TokenView, ()>(TokenView::LeftBrace)) {
                proof {
                    lemma_skip_separators(toks, q + 1);
                }
                match sp_filter_list(toks, skip_separators(toks, q + 1)) {
                    Err(e) => Err(e),
                    // the filters end at the closing brace
                    Ok((filters, r)) => Ok((PatternView { kind, filters }, r + 1)),
                }
            } else if cur(toks, q) is Some {
                match sp_filter(toks, q) {
                    Err(e) => Err(e),
                    Ok((f, r)) => Ok((PatternView { kind, filters: seq![f] }, r)),
                }
            } else {
                Ok((PatternView { kind, filters: seq![] }, q))
            }
        },
    }
}

/// Filters up to a closing brace, each followed by any number of separators.
pub open spec fn sp_filter_list(toks: Toks, p: int) -> Result<(Seq<FilterView>, int), ParseError>
    decreases toks.len() - p, 3int,
{
    if cur(toks, p) == Some(Ok::<TokenView, ()>(TokenView::RightBrace)) {
        Ok((seq![], p))
    } else {
        match sp_filter(toks, p) {
            Err(e) => Err(e),
            Ok((f, r)) => {
                let r2 = skip_separators(toks, r);
                if p < r2 <= toks.len() {
                    match sp_filter_list(toks, r2) {
                        Err(e) => Err(e),
                        Ok((rest, r3)) => Ok((seq![f] + rest, r3)),
                    }
                } else {
                    // never taken (`lemma_filter_list_advances`); it only
                    // makes the recursion visibly decrease
                    Err(ParseError::ExpectedPredicate)
                }
            },
        }
    }
}

pub open spec fn sp_filter(toks: Toks, p: int) -> Result<(FilterView, int), ParseError>
    decreases toks.len() - p, 2int,
{
    match sp_field(toks, p) {
        Err(e) => Err(e),
        Ok((field, q)) => if p <= q {
            match sp_predicate(toks, q) {
                Err(e) => Err(e),
                Ok((predicate, r)) => Ok((FilterView { field, predicate }, r)),
            }
        } else {
            Err(ParseError::InvalidField)
        },
    }
}

/// `t` is `=`, `matches` or `contains`.
pub open spec fn starts_predicate(t: Option<Result<TokenView, ()>>) -> bool {
    t == Some(Ok::<TokenView, ()>(TokenView::Equals)) || t == Some(Ok::<TokenView, ()>(TokenView::Matches))
        || t == Some(Ok::<TokenView, ()>(TokenView::Contains))
}

pub open spec fn sp_predicate(toks: Toks, p: int) -> Result<(PredicateView, int), ParseError>
    decreases toks.len() - p, 1int,
{
    if !(0 <= p < toks.len()) {
        Err(ParseError::ExpectedPredicate)
    } else {
        match toks[p] {
            Ok(TokenView::Equals) => match sp_value(toks, p + 1) {
                Err(e) => Err(e),
                Ok((ValueView::Str(v), r)) => Ok((PredicateView::Eq(v), r)),
                Ok((ValueView::Pat(_), _)) => Err(ParseError::ExpectedString),
            },
            Ok(TokenView::Matches) => match sp_value(toks, p + 1) {
                Err(e) => Err(e),
                Ok((ValueView::Str(v), r)) => if regex_compiles(v) {
                    Ok((PredicateView::Matches(v), r))
                } else {
                    Err(ParseError::InvalidRegex)
                },
                Ok((ValueView::Pat(_), _)) => Err(ParseError::ExpectedString),
            },
            Ok(TokenView::Contains) => match sp_value(toks, p + 1) {
                Err(e) => Err(e),
                Ok((ValueView::Str(v), r)) => Ok(
                    (PredicateView::ContainsText { case_sensitive: true, text: v }, r),
                ),
                Ok((ValueView::Pat(pat), r)) => Ok(
                    (PredicateView::ContainsPattern(Box::new(pat)), r),
                ),
            },
            _ => Err(ParseError::ExpectedPredicate),
        }
    }
}

pub open spec fn sp_value(toks: Toks, p: int) -> Result<(ValueView, int), ParseError>
    decreases toks.len() - p, 5int,
{
    match cur(toks, p) {
        Some(Ok(TokenView::Text(v))) => Ok((ValueView::Str(v), p + 1)),
        _ => if 0 <= p {
            match sp_pattern(toks, p) {
                Err(e) => Err(e),
                Ok((pat, r)) => Ok((ValueView::Pat(pat), r)),
            }
        } else {
            Err(ParseError::InvalidKind)
        },
    }
}

/// The query that the items `toks` spell from position `p` to their end, or
/// why there is none.
pub open spec fn sp_query(toks: Toks, p: int) -> Result<QueryView, ParseError> {
    match sp_pattern(toks, p) {
        Err(e) => Err(e),
        Ok((pat, r)) => if r < toks.len() {
            Err(ParseError::TrailingTokens)
        } else {
            Ok(QueryView::Pattern(pat))
        },
    }
}


pub proof fn lemma_pattern_bounds(toks: Toks, p: int)
    requires
        0 <= p,
    ensures
        sp_pattern(toks, p) matches Ok((_, r)) ==> p < r <= toks.len(),
    decreases toks.len() - p, 4int,
{
    if let Ok((kind, q)) = sp_kind(toks, p) {
        if cur(toks, q) == Some(Ok::<TokenView, ()>(TokenView::LeftBrace)) {
            lemma_skip_separators(toks, q + 1);
            lemma_filter_list_bounds(toks, skip_separators(toks, q + 1));
        } else if cur(toks, q) is Some {
            lemma_filter_bounds(toks, q);
        }
    }
}

pub proof fn lemma_filter_list_bounds(toks: Toks, p: int)
    requires
        0 <= p,
    ensures
        sp_filter_list(toks, p) matches Ok((_, r)) ==> p <= r <= toks.len()
            && cur(toks, r) == Some(Ok::<TokenView, ()>(TokenView::RightBrace)),
    decreases toks.len() - p, 3int,
{
    if cur(toks, p) != Some(Ok::<TokenView, ()>(TokenView::RightBrace)) {
        lemma_filter_bounds(toks, p);
        if let Ok((f, r)) = sp_filter(toks, p) {
            lemma_skip_separators(toks, r);
            let r2 = skip_separators(toks, r);
            if p < r2 <= toks.len() {
                lemma_filter_list_bounds(toks, r2);
            }
        }
    }
}

pub proof fn lemma_filter_bounds(toks: Toks, p: int)
    requires
        0 <= p,
    ensures
        sp_filter(toks, p) matches Ok((_, r)) ==> p < r <= toks.len(),
    decreases toks.len() - p, 2int,
{
    if let Ok((field, q)) = sp_field(toks, p) {
        if p <= q {
            lemma_predicate_bounds(toks, q);
        }
    }
}

pub proof fn lemma_predicate_bounds(toks: Toks, p: int)
    requires
        0 <= p,
    ensures
        sp_predicate(toks, p) matches Ok((_, r)) ==> p < r <= toks.len(),
    decreases toks.len() - p, 1int,
{
    if 0 <= p < toks.len() {
        lemma_value_bounds(toks, p + 1);
    }
}

pub proof fn lemma_value_bounds(toks: Toks, p: int)
    requires
        0 <= p,
    ensures
        sp_value(toks, p) matches Ok((_, r)) ==> p < r <= toks.len(),
    decreases toks.len() - p, 5int,
{
    match cur(toks, p) {
        Some(Ok(TokenView::Text(v))) => {},
        _ => {
            lemma_pattern_bounds(toks, p);
        },
    }
}

/// A filter read inside braces always moves the reader on: the filter ends
/// after where it starts, and the separators after it end within the items.
/// So the list of filters never stops for want of progress.
pub proof fn lemma_filter_list_advances(toks: Toks, p: int)
    requires
        0 <= p,
        sp_filter(toks, p) is Ok,
    ensures
        sp_filter(toks, p) matches Ok((_, r)) && p < skip_separators(toks, r) <= toks.len(),
{
    lemma_filter_bounds(toks, p);
    if let Ok((_, r)) = sp_filter(toks, p) {
        lemma_skip_separators(toks, r);
    }
}

/// Separators after the last filter change nothing: a filter followed by any
/// number of commas and line breaks and then the closing brace is a list of
/// that one filter, which ends at the brace.
pub proof fn lemma_separators_before_closing_brace(toks: Toks, p: int)
    requires
        0 <= p,
        sp_filter(toks, p) matches Ok((_, r)) && cur(toks, skip_separators(toks, r)) == Some(
            Ok::<TokenView, ()>(TokenView::RightBrace),
        ),
    ensures
        sp_filter(toks, p) matches Ok((f, r)) && sp_filter_list(toks, p) == Ok::<(Seq<FilterView>, int), ParseError>(
            (seq![f], skip_separators(toks, r)),
        ),
{
    lemma_filter_list_advances(toks, p);
    let (f, r) = sp_filter(toks, p).unwrap();
    let r2 = skip_separators(toks, r);
    // a filter cannot start at a closing brace
    assert(cur(toks, p) != Some(Ok::<TokenView, ()>(TokenView::RightBrace)));
    assert(sp_filter_list(toks, r2) == Ok::<(Seq<FilterView>, int), ParseError>((seq![], r2)));
    assert(seq![f] + Seq::<FilterView>::empty() =~= seq![f]);
}

/// A kind, an opening brace, one filter, any separators and a closing brace
/// that ends the items parse to a pattern of that kind with that one filter.
pub proof fn lemma_one_filter_in_braces(toks: Toks)
    requires
        sp_kind(toks, 0) matches Ok((_, q)) && q == 1,
        cur(toks, 1) == Some(Ok::<TokenView, ()>(TokenView::LeftBrace)),
        sp_filter(toks, 2) matches Ok((_, r)) && cur(toks, skip_separators(toks, r)) == Some(
            Ok::<TokenView, ()>(TokenView::RightBrace),
        ) && skip_separators(toks, r) + 1 == toks.len(),
    ensures
        sp_kind(toks, 0) matches Ok((k, _)) && sp_filter(toks, 2) matches Ok((f, _)) && sp_query(toks, 0)
            == Ok::<QueryView, ParseError>(QueryView::Pattern(PatternView { kind: k, filters: seq![f] })),
{
    // a filter cannot start at a separator
    assert(!is_separator(cur(toks, 2)));
    assert(skip_separators(toks, 2) == 2);
    lemma_separators_before_closing_brace(toks, 2);
}

/// A query is read from the items only when it takes all of them: the
/// pattern it holds ends with the last item.
pub proof fn lemma_query_reads_every_item(toks: Toks, p: int)
    requires
        0 <= p,
        sp_query(toks, p) is Ok,
    ensures
        sp_pattern(toks, p) matches Ok((_, r)) && r == toks.len(),
{
    lemma_pattern_bounds(toks, p);
}

/// Within braces, separators before a filter change nothing: the filters read
/// after a comma or a line break are those read without it.
pub proof fn lemma_separators_are_skipped(toks: Toks, p: int)
    requires
        0 <= p < toks.len(),
        is_separator(cur(toks, p)),
    ensures
        skip_separators(toks, p) == skip_separators(toks, p + 1),
{
}

/// A value after a predicate, as parsed.
pub enum ParsedValue {
    String(String),
    Pattern(Pattern),
}

impl View for ParsedValue {
    type V = ValueView;

    open spec fn view(&self) -> ValueView {
        match self {
            ParsedValue::String(s) => ValueView::Str(s@),
            ParsedValue::Pattern(p) => ValueView::Pat(p@),
        }
    }
}

/// A recursive-descent parser over the items of a lexed query.
pub struct Parser {
    tokens: Vec<LexItem>,
    pos: usize,
}

impl Parser {
    /// The items the parser reads.
    pub closed spec fn toks(&self) -> Toks {
        items_view(self.tokens@)
    }

    /// The position of the next item to read.
    pub closed spec fn position(&self) -> int {
        self.pos as int
    }

    pub closed spec fn wf(&self) -> bool {
        self.pos <= self.tokens@.len()
    }

    /// A parser at the first of `tokens`.
    pub fn new(tokens: Vec<LexItem>) -> (r: Self)
        ensures
            r.wf(),
            r.toks() == items_view(tokens@),
            r.position() == 0,
    {
        Parser { tokens, pos: 0 }
    }

    fn advance(&mut self)
        requires
            old(self).pos < old(self).tokens@.len(),
        ensures
            final(self).tokens == old(self).tokens,
            final(self).pos == old(self).pos + 1,
    {
        if self.pos < self.tokens.len() {
            self.pos = self.pos + 1;
        }
    }

    fn at_left_brace(&self) -> (r: bool)
        ensures
            r == (cur(self.toks(), self.pos as int) == Some(Ok::<TokenView, ()>(TokenView::LeftBrace))),
    {
        if self.pos < self.tokens.len() {
            match &self.tokens[self.pos] {
                Ok(Token::LeftBrace) => true,
                _ => false,
            }
        } else {
            false
        }
    }

    fn at_right_brace(&self) -> (r: bool)
        ensures
            r == (cur(self.toks(), self.pos as int) == Some(Ok::<TokenView, ()>(TokenView::RightBrace))),
    {
        if self.pos < self.tokens.len() {
            match &self.tokens[self.pos] {
                Ok(Token::RightBrace) => true,
                _ => false,
            }
        } else {
            false
        }
    }

    fn at_separator(&self) -> (r: bool)
        ensures
            r == (0 <= self.pos < self.tokens@.len() && is_separator(cur(self.toks(), self.pos as int))),
    {
        if self.pos < self.tokens.len() {
            match &self.tokens[self.pos] {
                Ok(Token::Comma) => true,
                Ok(Token::Newline) => true,
                _ => false,
            }
        } else {
            false
        }
    }

    /// Parses a whole query from the current position: a pattern that ends
    /// with the items.
    pub fn parse_query(&mut self) -> (r: Result<Query, ParseError>)
        requires
            old(self).wf(),
        ensures
            final(self).wf(),
            final(self).toks() == old(self).toks(),
            match sp_query(old(self).toks(), old(self).position()) {
                Ok(q) => r matches Ok(res) && res@ == q,
                Err(e) => r == Err::<Query, ParseError>(e),
            },
    {
        match self.parse_pattern() {
            Err(e) => Err(e),
            Ok(pattern) => {
                if self.pos < self.tokens.len() {
                    Err(ParseError::TrailingTokens)
                } else {
                    Ok(Query::Pattern(pattern))
                }
            },
        }
    }

    fn parse_pattern(&mut self) -> (r: Result<Pattern, ParseError>)
        requires
            old(self).wf(),
        ensures
            final(self).wf(),
            final(self).toks() == old(self).toks(),
            match sp_pattern(old(self).toks(), old(self).position()) {
                Ok((pv, q)) => r matches Ok(pat) && pat@ == pv && final(self).position() == q,
                Err(e) => r == Err::<Pattern, ParseError>(e),
            },
        decreases old(self).toks().len() - old(self).position(), 4int,
    {
        proof {
            lemma_pattern_bounds(self.toks(), self.pos as int);
        }
        let kind = match self.parse_kind() {
            Err(e) => return Err(e),
            Ok(k) => k,
        };
        if self.at_left_brace() {
            self.advance();
            let filters = match self.parse_filters() {
                Err(e) => return Err(e),
                Ok(fs) => fs,
            };
            proof {
                lemma_filter_list_bounds(self.toks(), self.pos as int);
            }
            self.advance();
            let pat = Pattern { kind, filters };
            assert(pat@.filters =~= filters@.map_values(|f: Filter| f@));
            Ok(pat)
        } else if self.pos < self.tokens.len() {
            let f = match self.parse_filter() {
                Err(e) => return Err(e),
                Ok(f) => f,
            };
            let mut filters: Vec<Filter> = Vec::new();
            filters.push(f);
            let pat = Pattern { kind, filters };
            assert(pat@.filters =~= seq![f@]);
            Ok(pat)
        } else {
            let filters: Vec<Filter> = Vec::new();
            let pat = Pattern { kind, filters };
            assert(pat@.filters =~= Seq::<FilterView>::empty());
            Ok(pat)
        }
    }

    fn parse_kind(&mut self) -> (r: Result<Kind, ParseError>)
        requires
            old(self).wf(),
        ensures
            final(self).wf(),
            final(self).tokens == old(self).tokens,
            match sp_kind(old(self).toks(), old(self).position()) {
                Ok((k, q)) => r == Ok::<Kind, ParseError>(k) && final(self).position() == q,
                Err(e) => r == Err::<Kind, ParseError>(e),
            },
            r is Err ==> final(self).position() == old(self).position(),
    {
        if self.pos < self.tokens.len() {
            let k = match &self.tokens[self.pos] {
                Ok(Token::Fn) => Kind::Function,
                Ok(Token::Comment) => Kind::Comment,
                Ok(Token::Call) => Kind::Call,
                _ => return Err(ParseError::InvalidKind),
            };
            self.advance();
            Ok(k)
        } else {
            Err(ParseError::InvalidKind)
        }
    }

    fn consume_separators(&mut self)
        requires
            old(self).wf(),
        ensures
            final(self).wf(),
            final(self).tokens == old(self).tokens,
            final(self).position() == skip_separators(old(self).toks(), old(self).position()),
    {
        while self.at_separator()
            invariant
                self.wf(),
                self.tokens == old(self).tokens,
                skip_separators(self.toks(), self.pos as int) == skip_separators(
                    old(self).toks(),
                    old(self).position(),
                ),
            decreases self.tokens@.len() - self.pos,
        {
            self.advance();
        }
    }

    /// Parses the filters inside braces, up to (not past) the closing brace.
    fn parse_filters(&mut self) -> (r: Result<Vec<Filter>, ParseError>)
        requires
            old(self).wf(),
        ensures
            final(self).wf(),
            final(self).toks() == old(self).toks(),
            match sp_filter_list(old(self).toks(), skip_separators(old(self).toks(), old(self).position())) {
                Ok((fs, q)) => r matches Ok(v) && v@.map_values(|f: Filter| f@) == fs
                    && final(self).position() == q,
                Err(e) => r == Err::<Vec<Filter>, ParseError>(e),
            },
        decreases old(self).toks().len() - old(self).position(), 3int,
    {
        let ghost toks = self.toks();
        let ghost start = skip_separators(toks, self.pos as int);
        proof {
            lemma_skip_separators(toks, self.pos as int);
        }
        self.consume_separators();
        let mut filters: Vec<Filter> = Vec::new();
        while !self.at_right_brace()
            invariant
                self.wf(),
                self.toks() == toks,
                toks == old(self).toks(),
                start == skip_separators(old(self).toks(), old(self).position()),
                old(self).position() <= self.pos,
                sp_filter_list(toks, start) == match sp_filter_list(toks, self.pos as int) {
                    Ok((rest, q)) => Ok((filters@.map_values(|f: Filter| f@) + rest, q)),
                    Err(e) => Err(e),
                },
            decreases toks.len() - self.pos,
        {
            let ghost p = self.pos as int;
            let ghost before = filters@.map_values(|f: Filter| f@);
            proof {
                lemma_filter_bounds(toks, p);
            }
            let f = match self.parse_filter() {
                Err(e) => {
                    assert(sp_filter_list(toks, p) == Err::<(Seq<FilterView>, int), ParseError>(e));
                    return Err(e);
                },
                Ok(f) => f,
            };
            let ghost r = self.pos as int;
            proof {
                lemma_skip_separators(toks, r);
            }
            self.consume_separators();
            let ghost fv = f@;
            filters.push(f);
            assert(filters@.map_values(|f: Filter| f@) =~= before + seq![fv]);
            proof {
                let r2 = skip_separators(toks, r);
                assert(p < r2 <= toks.len());
                match sp_filter_list(toks, r2) {
                    Ok((rest, q)) => {
                        assert(before + (seq![fv] + rest) =~= (before + seq![fv]) + rest);
                    },
                    Err(e) => {},
                }
            }
        }
        proof {
            assert(filters@.map_values(|f: Filter| f@) + Seq::<FilterView>::empty() =~= filters@.map_values(|f: Filter| f@));
        }
        Ok(filters)
    }

    fn parse_filter(&mut self) -> (r: Result<Filter, ParseError>)
        requires
            old(self).wf(),
        ensures
            final(self).wf(),
            final(self).toks() == old(self).toks(),
            match sp_filter(old(self).toks(), old(self).position()) {
                Ok((fv, q)) => r matches Ok(f) && f@ == fv && final(self).position() == q,
                Err(e) => r == Err::<Filter, ParseError>(e),
            },
        decreases old(self).toks().len() - old(self).position(), 2int,
    {
        let field = match self.parse_field() {
            Err(e) => return Err(e),
            Ok(f) => f,
        };
        let predicate = match self.parse_predicate() {
            Err(e) => return Err(e),
            Ok(p) => p,
        };
        Ok(Filter { field, predicate })
    }

    fn parse_field(&mut self) -> (r: Result<Field, ParseError>)
        requires
            old(self).wf(),
        ensures
            final(self).wf(),
            final(self).tokens == old(self).tokens,
            match sp_field(old(self).toks(), old(self).position()) {
                Ok((f, q)) => r == Ok::<Field, ParseError>(f) && final(self).position() == q,
                Err(e) => r == Err::<Field, ParseError>(e),
            },
            r is Err ==> final(self).position() == old(self).position(),
    {
        if self.pos < self.tokens.len() {
            let f = match &self.tokens[self.pos] {
                Ok(Token::Name) => Field::Name,
                Ok(Token::Params) => Field::Params,
                Ok(Token::Body) => Field::Body,
                Ok(Token::ReturnType) => Field::ReturnType,
                Ok(_) => return Ok(Field::Self_),
                Err(()) => return Err(ParseError::InvalidField),
            };
            self.advance();
            Ok(f)
        } else {
            Err(ParseError::InvalidField)
        }
    }

    fn parse_predicate(&mut self) -> (r: Result<Predicate, ParseError>)
        requires
            old(self).wf(),
        ensures
            final(self).wf(),
            final(self).toks() == old(self).toks(),
            match sp_predicate(old(self).toks(), old(self).position()) {
                Ok((pv, q)) => r matches Ok(p) && p@ == pv && final(self).position() == q,
                Err(e) => r == Err::<Predicate, ParseError>(e),
            },
            !starts_predicate(cur(old(self).toks(), old(self).position())) ==> r
                == Err::<Predicate, ParseError>(ParseError::ExpectedPredicate) && final(self).position()
                == old(self).position(),
        decreases old(self).toks().len() - old(self).position(), 1int,
    {
        if self.pos >= self.tokens.len() {
            return Err(ParseError::ExpectedPredicate);
        }
        let which: u8 = match &self.tokens[self.pos] {
            Ok(Token::Equals) => 0,
            Ok(Token::Matches) => 1,
            Ok(Token::Contains) => 2,
            _ => return Err(ParseError::ExpectedPredicate),
        };
        self.advance();
        let value = match self.parse_value() {
            Err(e) => return Err(e),
            Ok(v) => v,
        };
        if which == 0 {
            match value {
                ParsedValue::String(v) => Ok(Predicate::Eq(v)),
                ParsedValue::Pattern(_) => Err(ParseError::ExpectedString),
            }
        } else if which == 1 {
            match value {
                ParsedValue::String(v) => {
                    if regex_is_valid(v.as_str()) {
                        Ok(Predicate::Matches(v))
                    } else {
                        Err(ParseError::InvalidRegex)
                    }
                },
                ParsedValue::Pattern(_) => Err(ParseError::ExpectedString),
            }
        } else {
            match value {
                ParsedValue::String(v) => Ok(
                    Predicate::ContainsText(ContainsText { text: v, case_sensitive: true }),
                ),
                ParsedValue::Pattern(pattern) => Ok(Predicate::ContainsPattern(Box::new(pattern))),
            }
        }
    }

    fn parse_value(&mut self) -> (r: Result<ParsedValue, ParseError>)
        requires
            old(self).wf(),
        ensures
            final(self).wf(),
            final(self).toks() == old(self).toks(),
            match sp_value(old(self).toks(), old(self).position()) {
                Ok((vv, q)) => r matches Ok(v) && v@ == vv && final(self).position() == q,
                Err(e) => r is Err && r->Err_0 == e,
            },
        decreases old(self).toks().len() - old(self).position(), 5int,
    {
        if self.pos < self.tokens.len() {
            let text = match &self.tokens[self.pos] {
                Ok(Token::Text(v)) => Some(v.clone()),
                _ => None,
            };
            if let Some(v) = text {
                self.advance();
                return Ok(ParsedValue::String(v));
            }
        }
        match self.parse_pattern() {
            Err(e) => Err(e),
            Ok(p) => Ok(ParsedValue::Pattern(p)),
        }
    }
}

} // verus!
