//! A query engine that walks every node of a syntax tree and tests the query
//! on it.
use vstd::prelude::*;
use crate::ir::{Field, Filter, FilterView, Kind, Pattern, PatternView, Predicate, PredicateView, Query, QueryView};
use crate::language::language_spec::{names_view, LanguageSpec};
use crate::query::query_engine::{Match, MatchView, QueryEngine};
use crate::syntax::{child_by_field_name, SyntaxTree};
use crate::text::{byte_range_text, regex_compiles, regex_finds, regex_is_match, seq_contains, str_contains, text_of_byte_range};

verus! {

/// The text of node `i`: the bytes of `src` that it spans.
pub open spec fn node_text(tree: SyntaxTree, src: Seq<char>, i: int) -> Option<Seq<char>> {
    byte_range_text(src, tree.nodes@[i].start_byte as int, tree.nodes@[i].end_byte as int)
}

/// The child of node `i` under the first of `names` (from the `k`-th on)
/// under which `i` has a child.
pub open spec fn first_field_child(tree: SyntaxTree, i: int, names: Seq<Seq<char>>, k: int) -> Option<int>
    decreases names.len() - k,
{
    if k < 0 || k >= names.len() {
        None
    } else {
        match tree.child_by_field_name(i, names[k]) {
            Some(j) => Some(j),
            None => first_field_child(tree, i, names, k + 1),
        }
    }
}

/// The node that a filter on `field` of a `kind` node `i` looks at.
pub open spec fn field_node<S: LanguageSpec>(spec: S, tree: SyntaxTree, i: int, kind: Kind, field: Field) -> Option<int> {
    if field == Field::Self_ {
        Some(i)
    } else {
        first_field_child(tree, i, spec.field_name_list(kind, field), 0)
    }
}

/// Node `i` is of the pattern's kind and passes all its filters.
pub open spec fn pattern_holds<S: LanguageSpec>(spec: S, tree: SyntaxTree, src: Seq<char>, pat: PatternView, i: int) -> bool
    decreases pat, 1int, 0int,
{
    spec.kind_names(pat.kind).contains(tree.nodes@[i].kind@) && filters_hold_from(spec, tree, src, pat, i, 0)
}

/// Node `i` passes the filters of the pattern from the `k`-th on.
pub open spec fn filters_hold_from<S: LanguageSpec>(spec: S, tree: SyntaxTree, src: Seq<char>, pat: PatternView, i: int, k: int) -> bool
    decreases pat, 0int, pat.filters.len() - k,
{
    if k < 0 || k >= pat.filters.len() {
        true
    } else {
        filter_holds(spec, tree, src, pat.filters[k], pat.kind, i) && filters_hold_from(spec, tree, src, pat, i, k + 1)
    }
}

/// The filter's field of the `kind` node `i` exists and passes the filter's predicate.
pub open spec fn filter_holds<S: LanguageSpec>(spec: S, tree: SyntaxTree, src: Seq<char>, f: FilterView, kind: Kind, i: int) -> bool
    decreases f, 0int, 0int,
{
    match field_node(spec, tree, i, kind, f.field) {
        None => false,
        Some(j) => predicate_holds(spec, tree, src, f.predicate, j),
    }
}

/// Node `j` has a text, and the predicate holds of it: the text equals the
/// string, matches the regular expression, contains the string, or the node
/// has a descendant that the pattern matches.
pub open spec fn predicate_holds<S: LanguageSpec>(spec: S, tree: SyntaxTree, src: Seq<char>, p: PredicateView, j: int) -> bool
    decreases p, 0int, 0int,
{
    match node_text(tree, src, j) {
        None => false,
        Some(text) => match p {
            PredicateView::Eq(v) => text == v,
            PredicateView::Matches(re) => regex_compiles(re) && regex_finds(re, text),
            PredicateView::ContainsText { case_sensitive, text: needle } => seq_contains(text, needle),
            PredicateView::ContainsPattern(b) => descendant_holds_from(spec, tree, src, *b, j, j + 1),
        },
    }
}

/// Some node among the descendants of `j`, from node `d` on, matches the pattern.
pub open spec fn descendant_holds_from<S: LanguageSpec>(spec: S, tree: SyntaxTree, src: Seq<char>, pat: PatternView, j: int, d: int) -> bool
    decreases pat, 2int, tree.nodes@[j].end - d,
{
    if d < 0 || d >= tree.nodes@[j].end {
        false
    } else {
        pattern_holds(spec, tree, src, pat, d) || descendant_holds_from(spec, tree, src, pat, j, d + 1)
    }
}

/// The query holds at node `i`.
pub open spec fn query_holds<S: LanguageSpec>(spec: S, tree: SyntaxTree, src: Seq<char>, q: QueryView, i: int) -> bool {
    match q {
        QueryView::Pattern(p) => pattern_holds(spec, tree, src, p, i),
    }
}

/// What is reported of a matched node `i`: its kind, range, start position and
/// text (empty where the range does not cut `src` at character boundaries).
pub open spec fn match_of(tree: SyntaxTree, src: Seq<char>, i: int) -> MatchView {
    let n = tree.nodes@[i];
    MatchView {
        kind: n.kind@,
        start_byte: n.start_byte,
        end_byte: n.end_byte,
        start_row: n.start_row,
        start_col: n.start_col,
        text: match node_text(tree, src, i) {
            Some(t) => t,
            None => seq![],
        },
    }
}

/// The matches among the first `k` nodes, in preorder.
pub open spec fn matches_upto<S: LanguageSpec>(spec: S, tree: SyntaxTree, src: Seq<char>, q: QueryView, k: int) -> Seq<MatchView>
    decreases k,
{
    if k <= 0 {
        seq![]
    } else {
        matches_upto(spec, tree, src, q, k - 1) + if query_holds(spec, tree, src, q, k - 1) {
            seq![match_of(tree, src, k - 1)]
        } else {
            seq![]
        }
    }
}

/// The indices of the nodes among the first `k` at which the query holds, in
/// increasing order.
pub open spec fn matched_nodes<S: LanguageSpec>(spec: S, tree: SyntaxTree, src: Seq<char>, q: QueryView, k: int) -> Seq<int>
    decreases k,
{
    if k <= 0 {
        seq![]
    } else {
        matched_nodes(spec, tree, src, q, k - 1) + if query_holds(spec, tree, src, q, k - 1) {
            seq![k - 1]
        } else {
            seq![]
        }
    }
}

/// The engine reports exactly the nodes at which the query holds: each of
/// them once, and in preorder (the order of their indices).
pub proof fn lemma_reports_exactly_the_matching_nodes<S: LanguageSpec>(
    spec: S,
    tree: SyntaxTree,
    src: Seq<char>,
    q: QueryView,
    k: int,
)
    requires
        0 <= k,
    ensures
        matches_upto(spec, tree, src, q, k).len() == matched_nodes(spec, tree, src, q, k).len(),
        forall|m: int|
            0 <= m < matched_nodes(spec, tree, src, q, k).len() ==> #[trigger] matches_upto(spec, tree, src, q, k)[m]
                == match_of(tree, src, matched_nodes(spec, tree, src, q, k)[m]),
        forall|i: int|
            0 <= i < k ==> (matched_nodes(spec, tree, src, q, k).contains(i) <==> query_holds(spec, tree, src, q, i)),
        forall|m: int|
            0 <= m < matched_nodes(spec, tree, src, q, k).len() ==> 0 <= #[trigger] matched_nodes(spec, tree, src, q, k)[m] < k,
        forall|a: int, b: int|
            0 <= a < b < matched_nodes(spec, tree, src, q, k).len() ==> #[trigger] matched_nodes(spec, tree, src, q, k)[a]
                < #[trigger] matched_nodes(spec, tree, src, q, k)[b],
    decreases k,
{
    if k > 0 {
        lemma_reports_exactly_the_matching_nodes(spec, tree, src, q, k - 1);
        let prev = matched_nodes(spec, tree, src, q, k - 1);
        let cur = matched_nodes(spec, tree, src, q, k);
        assert forall|i: int| 0 <= i < k implies (cur.contains(i) <==> query_holds(spec, tree, src, q, i)) by {
            if i < k - 1 {
                if cur.contains(i) {
                    let m = choose|m: int| 0 <= m < cur.len() && cur[m] == i;
                    if m < prev.len() {
                        assert(prev[m] == i);
                    }
                }
                if prev.contains(i) {
                    let m = choose|m: int| 0 <= m < prev.len() && prev[m] == i;
                    assert(cur[m] == i);
                }
            } else {
                if query_holds(spec, tree, src, q, i) {
                    assert(cur[prev.len() as int] == i);
                } else {
                    assert(cur =~= prev);
                }
            }
        }
    }
}

/// Some node among the descendants of `j` from `d` on matches the pattern
/// exactly when one of them does.
pub proof fn lemma_descendant_holds<S: LanguageSpec>(
    spec: S,
    tree: SyntaxTree,
    src: Seq<char>,
    pat: PatternView,
    j: int,
    d: int,
)
    requires
        0 <= d,
    ensures
        descendant_holds_from(spec, tree, src, pat, j, d) <==> exists|e: int|
            d <= e < tree.nodes@[j].end && #[trigger] pattern_holds(spec, tree, src, pat, e),
    decreases tree.nodes@[j].end - d,
{
    if d < tree.nodes@[j].end {
        lemma_descendant_holds(spec, tree, src, pat, j, d + 1);
        assert(descendant_holds_from(spec, tree, src, pat, j, d) == (pattern_holds(spec, tree, src, pat, d)
            || descendant_holds_from(spec, tree, src, pat, j, d + 1)));
        if exists|e: int| d <= e < tree.nodes@[j].end && #[trigger] pattern_holds(spec, tree, src, pat, e) {
            let e = choose|e: int| d <= e < tree.nodes@[j].end && #[trigger] pattern_holds(spec, tree, src, pat, e);
            if e > d {
                assert(d + 1 <= e < tree.nodes@[j].end && pattern_holds(spec, tree, src, pat, e));
            }
        }
        if descendant_holds_from(spec, tree, src, pat, j, d + 1) {
            let e = choose|e: int| d + 1 <= e < tree.nodes@[j].end && #[trigger] pattern_holds(spec, tree, src, pat, e);
            assert(d <= e < tree.nodes@[j].end && pattern_holds(spec, tree, src, pat, e));
        }
    }
}

/// A `contains` pattern predicate holds of a node with a text exactly when a
/// strict descendant of the node matches the pattern.
pub proof fn lemma_contains_pattern<S: LanguageSpec>(
    spec: S,
    tree: SyntaxTree,
    src: Seq<char>,
    pat: PatternView,
    j: int,
)
    requires
        0 <= j,
        node_text(tree, src, j) is Some,
    ensures
        predicate_holds(spec, tree, src, PredicateView::ContainsPattern(Box::new(pat)), j) <==> exists|e: int|
            j < e < tree.nodes@[j].end && #[trigger] pattern_holds(spec, tree, src, pat, e),
{
    lemma_descendant_holds(spec, tree, src, pat, j, j + 1);
}

/// A node passes the filters from the `k`-th on exactly when it passes each
/// of them.
pub proof fn lemma_filters_hold_each<S: LanguageSpec>(
    spec: S,
    tree: SyntaxTree,
    src: Seq<char>,
    pat: PatternView,
    i: int,
    k: int,
)
    requires
        0 <= k,
    ensures
        filters_hold_from(spec, tree, src, pat, i, k) <==> forall|m: int|
            k <= m < pat.filters.len() ==> #[trigger] filter_holds(spec, tree, src, pat.filters[m], pat.kind, i),
    decreases pat.filters.len() - k,
{
    if k < pat.filters.len() {
        lemma_filters_hold_each(spec, tree, src, pat, i, k + 1);
        assert(filters_hold_from(spec, tree, src, pat, i, k) == (filter_holds(spec, tree, src, pat.filters[k], pat.kind, i)
            && filters_hold_from(spec, tree, src, pat, i, k + 1)));
        if forall|m: int| k <= m < pat.filters.len() ==> #[trigger] filter_holds(spec, tree, src, pat.filters[m], pat.kind, i) {
            assert(filter_holds(spec, tree, src, pat.filters[k], pat.kind, i));
        }
        if filters_hold_from(spec, tree, src, pat, i, k) {
            assert forall|m: int| k <= m < pat.filters.len() implies #[trigger] filter_holds(spec, tree, src, pat.filters[m], pat.kind, i) by {
                if m > k {
                    assert(k + 1 <= m < pat.filters.len());
                }
            }
        }
    }
}

/// A pattern holds at a node exactly when the node is of its kind and passes
/// each of its filters.
pub proof fn lemma_pattern_holds_each<S: LanguageSpec>(
    spec: S,
    tree: SyntaxTree,
    src: Seq<char>,
    pat: PatternView,
    i: int,
)
    ensures
        pattern_holds(spec, tree, src, pat, i) <==> spec.kind_names(pat.kind).contains(tree.nodes@[i].kind@)
            && forall|m: int| 0 <= m < pat.filters.len() ==> #[trigger] filter_holds(spec, tree, src, pat.filters[m], pat.kind, i),
{
    lemma_filters_hold_each(spec, tree, src, pat, i, 0);
}

/// The characters of `v` stand in `t` one after another from position `i` on.
pub open spec fn occurs_at(t: Seq<char>, v: Seq<char>, i: int) -> bool {
    0 <= i && i + v.len() <= t.len() && forall|m: int| 0 <= m < v.len() ==> #[trigger] t[i + m] == v[m]
}

/// An `=` filter holds of a node exactly when the node's text is the string:
/// equal, not merely containing it.
pub proof fn lemma_eq_is_text_equality<S: LanguageSpec>(
    spec: S,
    tree: SyntaxTree,
    src: Seq<char>,
    v: Seq<char>,
    j: int,
)
    ensures
        predicate_holds(spec, tree, src, PredicateView::Eq(v), j) <==> node_text(tree, src, j) == Some(v),
{
}

/// A `contains` filter with a string holds of a node exactly when the string
/// occurs, as a block of consecutive characters, in the node's text; case is
/// not folded.
pub proof fn lemma_contains_text_is_substring<S: LanguageSpec>(
    spec: S,
    tree: SyntaxTree,
    src: Seq<char>,
    case_sensitive: bool,
    v: Seq<char>,
    j: int,
)
    ensures
        predicate_holds(spec, tree, src, PredicateView::ContainsText { case_sensitive, text: v }, j)
            <==> (node_text(tree, src, j) matches Some(t) && exists|i: int| #[trigger] occurs_at(t, v, i)),
{
    if let Some(t) = node_text(tree, src, j) {
        if seq_contains(t, v) {
            let i = choose|i: int| 0 <= i && i + v.len() <= t.len() && #[trigger] t.subrange(i, i + v.len()) == v;
            assert forall|m: int| 0 <= m < v.len() implies #[trigger] t[i + m] == v[m] by {
                assert(t.subrange(i, i + v.len())[m] == t[i + m]);
            }
            assert(occurs_at(t, v, i));
        }
        if exists|i: int| #[trigger] occurs_at(t, v, i) {
            let i = choose|i: int| #[trigger] occurs_at(t, v, i);
            assert forall|m: int| 0 <= m < v.len() implies #[trigger] t.subrange(i, i + v.len())[m] == v[m] by {
                assert(t[i + m] == v[m]);
            }
            assert(t.subrange(i, i + v.len()) =~= v);
            assert(seq_contains(t, v));
        }
    }
}

/// A `matches` filter holds of a node exactly when the node has a text and
/// the regular expression, compiled by the `regex` crate, finds a match in it.
pub proof fn lemma_matches_is_regex_search<S: LanguageSpec>(
    spec: S,
    tree: SyntaxTree,
    src: Seq<char>,
    re: Seq<char>,
    j: int,
)
    ensures
        predicate_holds(spec, tree, src, PredicateView::Matches(re), j) <==> (node_text(tree, src, j) matches Some(
            t,
        ) && regex_compiles(re) && regex_finds(re, t)),
{
}

/// A node that has no text (its range does not cut the source at character
/// boundaries) passes no predicate.
pub proof fn lemma_no_text_no_predicate<S: LanguageSpec>(
    spec: S,
    tree: SyntaxTree,
    src: Seq<char>,
    p: PredicateView,
    j: int,
)
    requires
        node_text(tree, src, j) is None,
    ensures
        !predicate_holds(spec, tree, src, p, j),
{
}

/// Adding a filter to a pattern can only take matches away: every node that
/// the longer pattern matches, the shorter one matches too.
pub proof fn lemma_added_filter_only_removes<S: LanguageSpec>(
    spec: S,
    tree: SyntaxTree,
    src: Seq<char>,
    p1: PatternView,
    f: FilterView,
    k: int,
)
    requires
        0 <= k,
    ensures
        forall|i: int| #[trigger] matched_nodes(spec, tree, src, QueryView::Pattern(
            PatternView { kind: p1.kind, filters: p1.filters.push(f) },
        ), k).contains(i) ==> matched_nodes(spec, tree, src, QueryView::Pattern(p1), k).contains(i),
{
    let p2 = PatternView { kind: p1.kind, filters: p1.filters.push(f) };
    let q1 = QueryView::Pattern(p1);
    let q2 = QueryView::Pattern(p2);
    lemma_reports_exactly_the_matching_nodes(spec, tree, src, q1, k);
    lemma_reports_exactly_the_matching_nodes(spec, tree, src, q2, k);
    assert forall|i: int| #[trigger] matched_nodes(spec, tree, src, q2, k).contains(i) implies matched_nodes(
        spec,
        tree,
        src,
        q1,
        k,
    ).contains(i) by {
        let ms = matched_nodes(spec, tree, src, q2, k);
        let m2 = choose|m: int| 0 <= m < ms.len() && ms[m] == i;
        assert(0 <= ms[m2] < k);
        assert(query_holds(spec, tree, src, q2, i));
        lemma_pattern_holds_each(spec, tree, src, p1, i);
        lemma_pattern_holds_each(spec, tree, src, p2, i);
        assert forall|m: int| 0 <= m < p1.filters.len() implies #[trigger] filter_holds(
            spec,
            tree,
            src,
            p1.filters[m],
            p1.kind,
            i,
        ) by {
            assert(p2.filters[m] == p1.filters[m]);
            assert(0 <= m < p2.filters.len());
            assert(filter_holds(spec, tree, src, p2.filters[m], p2.kind, i));
        }
        assert(query_holds(spec, tree, src, q1, i));
    }
}

/// The filters of a pattern form a conjunction: two patterns of one kind with
/// the same filters, in any order and with any repeats, match the same nodes,
/// and the engine reports the same matches for them.
pub proof fn lemma_filter_order_does_not_matter<S: LanguageSpec>(
    spec: S,
    tree: SyntaxTree,
    src: Seq<char>,
    p1: PatternView,
    p2: PatternView,
    k: int,
)
    requires
        p1.kind == p2.kind,
        forall|f: FilterView| #[trigger] p1.filters.contains(f) <==> p2.filters.contains(f),
    ensures
        matches_upto(spec, tree, src, QueryView::Pattern(p1), k) == matches_upto(
            spec,
            tree,
            src,
            QueryView::Pattern(p2),
            k,
        ),
    decreases k,
{
    if k > 0 {
        lemma_filter_order_does_not_matter(spec, tree, src, p1, p2, k - 1);
        let i = k - 1;
        lemma_pattern_holds_each(spec, tree, src, p1, i);
        lemma_pattern_holds_each(spec, tree, src, p2, i);
        if forall|m: int| 0 <= m < p1.filters.len() ==> #[trigger] filter_holds(spec, tree, src, p1.filters[m], p1.kind, i) {
            assert forall|m: int| 0 <= m < p2.filters.len() implies #[trigger] filter_holds(
                spec,
                tree,
                src,
                p2.filters[m],
                p2.kind,
                i,
            ) by {
                assert(p2.filters.contains(p2.filters[m]));
                assert(p1.filters.contains(p2.filters[m]));
                let m1 = choose|m1: int| 0 <= m1 < p1.filters.len() && p1.filters[m1] == p2.filters[m];
                assert(filter_holds(spec, tree, src, p1.filters[m1], p1.kind, i));
            }
        }
        if forall|m: int| 0 <= m < p2.filters.len() ==> #[trigger] filter_holds(spec, tree, src, p2.filters[m], p2.kind, i) {
            assert forall|m: int| 0 <= m < p1.filters.len() implies #[trigger] filter_holds(
                spec,
                tree,
                src,
                p1.filters[m],
                p1.kind,
                i,
            ) by {
                assert(p1.filters.contains(p1.filters[m]));
                assert(p2.filters.contains(p1.filters[m]));
                let m2 = choose|m2: int| 0 <= m2 < p2.filters.len() && p2.filters[m2] == p1.filters[m];
                assert(filter_holds(spec, tree, src, p2.filters[m2], p2.kind, i));
            }
        }
        assert(query_holds(spec, tree, src, QueryView::Pattern(p1), i) == query_holds(
            spec,
            tree,
            src,
            QueryView::Pattern(p2),
            i,
        ));
    }
}

/// A node of a syntax tree, with the source text the tree was built from.
pub struct Context<'a> {
    pub node: usize,
    pub tree: &'a SyntaxTree,
    pub source: &'a str,
}

impl<'a> Context<'a> {
    pub open spec fn wf(&self) -> bool {
        self.tree.wf() && self.node < self.tree.nodes@.len()
    }
}

/// Runs one query, with one language's spec, over every node of a tree.
pub struct WalkingEngine<'a, 'b, S: LanguageSpec> {
    pub spec: &'a S,
    pub query: &'b Query,
}

impl<'a, 'b, S: LanguageSpec> QueryEngine<'a, 'b, S> for WalkingEngine<'a, 'b, S> {
    fn new(spec: &'a S, query: &'b Query) -> (r: Self)
        ensures
            r.spec == spec,
            r.query == query,
    {
        WalkingEngine { spec, query }
    }

    /// The nodes of `tree` that the query matches, in preorder.
    fn run(&self, tree: &SyntaxTree, source: &str) -> (r: Vec<Match>)
        ensures
            r@.map_values(|m: Match| m@) == matches_upto(*self.spec, *tree, source@, self.query@, tree.nodes@.len() as int),
    {
        let mut out: Vec<Match> = Vec::new();
        self.collect_matches(self.query, tree, source, &mut out);
        out
    }
}

impl<'a, 'b, S: LanguageSpec> WalkingEngine<'a, 'b, S> {
    /// Appends to `out` the nodes of `tree` that `query` matches, in preorder.
    #[verifier::rlimit(50)]
    fn collect_matches(&self, query: &Query, tree: &SyntaxTree, source: &str, out: &mut Vec<Match>)
        requires
            tree.wf(),
        ensures
            final(out)@.map_values(|m: Match| m@) == old(out)@.map_values(|m: Match| m@)
                + matches_upto(*self.spec, *tree, source@, query@, tree.nodes@.len() as int),
    {
        let ghost start = old(out)@.map_values(|m: Match| m@);
        let n = tree.nodes.len();
        let mut i: usize = 0;
        assert(start + matches_upto(*self.spec, *tree, source@, query@, 0) =~= start);
        while i < n
            invariant
                tree.wf(),
                n == tree.nodes@.len(),
                0 <= i <= n,
                out@.map_values(|m: Match| m@) == start + matches_upto(*self.spec, *tree, source@, query@, i as int),
            decreases n - i,
        {
            let ctx = Context { node: i, tree, source };
            let ghost before = out@.map_values(|m: Match| m@);
            let ghost mu = matches_upto(*self.spec, *tree, source@, query@, i as int);
            let holds = self.eval_query(query, &ctx);
            if holds {
                let node = &tree.nodes[i];
                let text = match text_of_byte_range(source, node.start_byte, node.end_byte) {
                    Some(t) => t,
                    None => String::new(),
                };
                let m = Match {
                    kind: node.kind.clone(),
                    start_byte: node.start_byte,
                    end_byte: node.end_byte,
                    start_row: node.start_row,
                    start_col: node.start_col,
                    text,
                };
                let ghost mv = m@;
                out.push(m);
                proof {
                    assert(mv == match_of(*tree, source@, i as int));
                    assert(matches_upto(*self.spec, *tree, source@, query@, i + 1) == mu + seq![mv]);
                    assert(out@.map_values(|m: Match| m@) =~= before + seq![mv]);
                    assert(start + (mu + seq![mv]) =~= (start + mu) + seq![mv]);
                }
            } else {
                proof {
                    assert(matches_upto(*self.spec, *tree, source@, query@, i + 1) =~= mu);
                }
            }
            i = i + 1;
        }
    }

    fn eval_query(&self, query: &Query, ctx: &Context) -> (r: bool)
        requires
            ctx.wf(),
        ensures
            r == query_holds(*self.spec, *ctx.tree, ctx.source@, query@, ctx.node as int),
    {
        match query {
            Query::Pattern(pattern) => self.matches_pattern(pattern, ctx),
        }
    }

    /// Whether some strict descendant of the context node matches `pattern`.
    fn contains_pattern(&self, pattern: &Pattern, ctx: &Context) -> (r: bool)
        requires
            ctx.wf(),
        ensures
            r == descendant_holds_from(*self.spec, *ctx.tree, ctx.source@, pattern@, ctx.node as int, ctx.node + 1),
        decreases pattern, 3int,
    {
        let end = ctx.tree.nodes[ctx.node].end;
        let mut d: usize = ctx.node + 1;
        while d < end
            invariant
                ctx.wf(),
                end == ctx.tree.nodes@[ctx.node as int].end,
                end <= ctx.tree.nodes@.len(),
                ctx.node < d <= end,
                descendant_holds_from(*self.spec, *ctx.tree, ctx.source@, pattern@, ctx.node as int, ctx.node + 1)
                    == descendant_holds_from(*self.spec, *ctx.tree, ctx.source@, pattern@, ctx.node as int, d as int),
            decreases end - d,
        {
            let child = Context { node: d, tree: ctx.tree, source: ctx.source };
            if self.matches_pattern(pattern, &child) {
                return true;
            }
            d = d + 1;
        }
        false
    }

    fn contains_text(&self, expected: &str, ctx: &Context) -> (r: bool)
        requires
            ctx.wf(),
        ensures
            r == (node_text(*ctx.tree, ctx.source@, ctx.node as int) matches Some(t) && seq_contains(t, expected@)),
    {
        match self.get_node_text(ctx) {
            None => false,
            Some(text) => str_contains(text.as_str(), expected),
        }
    }

    fn matches_pattern(&self, pattern: &Pattern, ctx: &Context) -> (r: bool)
        requires
            ctx.wf(),
        ensures
            r == pattern_holds(*self.spec, *ctx.tree, ctx.source@, pattern@, ctx.node as int),
        decreases pattern, 2int,
    {
        let node_kind = ctx.tree.nodes[ctx.node].kind.as_str();
        if !self.spec.matches_kind(&pattern.kind, node_kind) {
            return false;
        }
        let mut k: usize = 0;
        while k < pattern.filters.len()
            invariant
                ctx.wf(),
                0 <= k <= pattern.filters@.len(),
                pattern@.filters.len() == pattern.filters@.len(),
                pattern@.kind == pattern.kind,
                filters_hold_from(*self.spec, *ctx.tree, ctx.source@, pattern@, ctx.node as int, 0)
                    == filters_hold_from(*self.spec, *ctx.tree, ctx.source@, pattern@, ctx.node as int, k as int),
            decreases pattern.filters@.len() - k,
        {
            assert(pattern@.filters[k as int] == pattern.filters@[k as int]@);
            proof {
                assert(decreases_to!(pattern.filters => pattern.filters@));
            }
            if !self.matches_filter(&pattern.filters[k], &pattern.kind, ctx) {
                return false;
            }
            k = k + 1;
        }
        true
    }

    fn matches_filter(&self, filter: &Filter, kind: &Kind, ctx: &Context) -> (r: bool)
        requires
            ctx.wf(),
        ensures
            r == filter_holds(*self.spec, *ctx.tree, ctx.source@, filter@, *kind, ctx.node as int),
        decreases filter, 2int,
    {
        let target = match self.get_field_node(ctx.tree, ctx.node, kind, &filter.field) {
            None => return false,
            Some(j) => j,
        };
        let sub = Context { node: target, tree: ctx.tree, source: ctx.source };
        self.matches_predicate(&filter.predicate, &sub)
    }

    fn matches_regex(&self, regex: &str, ctx: &Context) -> (r: bool)
        requires
            ctx.wf(),
        ensures
            r == (node_text(*ctx.tree, ctx.source@, ctx.node as int) matches Some(t)
                && regex_compiles(regex@) && regex_finds(regex@, t)),
    {
        match self.get_node_text(ctx) {
            None => false,
            Some(text) => match regex_is_match(regex, text.as_str()) {
                Some(b) => b,
                None => false,
            },
        }
    }

    fn matches_predicate(&self, predicate: &Predicate, ctx: &Context) -> (r: bool)
        requires
            ctx.wf(),
        ensures
            r == predicate_holds(*self.spec, *ctx.tree, ctx.source@, predicate@, ctx.node as int),
        decreases predicate, 2int,
    {
        let text = match self.get_node_text(ctx) {
            None => return false,
            Some(t) => t,
        };
        match predicate {
            Predicate::Eq(value) => text == *value,
            Predicate::ContainsText(value) => self.contains_text(value.text.as_str(), ctx),
            Predicate::ContainsPattern(pattern) => self.contains_pattern(pattern, ctx),
            Predicate::Matches(regex) => self.matches_regex(regex.as_str(), ctx),
        }
    }

    /// The node that a filter on `field` of a `kind` node looks at: the node
    /// itself, or its child under the first of the field's names that it has.
    fn get_field_node(&self, tree: &SyntaxTree, node: usize, kind: &Kind, field: &Field) -> (r: Option<usize>)
        requires
            tree.wf(),
            node < tree.nodes@.len(),
        ensures
            r matches Some(j) ==> field_node(*self.spec, *tree, node as int, *kind, *field) == Some(j as int),
            r is None ==> field_node(*self.spec, *tree, node as int, *kind, *field) is None,
            r matches Some(j) ==> j < tree.nodes@.len(),
    {
        if matches!(field, Field::Self_) {
            return Some(node);
        }
        let names = self.spec.field_names(kind, field);
        let ghost nv = names_view(names@);
        let mut k: usize = 0;
        while k < names.len()
            invariant
                tree.wf(),
                node < tree.nodes@.len(),
                nv == names_view(names@),
                nv == self.spec.field_name_list(*kind, *field),
                *field != Field::Self_,
                0 <= k <= names@.len(),
                field_node(*self.spec, *tree, node as int, *kind, *field) == first_field_child(*tree, node as int, nv, k as int),
            decreases names@.len() - k,
        {
            assert(nv[k as int] == names@[k as int]@);
            match child_by_field_name(tree, node, names[k]) {
                Some(child) => {
                    proof {
                        lemma_field_child_in_tree(*tree, node as int, names@[k as int]@, node + 1);
                    }
                    return Some(child);
                },
                None => {},
            }
            k = k + 1;
        }
        None
    }

    fn get_node_text(&self, ctx: &Context) -> (r: Option<String>)
        requires
            ctx.wf(),
        ensures
            r matches Some(t) ==> node_text(*ctx.tree, ctx.source@, ctx.node as int) == Some(t@),
            r is None ==> node_text(*ctx.tree, ctx.source@, ctx.node as int) is None,
    {
        let node = &ctx.tree.nodes[ctx.node];
        text_of_byte_range(ctx.source, node.start_byte, node.end_byte)
    }
}

proof fn lemma_field_child_in_tree(tree: SyntaxTree, i: int, name: Seq<char>, j: int)
    ensures
        tree.field_child_from(i, name, j) matches Some(c) ==> 0 <= c < tree.nodes@.len(),
    decreases tree.nodes@.len() - j,
{
    if 0 <= j < tree.nodes@.len() && !tree.is_field_child(i, j, name) {
        lemma_field_child_in_tree(tree, i, name, j + 1);
    }
}

} // verus!
