//! Syntax trees, as the query engine reads them.
//!
//! A [`SyntaxTree`] lists the nodes of a tree in preorder. Node `i` carries
//! the index of its parent, the field name under which it hangs from that
//! parent, and `end`, one past the index of its last descendant: the
//! descendants of `i` are the nodes `i + 1 .. end`.
//!
//! [`syntax_tree_of`] reads a tree that `tree_sitter` built into this form.
use vstd::prelude::*;
use crate::parser::parser_pool::{parsed_nodes, ts_parse, LangParser};

verus! {

/// One node of a syntax tree.
pub struct SyntaxNode {
    /// The grammar's name for the node's kind.
    pub kind: String,
    /// The field name under which the node hangs from its parent, if any.
    pub field: Option<String>,
    /// The index of the parent node; `None` for the root.
    pub parent: Option<usize>,
    /// One past the index of the node's last descendant.
    pub end: usize,
    pub start_byte: usize,
    pub end_byte: usize,
    pub start_row: usize,
    pub start_col: usize,
}

/// A syntax tree, its nodes in preorder; the root is node 0.
pub struct SyntaxTree {
    pub nodes: Vec<SyntaxNode>,
}

impl SyntaxTree {
    /// Parents come before their children, and each node's descendants form
    /// a block inside its parent's block.
    pub open spec fn wf(&self) -> bool {
        forall|i: int|
            0 <= i < self.nodes@.len() ==> {
                let n = #[trigger] self.nodes@[i];
                &&& i < n.end <= self.nodes@.len()
                &&& (i == 0) == (n.parent is None)
                &&& n.parent matches Some(p) ==> p < i && i < self.nodes@[p as int].end && n.end
                    <= self.nodes@[p as int].end
            }
    }

    pub open spec fn len(&self) -> int {
        self.nodes@.len() as int
    }

    /// `j` is a child of `i`.
    pub open spec fn is_child(&self, i: int, j: int) -> bool {
        0 <= j < self.nodes@.len() && (self.nodes@[j].parent matches Some(p) && p == i)
    }

    /// `j` is a child of `i` that hangs under the field `name`.
    pub open spec fn is_field_child(&self, i: int, j: int, name: Seq<char>) -> bool {
        self.is_child(i, j) && (self.nodes@[j].field matches Some(f) && f@ == name)
    }

    /// The first child of `i` under the field `name`, looking from node `j` on.
    pub open spec fn field_child_from(&self, i: int, name: Seq<char>, j: int) -> Option<int>
        decreases self.nodes@.len() - j,
    {
        if j < 0 || j >= self.nodes@.len() {
            None
        } else if self.is_field_child(i, j, name) {
            Some(j)
        } else {
            self.field_child_from(i, name, j + 1)
        }
    }

    /// The first child of `i` under the field `name`.
    pub open spec fn child_by_field_name(&self, i: int, name: Seq<char>) -> Option<int> {
        self.field_child_from(i, name, i + 1)
    }
}

/// A field lookup finds the first child of `i` that hangs under the field,
/// and finds nothing only when no child of `i` does.
pub proof fn lemma_child_by_field_name(tree: SyntaxTree, i: int, name: Seq<char>)
    requires
        tree.wf(),
        0 <= i < tree.nodes@.len(),
    ensures
        tree.child_by_field_name(i, name) matches Some(c) ==> tree.is_field_child(i, c, name)
            && forall|j: int| 0 <= j < c ==> !#[trigger] tree.is_field_child(i, j, name),
        tree.child_by_field_name(i, name) is None ==> forall|j: int|
            !#[trigger] tree.is_field_child(i, j, name),
{
    lemma_field_child_from(tree, i, name, i + 1);
    assert forall|j: int| 0 <= j <= i implies !#[trigger] tree.is_field_child(i, j, name) by {
        let n = tree.nodes@[j];
        assert(n.parent matches Some(p) ==> p < j);
    }
}

proof fn lemma_field_child_from(tree: SyntaxTree, i: int, name: Seq<char>, j: int)
    requires
        0 <= j,
    ensures
        tree.field_child_from(i, name, j) matches Some(c) ==> j <= c && tree.is_field_child(i, c, name)
            && forall|k: int| j <= k < c ==> !#[trigger] tree.is_field_child(i, k, name),
        tree.field_child_from(i, name, j) is None ==> forall|k: int|
            j <= k ==> !#[trigger] tree.is_field_child(i, k, name),
    decreases tree.nodes@.len() - j,
{
    if j < tree.nodes@.len() && !tree.is_field_child(i, j, name) {
        lemma_field_child_from(tree, i, name, j + 1);
    }
}

/// The first child of node `i` under the field `name`.
pub fn child_by_field_name(tree: &SyntaxTree, i: usize, name: &str) -> (r: Option<usize>)
    requires
        tree.wf(),
        i < tree.nodes@.len(),
    ensures
        r matches Some(j) ==> tree.child_by_field_name(i as int, name@) == Some(j as int),
        r is None ==> tree.child_by_field_name(i as int, name@) is None,
{
    let n = tree.nodes.len();
    let mut j: usize = i + 1;
    while j < n
        invariant
            n == tree.nodes@.len(),
            i < j <= n,
            tree.child_by_field_name(i as int, name@) == tree.field_child_from(i as int, name@, j as int),
        decreases n - j,
    {
        let node = &tree.nodes[j];
        let hit = match &node.parent {
            Some(p) => *p == i && match &node.field {
                Some(f) => crate::text::str_eq(f.as_str(), name),
                None => false,
            },
            None => false,
        };
        if hit {
            return Some(j);
        }
        j = j + 1;
    }
    None
}


#[verifier::external_type_specification]
#[verifier::external_body]
pub struct ExTree(tree_sitter::Tree);

/// What `tree_sitter` shows of one node of a tree.
pub struct NodeInfo {
    pub kind: String,
    pub field: Option<String>,
    pub start_byte: usize,
    pub end_byte: usize,
    pub start_row: usize,
    pub start_col: usize,
    /// The number of nodes in the node's subtree, the node itself included.
    pub descendants: usize,
}

/// The nodes that `tree` holds, in the preorder in which a
/// `tree_sitter::TreeCursor` numbers them (`goto_descendant`): the root first,
/// then the subtree of each child, left to right, named and anonymous nodes
/// alike. Each is given by its kind, the field under which it hangs from its
/// parent, its byte range, its start row and column, and its
/// `descendant_count`.
pub uninterp spec fn tree_nodes(tree: tree_sitter::Tree) -> Seq<NodeInfo>;

/// `tree_sitter::Node::descendant_count` of the root of `tree`: the number of
/// nodes of the tree, the root included (so at least one).
#[verifier::external_body]
fn ts_node_count(tree: &tree_sitter::Tree) -> (r: usize)
    ensures
        r == tree_nodes(*tree).len(),
        r >= 1,
{
    tree.root_node().descendant_count()
}

/// `info` is node `j` of `nodes`, and its subtree nests among them.
pub open spec fn info_at(info: NodeInfo, nodes: Seq<NodeInfo>, j: int) -> bool {
    info == nodes[j] && node_nests(nodes, j)
}

/// The node of `tree` numbered `index` in preorder: a cursor made by
/// `tree_sitter::Tree::walk` is moved there with `goto_descendant`, and its
/// `node` and `field_name` are read out as plain values (kind, field, range,
/// start position, `descendant_count`). In `tree_sitter`'s source
/// (`ts_node_descendant_count`, `ts_tree_cursor_goto_descendant`) a node's
/// count and the cursor's numbering come from the same counts of visible
/// subtrees, so the subtree of the node numbered `j` is numbered
/// `j .. j + count`: the node's subtree nests in those that hold it, and every
/// node but the root lies in the root's.
#[verifier::external_body]
fn ts_node_at(tree: &tree_sitter::Tree, index: usize) -> (r: NodeInfo)
    requires
        index < tree_nodes(*tree).len(),
    ensures
        info_at(r, tree_nodes(*tree), index as int),
{
    let mut cursor = tree.walk();
    cursor.goto_descendant(index);
    let node = cursor.node();
    let field = match cursor.field_name() {
        Some(f) => Some(f.to_string()),
        None => None,
    };
    let (kind, start) = (node.kind().to_string(), node.start_position());
    NodeInfo {
        kind, field, start_byte: node.start_byte(), end_byte: node.end_byte(),
        start_row: start.row, start_col: start.column, descendants: node.descendant_count(),
    }
}

/// Node `k` comes before node `j` and its block holds `j`.
pub open spec fn encloses(nodes: Seq<SyntaxNode>, k: int, j: int) -> bool {
    0 <= k < j && j < nodes[k].end
}

/// The parent of node `j` is the nearest earlier node whose block holds `j`;
/// a node that no block holds has none.
pub open spec fn parent_is_nearest(nodes: Seq<SyntaxNode>, j: int) -> bool {
    match nodes[j].parent {
        Some(p) => encloses(nodes, p as int, j) && forall|k: int| p < k < j ==> !#[trigger] encloses(nodes, k, j),
        None => forall|k: int| !#[trigger] encloses(nodes, k, j),
    }
}

proof fn lemma_nearest_prefix(a: Seq<SyntaxNode>, b: Seq<SyntaxNode>, j: int)
    requires
        0 <= j < a.len(),
        j < b.len(),
        forall|k: int| 0 <= k <= j ==> a[k] == b[k],
    ensures
        parent_is_nearest(a, j) == parent_is_nearest(b, j),
{
    assert forall|k: int| encloses(a, k, j) == encloses(b, k, j) by {
        if 0 <= k < j {
            assert(a[k] == b[k]);
        }
    }
}

/// The nodes read so far form a well-formed prefix of a tree of `count` nodes,
/// each with its nearest enclosing node as parent.
#[verifier::opaque]
spec fn built_ok(nodes: Seq<SyntaxNode>, count: int) -> bool {
    &&& forall|k: int|
        0 <= k < nodes.len() ==> {
            let n = #[trigger] nodes[k];
            &&& k < n.end <= count
            &&& (k == 0) == (n.parent is None)
            &&& n.parent matches Some(p) ==> p < k && k < nodes[p as int].end && n.end <= nodes[p as int].end
        }
    &&& forall|j: int| 0 <= j < nodes.len() ==> #[trigger] parent_is_nearest(nodes, j)
}

/// `open` lists, outermost first, the nodes before `i` whose block reaches
/// `bound` (`i` itself before popping, one past it after).
#[verifier::opaque]
spec fn open_ok(nodes: Seq<SyntaxNode>, open: Seq<usize>, i: int, bound: int) -> bool {
    &&& forall|m: int| 0 <= m < open.len() ==> #[trigger] open[m] < i
    &&& forall|a: int, b: int| 0 <= a < b < open.len() ==> #[trigger] open[a] < #[trigger] open[b]
        && nodes[open[a] as int].end >= nodes[open[b] as int].end
    &&& forall|k: int| 0 <= k < i ==> (open.contains(k as usize) <==> #[trigger] nodes[k].end >= bound)
}

proof fn lemma_pops(nodes: Seq<SyntaxNode>, open0: Seq<usize>, open: Seq<usize>, i: int)
    requires
        nodes.len() == i,
        open_ok(nodes, open0, i, i),
        open.len() <= open0.len(),
        open == open0.subrange(0, open.len() as int),
        forall|m: int| open.len() <= m < open0.len() ==> nodes[#[trigger] open0[m] as int].end <= i,
        open.len() == 0 || nodes[open[open.len() - 1] as int].end > i,
    ensures
        open_ok(nodes, open, i, i + 1),
{
    reveal(open_ok);
    assert forall|k: int| 0 <= k < i implies (open.contains(k as usize) <==> #[trigger] nodes[k].end >= i + 1) by {
        if open.contains(k as usize) {
            let m = choose|m: int| 0 <= m < open.len() && open[m] == k as usize;
            let top = open.len() - 1;
            assert(open0[m] == open[m] && open0[top] == open[top]);
            if m < top {
                assert(open0[m] < open0[top]);
            }
        }
        if nodes[k].end > i {
            assert(open0.contains(k as usize));
            let m = choose|m: int| 0 <= m < open0.len() && open0[m] == k as usize;
            if m >= open.len() {
                assert(nodes[open0[m] as int].end <= i);
            }
            assert(open[m] == k as usize);
        }
    }
    assert forall|a: int, b: int| 0 <= a < b < open.len() implies #[trigger] open[a] < #[trigger] open[b]
        && nodes[open[a] as int].end >= nodes[open[b] as int].end by {
        assert(open0[a] == open[a] && open0[b] == open[b]);
    }
    assert forall|m: int| 0 <= m < open.len() implies #[trigger] open[m] < i by {
        assert(open0[m] == open[m]);
    }
}

/// The innermost open node is the nearest enclosing node of `i`; with none
/// open, no node encloses `i`.
proof fn lemma_nearest(nodes: Seq<SyntaxNode>, open: Seq<usize>, i: int)
    requires
        nodes.len() == i,
        open_ok(nodes, open, i, i + 1),
    ensures
        open.len() > 0 ==> {
            let p = open[open.len() - 1] as int;
            &&& encloses(nodes, p, i)
            &&& forall|k: int| p < k < i ==> !#[trigger] encloses(nodes, k, i)
        },
        open.len() == 0 ==> forall|k: int| !#[trigger] encloses(nodes, k, i),
{
    reveal(open_ok);
    if open.len() > 0 {
        let top = open.len() - 1;
        let p = open[top] as int;
        assert(open.contains(open[top]));
        assert forall|k: int| p < k < i implies !#[trigger] encloses(nodes, k, i) by {
            if nodes[k].end > i {
                assert(open.contains(k as usize));
                let m = choose|m: int| 0 <= m < open.len() && open[m] == k as usize;
                if m < top {
                    assert(open[m] < open[top]);
                }
            }
        }
    } else {
        assert forall|k: int| !#[trigger] encloses(nodes, k, i) by {
            if 0 <= k < i && nodes[k].end > i {
                assert(open.contains(k as usize));
            }
        }
    }
}

proof fn lemma_push(before: Seq<SyntaxNode>, n: SyntaxNode, open: Seq<usize>, i: int, count: int)
    requires
        before.len() == i,
        0 <= i,
        built_ok(before, count),
        open_ok(before, open, i, i + 1),
        i < n.end <= count,
        (i == 0) == (n.parent is None),
        open.len() > 0 ==> n.parent == Some(open[open.len() - 1]),
        open.len() == 0 ==> n.parent is None,
        n.parent matches Some(p) ==> n.end <= before[p as int].end,
    ensures
        built_ok(before.push(n), count),
        open_ok(before.push(n), open.push(i as usize), i + 1, i + 1),
{
    lemma_push_built(before, n, open, i, count);
    lemma_push_open(before, n, open, i);
}

proof fn lemma_push_built(before: Seq<SyntaxNode>, n: SyntaxNode, open: Seq<usize>, i: int, count: int)
    requires
        before.len() == i,
        0 <= i,
        built_ok(before, count),
        open_ok(before, open, i, i + 1),
        i < n.end <= count,
        (i == 0) == (n.parent is None),
        open.len() > 0 ==> n.parent == Some(open[open.len() - 1]),
        open.len() == 0 ==> n.parent is None,
        n.parent matches Some(p) ==> n.end <= before[p as int].end,
    ensures
        built_ok(before.push(n), count),
{
    reveal(built_ok);
    lemma_nearest(before, open, i);
    let nodes = before.push(n);
    assert forall|k: int| 0 <= k < i + 1 implies {
        let m = #[trigger] nodes[k];
        &&& k < m.end <= count
        &&& (k == 0) == (m.parent is None)
        &&& m.parent matches Some(p) ==> p < k && k < nodes[p as int].end && m.end <= nodes[p as int].end
    } by {
        if k < i {
            assert(nodes[k] == before[k]);
        }
        if let Some(p) = nodes[k].parent {
            assert(nodes[p as int] == before[p as int]);
        }
    }
    assert forall|j: int| 0 <= j < i + 1 implies #[trigger] parent_is_nearest(nodes, j) by {
        if j < i {
            lemma_nearest_prefix(nodes, before, j);
        } else {
            assert forall|k: int| encloses(nodes, k, j) == encloses(before, k, j) by {
                if 0 <= k < j {
                    assert(nodes[k] == before[k]);
                }
            }
        }
    }
}

proof fn lemma_push_open(before: Seq<SyntaxNode>, n: SyntaxNode, open: Seq<usize>, i: int)
    requires
        before.len() == i,
        0 <= i,
        open_ok(before, open, i, i + 1),
        i < n.end,
        open.len() > 0 ==> n.end <= before[open[open.len() - 1] as int].end,
    ensures
        open_ok(before.push(n), open.push(i as usize), i + 1, i + 1),
{
    reveal(open_ok);
    let nodes = before.push(n);
    let open2 = open.push(i as usize);
    assert forall|k: int| 0 <= k < i + 1 implies (open2.contains(k as usize) <==> #[trigger] nodes[k].end >= i + 1) by {
        if k < i {
            assert(nodes[k] == before[k]);
            if open.contains(k as usize) {
                let m = choose|m: int| 0 <= m < open.len() && open[m] == k as usize;
                assert(open2[m] == k as usize);
            }
            if open2.contains(k as usize) {
                let m = choose|m: int| 0 <= m < open2.len() && open2[m] == k as usize;
                if m < open.len() {
                    assert(open[m] == k as usize);
                }
            }
        } else {
            assert(open2[open.len() as int] == i);
        }
    }
    assert forall|a: int, b: int| 0 <= a < b < open2.len() implies #[trigger] open2[a] < #[trigger] open2[b]
        && nodes[open2[a] as int].end >= nodes[open2[b] as int].end by {
        assert(open2[a] == open[a]);
        assert(nodes[open2[a] as int] == before[open2[a] as int]);
        if b < open.len() {
            assert(open2[b] == open[b]);
            assert(nodes[open2[b] as int] == before[open2[b] as int]);
        } else {
            let top = open.len() - 1;
            if a < top {
                assert(open[a] < open[top]);
            }
        }
    }
    assert forall|m: int| 0 <= m < open2.len() implies #[trigger] open2[m] < i + 1 by {
        if m < open.len() {
            assert(open2[m] == open[m]);
        }
    }
}

/// Node `k` comes before node `j` and the subtree that `infos` gives it
/// holds `j`.
pub open spec fn info_encloses(infos: Seq<NodeInfo>, k: int, j: int) -> bool {
    0 <= k < j && j < k + infos[k].descendants
}

/// The subtree of node `j` is not empty, ends inside the list, lies inside
/// the subtree of every node that holds it, and only the first node is held
/// by none.
pub open spec fn node_nests(infos: Seq<NodeInfo>, j: int) -> bool {
    &&& 1 <= infos[j].descendants
    &&& j + infos[j].descendants <= infos.len()
    &&& j > 0 ==> exists|k: int| #[trigger] info_encloses(infos, k, j)
    &&& forall|k: int| #[trigger] info_encloses(infos, k, j)
        ==> j + infos[j].descendants <= k + infos[k].descendants
}

/// The subtree sizes of `infos`, read in preorder, describe a tree.
pub open spec fn sizes_nest(infos: Seq<NodeInfo>) -> bool {
    &&& infos.len() > 0
    &&& forall|j: int| 0 <= j < infos.len() ==> #[trigger] node_nests(infos, j)
}

/// Node `n`, at index `j`, shows what `info` says of it: kind, field, range,
/// start position, and the end of its subtree.
pub open spec fn node_matches_info(n: SyntaxNode, info: NodeInfo, j: int) -> bool {
    &&& n.kind == info.kind
    &&& n.field == info.field
    &&& n.start_byte == info.start_byte
    &&& n.end_byte == info.end_byte
    &&& n.start_row == info.start_row
    &&& n.start_col == info.start_col
    &&& n.end == j + info.descendants
}

/// `t` is the well-formed tree whose nodes, in order, show what `infos`
/// says of them, each with its nearest enclosing node as parent.
pub open spec fn built_from(t: SyntaxTree, infos: Seq<NodeInfo>) -> bool {
    &&& t.wf()
    &&& t.nodes@.len() == infos.len()
    &&& forall|j: int| 0 <= j < t.nodes@.len() ==> #[trigger] node_matches_info(t.nodes@[j], infos[j], j)
    &&& forall|j: int| 0 <= j < t.nodes@.len() ==> #[trigger] parent_is_nearest(t.nodes@, j)
}

proof fn lemma_encloses_agree(nodes: Seq<SyntaxNode>, infos: Seq<NodeInfo>, i: int)
    requires
        nodes.len() == i,
        i < infos.len(),
        forall|k: int| 0 <= k < i ==> #[trigger] nodes[k].end == k + infos[k].descendants,
    ensures
        forall|k: int| #[trigger] encloses(nodes, k, i) == info_encloses(infos, k, i),
{
    assert forall|k: int| #[trigger] encloses(nodes, k, i) == info_encloses(infos, k, i) by {
        if 0 <= k < i {
            assert(nodes[k].end == k + infos[k].descendants);
        }
    }
}

/// A node that lies inside the subtree of its nearest enclosing node lies
/// inside those of all enclosing nodes, when the earlier nodes nest.
proof fn lemma_nests_in_all(infos: Seq<NodeInfo>, i: int, p: int)
    requires
        forall|k: int| 0 <= k < i ==> #[trigger] node_nests(infos, k),
        info_encloses(infos, p, i),
        forall|k: int| p < k < i ==> !#[trigger] info_encloses(infos, k, i),
        i + infos[i].descendants <= p + infos[p].descendants,
    ensures
        forall|k: int| #[trigger] info_encloses(infos, k, i)
            ==> i + infos[i].descendants <= k + infos[k].descendants,
{
    assert forall|k: int| #[trigger] info_encloses(infos, k, i)
        implies i + infos[i].descendants <= k + infos[k].descendants by {
        if k < p {
            assert(node_nests(infos, p));
            assert(info_encloses(infos, k, p));
        }
    }
}

/// Builds the [`SyntaxTree`] whose nodes, in preorder, are described by
/// `infos`: node `j` takes the kind, field, range and start position of
/// `infos[j]`, its subtree ends at `j + infos[j].descendants`, and its parent
/// is the nearest earlier node whose subtree holds it. `None` exactly when the
/// subtree sizes do not describe a tree.
pub fn syntax_tree_from_nodes(infos: &Vec<NodeInfo>) -> (r: Option<SyntaxTree>)
    ensures
        r is Some <==> sizes_nest(infos@),
        r matches Some(t) ==> built_from(t, infos@),
{
    let count = infos.len();
    if count == 0 {
        return None;
    }
    let mut nodes: Vec<SyntaxNode> = Vec::new();
    // The nodes whose subtree may still hold the next node, outermost first.
    let mut open: Vec<usize> = Vec::new();
    let mut i: usize = 0;
    proof {
        reveal(built_ok);
        reveal(open_ok);
    }
    while i < count
        invariant
            count == infos@.len(),
            nodes@.len() == i,
            i <= count,
            built_ok(nodes@, count as int),
            open_ok(nodes@, open@, i as int, i as int),
            forall|k: int| 0 <= k < i ==> #[trigger] node_matches_info(nodes@[k], infos@[k], k),
            forall|k: int| 0 <= k < i ==> #[trigger] node_nests(infos@, k),
        decreases count - i,
    {
        let info = &infos[i];
        let ghost open0 = open@;
        proof {
            reveal(open_ok);
        }
        while open.len() > 0 && nodes[open[open.len() - 1]].end <= i
            invariant
                nodes@.len() == i,
                open@.len() <= open0.len(),
                open@ == open0.subrange(0, open@.len() as int),
                forall|m: int| open@.len() <= m < open0.len() ==> nodes@[#[trigger] open0[m] as int].end <= i,
                forall|m: int| 0 <= m < open0.len() ==> #[trigger] open0[m] < i,
            decreases open@.len(),
        {
            open.pop();
        }
        proof {
            lemma_pops(nodes@, open0, open@, i as int);
            lemma_nearest(nodes@, open@, i as int);
            assert forall|k: int| 0 <= k < i implies #[trigger] nodes@[k].end == k + infos@[k].descendants by {
                assert(node_matches_info(nodes@[k], infos@[k], k));
            }
            lemma_encloses_agree(nodes@, infos@, i as int);
        }
        if info.descendants == 0 || info.descendants > count - i {
            proof {
                assert(!node_nests(infos@, i as int));
            }
            return None;
        }
        let end = i + info.descendants;
        let parent = if open.len() > 0 {
            let p = open[open.len() - 1];
            proof {
                reveal(open_ok);
                assert(open@[open@.len() - 1] < i);
                assert(encloses(nodes@, p as int, i as int));
                assert(info_encloses(infos@, p as int, i as int));
            }
            if nodes[p].end < end {
                proof {
                    assert(nodes@[p as int].end == p + infos@[p as int].descendants);
                    assert(!node_nests(infos@, i as int));
                }
                return None;
            }
            proof {
                assert(nodes@[p as int].end == p + infos@[p as int].descendants);
                assert forall|k: int| p < k < i implies !#[trigger] info_encloses(infos@, k, i as int) by {
                    assert(!encloses(nodes@, k, i as int));
                }
                lemma_nests_in_all(infos@, i as int, p as int);
            }
            Some(p)
        } else {
            proof {
                assert forall|k: int| !#[trigger] info_encloses(infos@, k, i as int) by {
                    assert(!encloses(nodes@, k, i as int));
                }
            }
            None
        };
        if (i == 0) != parent.is_none() {
            proof {
                assert(!node_nests(infos@, i as int));
            }
            return None;
        }
        proof {
            assert(node_nests(infos@, i as int));
        }
        let field = match &info.field {
            Some(f) => Some(f.clone()),
            None => None,
        };
        let node = SyntaxNode {
            kind: info.kind.clone(),
            field,
            parent,
            end,
            start_byte: info.start_byte,
            end_byte: info.end_byte,
            start_row: info.start_row,
            start_col: info.start_col,
        };
        proof {
            lemma_push(nodes@, node, open@, i as int, count as int);
        }
        let ghost before = nodes@;
        nodes.push(node);
        open.push(i);
        proof {
            assert forall|k: int| 0 <= k < i + 1 implies #[trigger] node_matches_info(nodes@[k], infos@[k], k) by {
                if k < i {
                    assert(nodes@[k] == before[k]);
                }
            }
        }
        i = i + 1;
    }
    proof {
        reveal(built_ok);
    }
    let t = SyntaxTree { nodes };
    Some(t)
}

/// The syntax tree of `tree`: its nodes in preorder, each with the kind,
/// field, range and start position that `tree_sitter` gives it, its subtree
/// as `tree_sitter` counts it, and its nearest enclosing node as parent.
pub fn syntax_tree_of(tree: &tree_sitter::Tree) -> (r: Option<SyntaxTree>)
    ensures
        r matches Some(t) && built_from(t, tree_nodes(*tree)),
{
    let count = ts_node_count(tree);
    let mut infos: Vec<NodeInfo> = Vec::new();
    let mut i: usize = 0;
    while i < count
        invariant
            count == tree_nodes(*tree).len(),
            i <= count,
            infos@ == tree_nodes(*tree).subrange(0, i as int),
            forall|k: int| 0 <= k < i ==> #[trigger] node_nests(tree_nodes(*tree), k),
        decreases count - i,
    {
        let info = ts_node_at(tree, i);
        infos.push(info);
        i = i + 1;
        assert(infos@ =~= tree_nodes(*tree).subrange(0, i as int));
    }
    assert(infos@ =~= tree_nodes(*tree));
    assert(sizes_nest(infos@));
    syntax_tree_from_nodes(&infos)
}

/// Parses `source` with `parser` and reads the tree it builds (see
/// [`syntax_tree_of`]): the syntax tree of `source` in the grammar the parser
/// was set up with; `None` when the parser has no grammar.
pub fn parse_syntax_tree(parser: &mut LangParser, source: &str) -> (r: Option<SyntaxTree>)
    ensures
        final(parser).lang() == old(parser).lang(),
        match old(parser).lang() {
            Some(l) => r matches Some(t) && built_from(t, parsed_nodes(l, source@)),
            None => r is None,
        },
{
    match ts_parse(parser, source) {
        Some(tree) => syntax_tree_of(&tree),
        None => None,
    }
}

} // verus!
