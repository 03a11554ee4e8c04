use std::collections::VecDeque;
use vstd::multiset::Multiset;
use vstd::prelude::*;

verus! {

/// A namespaced attribute of an element: an empty `ns` is "no namespace".
pub struct Attribute {
    pub ns: String,
    pub local: String,
    pub value: String,
}

/// What a node of a document holds.
pub enum NodeData {
    Element { ns: String, local: String, attrs: Vec<Attribute> },
    Text { contents: String },
    Other,
}

/// A node of a parsed document with its ordered children.
pub struct Node {
    pub data: NodeData,
    pub children: Vec<Node>,
}

/// Number of nodes in the subtree rooted at `n`.
pub open spec fn size(n: Node) -> nat
    decreases n, 1nat,
{
    1 + forest_size(n.children@, n.children@.len() as int)
}

/// Number of nodes in the subtrees of `f[0..i]`.
pub open spec fn forest_size(f: Seq<Node>, i: int) -> nat
    decreases f, 0nat, i,
{
    if i <= 0 || i > f.len() {
        0
    } else {
        forest_size(f, i - 1) + size(f[i - 1])
    }
}

/// The nodes of the subtree rooted at `n`, each once, in document order.
pub open spec fn subtree_nodes(n: Node) -> Seq<Node>
    decreases n, 1nat,
{
    seq![n] + forest_nodes(n.children@, n.children@.len() as int)
}

/// The nodes of the subtrees of `f[0..i]`, in document order.
pub open spec fn forest_nodes(f: Seq<Node>, i: int) -> Seq<Node>
    decreases f, 0nat, i,
{
    if i <= 0 || i > f.len() {
        Seq::empty()
    } else {
        forest_nodes(f, i - 1) + subtree_nodes(f[i - 1])
    }
}

/// The nodes of all the subtrees of the forest `f`.
pub open spec fn all_nodes(f: Seq<Node>) -> Seq<Node> {
    forest_nodes(f, f.len() as int)
}

proof fn lemma_forest_nodes_prefix(a: Seq<Node>, b: Seq<Node>, i: int)
    requires
        0 <= i <= a.len(),
    ensures
        forest_nodes(a + b, i) == forest_nodes(a, i),
    decreases i,
{
    if i > 0 {
        lemma_forest_nodes_prefix(a, b, i - 1);
        assert((a + b)[i - 1] == a[i - 1]);
    }
}

proof fn lemma_forest_nodes_concat(a: Seq<Node>, b: Seq<Node>, j: int)
    requires
        0 <= j <= b.len(),
    ensures
        forest_nodes(a + b, a.len() + j) == all_nodes(a) + forest_nodes(b, j),
    decreases j,
{
    if j == 0 {
        lemma_forest_nodes_prefix(a, b, a.len() as int);
        assert(all_nodes(a) + forest_nodes(b, 0) =~= all_nodes(a));
    } else {
        lemma_forest_nodes_concat(a, b, j - 1);
        assert((a + b)[a.len() + j - 1] == b[j - 1]);
        assert(all_nodes(a) + forest_nodes(b, j - 1) + subtree_nodes(b[j - 1]) =~= all_nodes(a) + (
        forest_nodes(b, j - 1) + subtree_nodes(b[j - 1])));
    }
}

proof fn lemma_singleton_multiset(x: Node)
    ensures
        seq![x].to_multiset() == Multiset::empty().insert(x),
{
    vstd::seq_lib::to_multiset_len(Seq::<Node>::empty());
    vstd::multiset::lemma_multiset_empty_len(Seq::<Node>::empty().to_multiset());
    vstd::seq_lib::to_multiset_build(Seq::<Node>::empty(), x);
    assert(seq![x] =~= Seq::<Node>::empty().push(x));
}

/// Taking the first tree off a forest and putting its children at the end
/// keeps every node but the first tree's root.
proof fn lemma_all_nodes_step(q: Seq<Node>)
    requires
        q.len() > 0,
    ensures
        all_nodes(q).to_multiset() == all_nodes(q.drop_first() + q[0].children@).to_multiset().insert(
            q[0],
        ),
{
    broadcast use vstd::seq_lib::lemma_multiset_commutative;

    let rest = q.drop_first();
    let ch = q[0].children@;
    assert(q =~= seq![q[0]] + rest);
    lemma_forest_nodes_concat(seq![q[0]], rest, rest.len() as int);
    lemma_forest_nodes_concat(rest, ch, ch.len() as int);
    assert(forest_nodes(seq![q[0]], 0) == Seq::<Node>::empty());
    assert(all_nodes(seq![q[0]]) =~= subtree_nodes(q[0]));
    let a = all_nodes(rest);
    let b = all_nodes(ch);
    assert(subtree_nodes(q[0]) == seq![q[0]] + b);
    assert(all_nodes(q) == seq![q[0]] + b + a);
    assert(all_nodes(rest + ch) == a + b);
    lemma_singleton_multiset(q[0]);
    assert(all_nodes(q).to_multiset() =~= (a + b).to_multiset().insert(q[0]));
}

/// Breadth-first traversal from a work queue yields each node of the queued
/// subtrees exactly once.
pub proof fn lemma_bfs_from_each_once(q: Seq<Node>)
    ensures
        bfs_from(q).to_multiset() == all_nodes(q).to_multiset(),
    decreases total_size(q),
{
    broadcast use vstd::seq_lib::lemma_multiset_commutative;

    if q.len() == 0 {
        assert(bfs_from(q) =~= Seq::<Node>::empty());
        assert(all_nodes(q) =~= Seq::<Node>::empty());
    } else {
        let next = q.drop_first() + q[0].children@;
        lemma_total_size_step(q);
        lemma_bfs_from_each_once(next);
        lemma_all_nodes_step(q);
        lemma_singleton_multiset(q[0]);
        assert(bfs_from(q).to_multiset() =~= bfs_from(next).to_multiset().insert(q[0]));
    }
}

/// Number of nodes in all the subtrees of the forest `f`.
pub open spec fn total_size(f: Seq<Node>) -> nat {
    forest_size(f, f.len() as int)
}

proof fn lemma_forest_size_prefix(a: Seq<Node>, b: Seq<Node>, i: int)
    requires
        0 <= i <= a.len(),
    ensures
        forest_size(a + b, i) == forest_size(a, i),
    decreases i,
{
    if i > 0 {
        lemma_forest_size_prefix(a, b, i - 1);
        assert((a + b)[i - 1] == a[i - 1]);
    }
}

proof fn lemma_forest_size_concat(a: Seq<Node>, b: Seq<Node>, j: int)
    requires
        0 <= j <= b.len(),
    ensures
        forest_size(a + b, a.len() + j) == total_size(a) + forest_size(b, j),
    decreases j,
{
    if j == 0 {
        lemma_forest_size_prefix(a, b, a.len() as int);
    } else {
        lemma_forest_size_concat(a, b, j - 1);
        assert((a + b)[a.len() + j - 1] == b[j - 1]);
    }
}

/// The total size of a forest splits over a concatenation.
pub proof fn lemma_total_size_concat(a: Seq<Node>, b: Seq<Node>)
    ensures
        total_size(a + b) == total_size(a) + total_size(b),
{
    lemma_forest_size_concat(a, b, b.len() as int);
}

/// Taking the first tree off a forest and putting its children at the end
/// removes exactly one node.
pub proof fn lemma_total_size_step(q: Seq<Node>)
    requires
        q.len() > 0,
    ensures
        total_size(q.drop_first() + q[0].children@) + 1 == total_size(q),
{
    let rest = q.drop_first();
    assert(q =~= seq![q[0]] + rest);
    lemma_total_size_concat(seq![q[0]], rest);
    lemma_total_size_concat(rest, q[0].children@);
    assert(forest_size(seq![q[0]], 0) == 0);
    assert(total_size(seq![q[0]]) == size(q[0]));
    assert(size(q[0]) == 1 + total_size(q[0].children@));
}

/// Breadth-first order of the nodes reachable from a work queue: the head of
/// the queue comes first, and its children join the back of the queue.
pub open spec fn bfs_from(q: Seq<Node>) -> Seq<Node>
    decreases total_size(q),
{
    if q.len() == 0 {
        Seq::empty()
    } else {
        proof {
            lemma_total_size_step(q);
        }
        seq![q[0]] + bfs_from(q.drop_first() + q[0].children@)
    }
}

/// The nodes of the tree rooted at `root`, in breadth-first document order.
pub open spec fn bfs_order(root: Node) -> Seq<Node> {
    bfs_from(seq![root])
}

/// Breadth-first traversal from a work queue yields as many nodes as the
/// queued subtrees hold.
pub proof fn lemma_bfs_from_len(q: Seq<Node>)
    ensures
        bfs_from(q).len() == total_size(q),
    decreases total_size(q),
{
    if q.len() > 0 {
        lemma_total_size_step(q);
        lemma_bfs_from_len(q.drop_first() + q[0].children@);
    }
}

/// A traversal of a tree yields the root first, then every other node of the
/// tree: each exactly once, as many as the tree has.
pub proof fn lemma_traversal_each_node_once(root: Node)
    ensures
        bfs_order(root).len() == size(root),
        bfs_order(root)[0] == root,
        bfs_order(root).to_multiset() == subtree_nodes(root).to_multiset(),
{
    lemma_bfs_from_len(seq![root]);
    lemma_bfs_from_each_once(seq![root]);
    assert(forest_nodes(seq![root], 0) == Seq::<Node>::empty());
    assert(all_nodes(seq![root]) =~= subtree_nodes(root));
    assert(total_size(seq![root]) == forest_size(seq![root], 0) + size(root));
}

/// A lazy breadth-first traversal of a tree.
pub struct IterNodes<'a> {
    to_explore: VecDeque<&'a Node>,
}

impl<'a> IterNodes<'a> {
    /// The work queue, as the nodes it refers to.
    pub closed spec fn queue(&self) -> Seq<Node> {
        self.to_explore@.map_values(|r: &'a Node| *r)
    }

    /// The nodes still to be yielded, in order.
    pub open spec fn remaining(&self) -> Seq<Node> {
        bfs_from(self.queue())
    }

    /// A traversal that starts at `node`.
    pub fn from(node: &'a Node) -> (r: Self)
        ensures
            r.remaining() == bfs_order(*node),
    {
        let mut to_explore: VecDeque<&'a Node> = VecDeque::new();
        to_explore.push_back(node);
        let r = IterNodes { to_explore };
        assert(r.queue() =~= seq![*node]);
        r
    }

    /// Yields the next node, or `None` once every node has been yielded.
    pub fn next(&mut self) -> (r: Option<&'a Node>)
        ensures
            old(self).remaining().len() == 0 ==> r is None && final(self).remaining()
                == old(self).remaining(),
            old(self).remaining().len() > 0 ==> r is Some && *r->Some_0 == old(
                self,
            ).remaining()[0] && final(self).remaining() == old(self).remaining().drop_first(),
    {
        let ghost q = self.queue();
        match self.to_explore.pop_front() {
            None => {
                assert(q.len() == 0);
                None
            },
            Some(node) => {
                assert(q.len() > 0 && q[0] == *node);
                let n = node.children.len();
                let mut i: usize = 0;
                while i < n
                    invariant
                        0 <= i <= n,
                        n == node.children@.len(),
                        self.queue() == q.drop_first() + node.children@.subrange(0, i as int),
                    decreases n - i,
                {
                    let ghost before = self.queue();
                    self.to_explore.push_back(&node.children[i]);
                    assert(self.queue() =~= before.push(node.children@[i as int]));
                    assert(node.children@.subrange(0, i + 1) =~= node.children@.subrange(
                        0,
                        i as int,
                    ).push(node.children@[i as int]));
                    assert(q.drop_first() + node.children@.subrange(0, i + 1) =~= (q.drop_first()
                        + node.children@.subrange(0, i as int)).push(node.children@[i as int]));
                    i = i + 1;
                }
                assert(node.children@.subrange(0, n as int) =~= node.children@);
                assert(bfs_from(q) == seq![q[0]] + bfs_from(q.drop_first() + q[0].children@));
                assert(bfs_from(q).drop_first() =~= bfs_from(q.drop_first() + q[0].children@));
                Some(node)
            },
        }
    }
}

} // verus!
