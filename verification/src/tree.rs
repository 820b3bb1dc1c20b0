//! The tree container: an arena of nodes stored in pre-order, with the
//! structure given by a parallel sequence of depths. Child and sibling
//! relations are index arithmetic over the depth sequence, so the two
//! parallel trees of a wizard session stay aligned by construction.

use vstd::prelude::*;

verus! {

use crate::nodes::{LeafNodeType, NodeV};

/// Ghost model of a tree: parallel sequences of depths and nodes, both in
/// pre-order.
#[verifier::ext_equal]
pub struct TreeV {
    pub depths: Seq<nat>,
    pub nodes: Seq<NodeV>,
}

/// A depth sequence describes a single-rooted tree in pre-order: the root at
/// depth 0 comes first, every other node is at least one deep, and a node is
/// at most one level deeper than its predecessor.
pub open spec fn wf_shape(d: Seq<nat>) -> bool {
    &&& d.len() >= 1
    &&& d[0] == 0
    &&& forall|i: int| 1 <= i < d.len() ==> 1 <= #[trigger] d[i] <= d[i - 1] + 1
}

impl TreeV {
    pub open spec fn len(self) -> nat {
        self.depths.len()
    }

    pub open spec fn wf(self) -> bool {
        &&& self.depths.len() == self.nodes.len()
        &&& wf_shape(self.depths)
        &&& forall|i: int| 0 <= i < self.nodes.len() ==> (#[trigger] self.nodes[i]).wf()
    }
}

/// The first position at or after `j` whose depth does not exceed `lim`, or
/// the length of the sequence if every later node is deeper.
pub open spec fn scan_shallow(d: Seq<nat>, lim: nat, j: int) -> int
    decreases d.len() - j,
{
    if j < 0 || j >= d.len() {
        d.len() as int
    } else if d[j] <= lim {
        j
    } else {
        scan_shallow(d, lim, j + 1)
    }
}

/// Where the subtree rooted at `i` ends: the first later position at the
/// depth of `i` or shallower, or the end of the tree.
pub open spec fn subtree_end(d: Seq<nat>, i: int) -> int {
    scan_shallow(d, d[i], i + 1)
}

/// What the scan returns: a position in range, shallow enough itself, with
/// everything before it too deep.
pub proof fn lemma_scan_shallow(d: Seq<nat>, lim: nat, j: int)
    requires
        0 <= j <= d.len(),
    ensures
        j <= scan_shallow(d, lim, j) <= d.len(),
        scan_shallow(d, lim, j) < d.len() ==> d[scan_shallow(d, lim, j)] <= lim,
        forall|k: int| j <= k < scan_shallow(d, lim, j) ==> #[trigger] d[k] > lim,
    decreases d.len() - j,
{
    if j < d.len() && d[j] > lim {
        lemma_scan_shallow(d, lim, j + 1);
    }
}

/// A stable node identity: the node's arena slot, which by construction is
/// also its pre-order rank, shared between the question tree and the result
/// tree.
#[derive(Clone, Copy, Debug, PartialEq, Eq, Structural)]
pub struct NodeId {
    pub index: usize,
}

/// The question tree (and the parallel result tree): one node per pre-order
/// position.
#[derive(Debug)]
pub struct Tree {
    depths: Vec<usize>,
    nodes: Vec<LeafNodeType>,
}

impl View for Tree {
    type V = TreeV;

    closed spec fn view(&self) -> TreeV {
        TreeV {
            depths: self.depths@.map_values(|d: usize| d as nat),
            nodes: self.nodes@.map_values(|n: LeafNodeType| n@),
        }
    }
}

impl Tree {
    /// A tree holding only the given root.
    pub fn new(root: LeafNodeType) -> (r: Tree)
        ensures
            r@.depths == seq![0nat],
            r@.nodes == seq![root@],
            root@.wf() ==> r@.wf(),
    {
        let mut depths: Vec<usize> = Vec::new();
        depths.push(0);
        let mut nodes: Vec<LeafNodeType> = Vec::new();
        nodes.push(root);
        let r = Tree { depths, nodes };
        proof {
            assert(r@.depths =~= seq![0nat]);
            assert(r@.nodes =~= seq![r.nodes@[0]@]);
        }
        r
    }

    /// Append one node at the end of the pre-order sequence, at the given
    /// depth. The caller answers for keeping the shape well-formed; the
    /// compiler and the tests build every tree through this.
    pub fn push_at(&mut self, depth: usize, node: LeafNodeType)
        ensures
            final(self)@.depths == old(self)@.depths.push(depth as nat),
            final(self)@.nodes == old(self)@.nodes.push(node@),
    {
        let ghost n = node@;
        self.depths.push(depth);
        self.nodes.push(node);
        proof {
            assert(self@.depths =~= old(self)@.depths.push(depth as nat));
            assert(self@.nodes =~= old(self)@.nodes.push(n));
        }
    }

    /// How many nodes the tree holds.
    pub fn len(&self) -> (r: usize)
        ensures
            r == self@.len(),
    {
        self.depths.len()
    }

    /// The node at pre-order position `i`.
    pub fn node(&self, i: usize) -> (r: &LeafNodeType)
        requires
            i < self@.nodes.len(),
        ensures
            r@ == self@.nodes[i as int],
    {
        &self.nodes[i]
    }

    /// The depth of the node at pre-order position `i`.
    pub fn depth(&self, i: usize) -> (r: usize)
        requires
            i < self@.depths.len(),
        ensures
            r as nat == self@.depths[i as int],
    {
        self.depths[i]
    }

    /// Replace the node at position `i`, leaving the shape untouched.
    pub fn set_node(&mut self, i: usize, node: LeafNodeType)
        requires
            i < old(self)@.nodes.len(),
        ensures
            final(self)@.depths == old(self)@.depths,
            final(self)@.nodes == old(self)@.nodes.update(i as int, node@),
    {
        let ghost n = node@;
        self.nodes.set(i, node);
        proof {
            assert(self@.nodes =~= old(self)@.nodes.update(i as int, n));
        }
    }

    /// Where the subtree rooted at `i` ends (see [`subtree_end`]).
    pub fn subtree_end_at(&self, i: usize) -> (r: usize)
        requires
            self@.wf(),
            i < self@.len(),
        ensures
            r as int == subtree_end(self@.depths, i as int),
            i < r <= self@.len(),
    {
        let len = self.depths.len();
        let lim = self.depths[i];
        let mut j: usize = i + 1;
        while j < len && self.depths[j] > lim
            invariant
                i + 1 <= j <= len,
                len == self@.depths.len(),
                lim as nat == self@.depths[i as int],
                i < len,
                scan_shallow(self@.depths, lim as nat, i + 1) == scan_shallow(
                    self@.depths,
                    lim as nat,
                    j as int,
                ),
            decreases len - j,
        {
            j = j + 1;
        }
        j
    }
}

/// Deep copies of whole trees.
pub trait CloneTree: Sized + View<V = TreeV> {
    /// A structurally identical copy: same depths, node for node the same
    /// value.
    fn clone(&self) -> (r: Self)
        ensures
            r@ == self@,
    ;
}

impl CloneTree for Tree {
    fn clone(&self) -> (r: Tree)
        ensures
            r@ == self@,
    {
        let mut depths: Vec<usize> = Vec::new();
        let mut nodes: Vec<LeafNodeType> = Vec::new();
        let mut i: usize = 0;
        while i < self.depths.len()
            invariant
                i <= self.depths@.len(),
                depths@.len() == i,
                forall|j: int| 0 <= j < i ==> depths@[j] == self.depths@[j],
            decreases self.depths@.len() - i,
        {
            depths.push(self.depths[i]);
            i = i + 1;
        }
        let mut k: usize = 0;
        while k < self.nodes.len()
            invariant
                k <= self.nodes@.len(),
                nodes@.len() == k,
                forall|j: int| 0 <= j < k ==> (#[trigger] nodes@[j])@ == self.nodes@[j]@,
            decreases self.nodes@.len() - k,
        {
            nodes.push(self.nodes[k].clone());
            k = k + 1;
        }
        let r = Tree { depths, nodes };
        proof {
            assert(r@.depths =~= self@.depths);
            assert(r@.nodes =~= self@.nodes);
            assert(r@ =~= self@);
        }
        r
    }
}

/// Recovering a node's pre-order rank from its identity.
pub trait NodeIndex: View<V = TreeV> {
    /// The pre-order rank of `node_id` within this tree, or nothing if the
    /// id names no node of it.
    fn node_index(&self, node_id: NodeId) -> (r: Option<usize>)
        ensures
            node_id.index < self@.len() ==> r == Some(node_id.index),
            node_id.index >= self@.len() ==> r is None,
    ;
}

impl NodeIndex for Tree {
    fn node_index(&self, node_id: NodeId) -> (r: Option<usize>)
        ensures
            node_id.index < self@.len() ==> r == Some(node_id.index),
            node_id.index >= self@.len() ==> r is None,
    {
        if node_id.index < self.depths.len() {
            Some(node_id.index)
        } else {
            None
        }
    }
}

/// Ghost model of a finalized tree: plain path segments in pre-order.
#[verifier::ext_equal]
pub struct StringTreeV {
    pub depths: Seq<nat>,
    pub names: Seq<Seq<char>>,
}

impl StringTreeV {
    pub open spec fn wf(self) -> bool {
        &&& self.depths.len() == self.names.len()
        &&& wf_shape(self.depths)
    }
}

/// The finalized tree that validation hands out: one plain name per
/// pre-order position.
pub struct StringTree {
    depths: Vec<usize>,
    names: Vec<String>,
}

impl View for StringTree {
    type V = StringTreeV;

    closed spec fn view(&self) -> StringTreeV {
        StringTreeV {
            depths: self.depths@.map_values(|d: usize| d as nat),
            names: self.names@.map_values(|n: String| n@),
        }
    }
}

impl StringTree {
    /// Build a finalized tree from its parts.
    pub(crate) fn assemble(depths: Vec<usize>, names: Vec<String>) -> (r: StringTree)
        ensures
            r@.depths == depths@.map_values(|d: usize| d as nat),
            r@.names == names@.map_values(|n: String| n@),
    {
        StringTree { depths, names }
    }

    /// How many nodes the tree holds.
    pub fn len(&self) -> (r: usize)
        ensures
            r == self@.depths.len(),
    {
        self.depths.len()
    }

    /// The name at pre-order position `i`.
    pub fn name(&self, i: usize) -> (r: &String)
        requires
            i < self@.names.len(),
        ensures
            r@ == self@.names[i as int],
    {
        &self.names[i]
    }

    /// The depth of the node at pre-order position `i`.
    pub fn depth(&self, i: usize) -> (r: usize)
        requires
            i < self@.depths.len(),
        ensures
            r as nat == self@.depths[i as int],
    {
        self.depths[i]
    }
}

} // verus!
