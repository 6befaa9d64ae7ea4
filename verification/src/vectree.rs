//! A tree whose nodes live in a vector. Nodes are added bottom up: a node
//! names its children, which must be in the tree already and have no parent
//! yet; adding it makes it their parent. A built tree knows its top level:
//! the nodes that have no parent, in the order they were added.
use vstd::prelude::*;

verus! {

/// A node of one tree: the tree's identity and the node's position in it.
#[derive(Debug, Clone, Copy, PartialEq, Eq, Structural)]
pub struct NodeId {
    pub tree_id: i64,
    pub index: usize,
}

/// What a tree can hold: values that name their children.
pub trait Node {
    /// The children the node names, in order.
    spec fn children(&self) -> Seq<NodeId>;

    /// Appends the children of the node to `children`.
    fn get_children(&self, children: &mut Vec<NodeId>)
        ensures
            final(children)@ == old(children)@ + self.children(),
    ;
}

struct InternalNode<T> {
    id: NodeId,
    node: T,
    parent: Option<NodeId>,
}

/// Why a node cannot be added.
#[derive(Debug, Clone, Copy, PartialEq, Eq, Structural)]
pub enum Error {
    ChildNotFound(NodeId),
    ChildHasParent(NodeId),
}

/// The view of a tree under construction: its identity, its nodes, and the
/// position of each node's parent.
pub ghost struct TreeV<T> {
    pub tree_id: i64,
    pub nodes: Seq<T>,
    pub parents: Seq<Option<usize>>,
}

/// Each node's parent, if it has one, was added after it and names it.
pub open spec fn tree_wf<T: Node>(t: TreeV<T>) -> bool {
    &&& t.parents.len() == t.nodes.len()
    &&& forall|i: int|
        0 <= i < t.parents.len() ==> (#[trigger] t.parents[i] matches Some(p) ==> i < p
            < t.nodes.len() && t.nodes[p as int].children().contains(
            NodeId { tree_id: t.tree_id, index: i as usize },
        ))
}

/// The first child that cannot be taken: one not in the tree, or one that
/// has a parent already.
pub open spec fn first_bad_child(t: TreeV<int>, children: Seq<NodeId>) -> Option<int> {
    if exists|k: int| 0 <= k < children.len() && !child_ok(t, #[trigger] children[k]) {
        Some(choose|k: int| 0 <= k < children.len() && !child_ok(t, #[trigger] children[k]) && forall|j: int| 0 <= j < k ==> child_ok(t, #[trigger] children[j]))
    } else {
        None
    }
}

/// A child that can be taken: in the tree, with no parent yet.
pub open spec fn child_ok(t: TreeV<int>, c: NodeId) -> bool {
    c.index < t.parents.len() && t.parents[c.index as int] is None
}

/// The view that `first_bad_child` looks at: positions only.
pub open spec fn shape<T>(t: TreeV<T>) -> TreeV<int> {
    TreeV { tree_id: t.tree_id, nodes: Seq::new(t.nodes.len(), |i: int| i), parents: t.parents }
}

/// The parents after adding a node with these children at the end.
pub open spec fn adopt(parents: Seq<Option<usize>>, children: Seq<NodeId>) -> Seq<Option<usize>> {
    Seq::new(
        parents.len() + 1,
        |k: int|
            if k == parents.len() {
                None
            } else if exists|j: int| 0 <= j < children.len() && #[trigger] children[j].index == k {
                Some(parents.len() as usize)
            } else {
                parents[k]
            },
    )
}

/// Builds a tree node by node.
pub struct Builder<T> {
    tree_id: i64,
    nodes: Vec<InternalNode<T>>,
    children: Vec<NodeId>,
}

/// A built tree.
pub struct VecTree<T> {
    tree_id: i64,
    nodes: Vec<InternalNode<T>>,
    top_level: Vec<NodeId>,
}

pub open spec fn parent_index(p: Option<NodeId>) -> Option<usize> {
    match p {
        Some(id) => Some(id.index),
        None => None,
    }
}

/// The nodes without a parent, in order.
pub open spec fn roots(tree_id: i64, parents: Seq<Option<usize>>) -> Seq<NodeId>
    decreases parents.len(),
{
    if parents.len() == 0 {
        seq![]
    } else {
        roots(tree_id, parents.drop_last()) + if parents.last() is None {
            seq![NodeId { tree_id, index: (parents.len() - 1) as usize }]
        } else {
            seq![]
        }
    }
}

impl<T: Node> Builder<T> {
    pub closed spec fn view(&self) -> TreeV<T> {
        TreeV {
            tree_id: self.tree_id,
            nodes: self.nodes@.map_values(|n: InternalNode<T>| n.node),
            parents: self.nodes@.map_values(|n: InternalNode<T>| parent_index(n.parent)),
        }
    }

    /// Well formed: each node knows its own identity, and parents are as
    /// `tree_wf` says.
    pub closed spec fn wf(&self) -> bool {
        &&& tree_wf(self.view())
        &&& forall|i: int|
            0 <= i < self.nodes@.len() ==> (#[trigger] self.nodes@[i]).id == NodeId {
                tree_id: self.tree_id,
                index: i as usize,
            } && (self.nodes@[i].parent matches Some(p) ==> p.tree_id == self.tree_id)
    }

    /// Adds `node`, the parent of the children it names. Fails, changing
    /// nothing, on the first child that is not in the tree or has a parent.
    pub fn add(&mut self, node: T) -> (r: Result<NodeId, Error>)
        requires
            old(self).wf(),
            forall|k: int| 0 <= k < node.children().len() ==> (#[trigger] node.children()[k]).tree_id == old(self).view().tree_id,
            old(self).view().nodes.len() < usize::MAX,
        ensures
            final(self).wf(),
            tree_wf(final(self).view()),
            final(self).view().tree_id == old(self).view().tree_id,
            match first_bad_child(shape(old(self).view()), node.children()) {
                Some(k) => final(self).view() == old(self).view() && r == Err::<NodeId, Error>(
                    if node.children()[k].index >= old(self).view().nodes.len() {
                        Error::ChildNotFound(node.children()[k])
                    } else {
                        Error::ChildHasParent(node.children()[k])
                    },
                ),
                None => r == Ok::<NodeId, Error>(
                    NodeId { tree_id: old(self).view().tree_id, index: old(self).view().nodes.len() as usize },
                ) && final(self).view().nodes == old(self).view().nodes.push(node)
                    && final(self).view().parents == adopt(old(self).view().parents, node.children()),
            },
    {
        self.children.clear();
        node.get_children(&mut self.children);
        assert(self.children@ =~= node.children());
        let ghost t = shape(self.view());
        let n = self.nodes.len();
        let mut k: usize = 0;
        while k < self.children.len()
            invariant
                k <= self.children@.len(),
                self.children@ == node.children(),
                n == self.nodes@.len(),
                t == shape(self.view()),
                self.nodes@ == old(self).nodes@,
                self.tree_id == old(self).tree_id,
                old(self).wf(),
                forall|j: int| 0 <= j < k ==> child_ok(t, #[trigger] self.children@[j]),
            decreases self.children@.len() - k,
        {
            let c = self.children[k];
            if c.index >= n {
                proof {
                    lemma_first_bad(t, node.children(), k as int);
                }
                return Err(Error::ChildNotFound(c));
            }
            if self.nodes[c.index].parent.is_some() {
                proof {
                    lemma_first_bad(t, node.children(), k as int);
                }
                return Err(Error::ChildHasParent(c));
            }
            k = k + 1;
        }
        let id = NodeId { tree_id: self.tree_id, index: n };
        let ghost before = self.nodes@;
        let mut k: usize = 0;
        while k < self.children.len()
            invariant
                k <= self.children@.len(),
                self.children@ == node.children(),
                n == self.nodes@.len(),
                n == before.len(),
                before == old(self).nodes@,
                self.tree_id == old(self).tree_id,
                id == (NodeId { tree_id: self.tree_id, index: n }),
                forall|j: int| 0 <= j < self.children@.len() ==> (#[trigger] self.children@[j]).index < n,
                forall|i: int|
                    0 <= i < n ==> (#[trigger] self.nodes@[i]).id == before[i].id && self.nodes@[i].node
                        == before[i].node && self.nodes@[i].parent == if exists|j: int|
                        0 <= j < k && #[trigger] self.children@[j].index == i {
                        Some(id)
                    } else {
                        before[i].parent
                    },
            decreases self.children@.len() - k,
        {
            let c = self.children[k].index;
            let ghost prev = self.nodes@;
            self.nodes[c].parent = Some(id);
            proof {
                assert forall|i: int| 0 <= i < n implies (#[trigger] self.nodes@[i]).parent == if exists|j: int|
                    0 <= j < k + 1 && #[trigger] self.children@[j].index == i {
                    Some(id)
                } else {
                    before[i].parent
                } by {
                    if i == c {
                        assert(self.children@[k as int].index == i);
                    } else {
                        assert(self.nodes@[i] == prev[i]);
                        if exists|j: int| 0 <= j < k + 1 && #[trigger] self.children@[j].index == i {
                            let j = choose|j: int| 0 <= j < k + 1 && #[trigger] self.children@[j].index == i;
                            assert(j < k);
                        }
                    }
                }
            }
            k = k + 1;
        }
        let ghost mid = self.nodes@;
        let ghost kids = node.children();
        self.nodes.push(InternalNode { id, node, parent: None });
        proof {
            let ov = old(self).view();
            let v = self.view();
            assert(v.nodes =~= ov.nodes.push(self.nodes@[n as int].node));
            assert(v.parents =~= adopt(ov.parents, kids));
            assert forall|i: int| 0 <= i < v.parents.len() implies (#[trigger] v.parents[i] matches Some(p) ==> i < p
                < v.nodes.len() && v.nodes[p as int].children().contains(
                NodeId { tree_id: v.tree_id, index: i as usize },
            )) by {
                if i < n {
                    if exists|j: int| 0 <= j < kids.len() && #[trigger] kids[j].index == i {
                        let j = choose|j: int| 0 <= j < kids.len() && #[trigger] kids[j].index == i;
                        assert(kids[j] == NodeId { tree_id: v.tree_id, index: i as usize });
                        assert(v.nodes[n as int].children().contains(kids[j]));
                    } else {
                        assert(v.parents[i] == ov.parents[i]);
                        if let Some(p) = ov.parents[i] {
                            assert(ov.nodes[p as int] == v.nodes[p as int]);
                        }
                    }
                }
            }
        }
        Ok(id)
    }

    /// The finished tree.
    pub fn build(self) -> (r: VecTree<T>)
        requires
            self.wf(),
        ensures
            r.view().tree_id == self.view().tree_id,
            r.view().nodes == self.view().nodes,
            r.view().parents == self.view().parents,
            r.top_level_view() == roots(self.view().tree_id, self.view().parents),
    {
        let mut top_level: Vec<NodeId> = Vec::new();
        let mut i: usize = 0;
        while i < self.nodes.len()
            invariant
                i <= self.nodes@.len(),
                self.wf(),
                top_level@ == roots(self.tree_id, self.view().parents.take(i as int)),
            decreases self.nodes@.len() - i,
        {
            proof {
                assert(self.view().parents.take(i + 1).drop_last() =~= self.view().parents.take(i as int));
            }
            if self.nodes[i].parent.is_none() {
                top_level.push(self.nodes[i].id);
            }
            i = i + 1;
        }
        assert(self.view().parents.take(i as int) =~= self.view().parents);
        VecTree { tree_id: self.tree_id, nodes: self.nodes, top_level }
    }
}

proof fn lemma_first_bad(t: TreeV<int>, children: Seq<NodeId>, k: int)
    requires
        0 <= k < children.len(),
        !child_ok(t, children[k]),
        forall|j: int| 0 <= j < k ==> child_ok(t, #[trigger] children[j]),
    ensures
        first_bad_child(t, children) == Some(k),
{
    assert(exists|m: int| 0 <= m < children.len() && !child_ok(t, #[trigger] children[m]));
    let c = choose|m: int| 0 <= m < children.len() && !child_ok(t, #[trigger] children[m]) && forall|j: int| 0 <= j < m ==> child_ok(t, #[trigger] children[j]);
    if c < k {
    } else if c > k {
        assert(child_ok(t, children[k]));
    }
}

impl<T: Node> VecTree<T> {
    pub closed spec fn view(&self) -> TreeV<T> {
        TreeV {
            tree_id: self.tree_id,
            nodes: self.nodes@.map_values(|n: InternalNode<T>| n.node),
            parents: self.nodes@.map_values(|n: InternalNode<T>| parent_index(n.parent)),
        }
    }

    pub closed spec fn top_level_view(&self) -> Seq<NodeId> {
        self.top_level@
    }

    /// The node `id` names, if the tree has it; `id` must be of this tree.
    pub fn get(&self, id: &NodeId) -> (r: Option<&T>)
        requires
            id.tree_id == self.view().tree_id,
        ensures
            id.index < self.view().nodes.len() ==> r == Some(&self.view().nodes[id.index as int]),
            id.index >= self.view().nodes.len() ==> r is None,
    {
        if id.index < self.nodes.len() {
            Some(&self.nodes[id.index].node)
        } else {
            None
        }
    }

    /// The ids of the nodes without a parent, in the order they were added;
    /// `get` gives each node.
    pub fn top_level_iter(&self) -> (r: Vec<NodeId>)
        ensures
            r@ == self.top_level_view(),
    {
        let mut r: Vec<NodeId> = Vec::new();
        let mut i: usize = 0;
        while i < self.top_level.len()
            invariant
                i <= self.top_level@.len(),
                r@ == self.top_level@.take(i as int),
            decreases self.top_level@.len() - i,
        {
            r.push(self.top_level[i]);
            i = i + 1;
            assert(r@ =~= self.top_level@.take(i as int));
        }
        assert(self.top_level@.take(i as int) =~= self.top_level@);
        r
    }
}

/// Calls `rand::random`, which gives an `i64` picked at random.
#[verifier::external_body]
fn random_tree_id() -> (r: i64) {
    rand::random::<i64>()
}

/// A builder of an empty tree with an identity of its own.
pub fn builder<T: Node>() -> (r: Builder<T>)
    ensures
        r.wf(),
        tree_wf(r.view()),
        r.view().nodes.len() == 0,
{
    let b = Builder { tree_id: random_tree_id(), nodes: Vec::new(), children: Vec::new() };
    assert(b.view().nodes =~= Seq::<T>::empty());
    assert(b.view().parents =~= Seq::<Option<usize>>::empty());
    b
}

} // verus!
