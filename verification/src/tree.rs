//! The shape of a Hoeffding tree: an arena of node slots, the kind of each
//! node, child links, and the three population counters the engine steers
//! by.  Every operation preserves the accounting invariant: the counters
//! equal the number of live nodes of each kind, so active leaves plus
//! inactive leaves plus decision nodes is always the number of nodes in the
//! tree.  The learner's statistics live beside this shape, indexed by the
//! same slot numbers.
use vstd::prelude::*;

verus! {

/// Maps a model-attribute index (which skips the class column) to the
/// instance column it stands for.
pub open spec fn spec_model_to_instance_index(index: int, class_index: int) -> int {
    if class_index > index {
        index
    } else {
        index + 1
    }
}

/// The tree enumerates model attributes, skipping the class column; this
/// returns the instance column a model attribute reads.
pub fn model_attribute_index_to_instance_attribute_index(index: usize, class_index: usize) -> (r:
    usize)
    requires
        index < usize::MAX,
    ensures
        r == spec_model_to_instance_index(index as int, class_index as int),
{
    if class_index > index {
        index
    } else {
        index + 1
    }
}

/// What a tree slot holds.
#[derive(Clone, Copy, PartialEq, Eq, Structural, Debug)]
pub enum NodeKind {
    /// A learning leaf with observers: it can still propose splits.
    ActiveLeaf,
    /// A leaf demoted under memory pressure: counts only.
    InactiveLeaf,
    /// An internal decision node routing by a conditional test.
    SplitNode,
}

/// One live node: its kind and its child slots, empty for leaves.
pub struct ShapeNode {
    pub kind: NodeKind,
    pub children: Vec<Option<usize>>,
}

/// How many live slots hold `kind`, among the first `n`.
pub open spec fn count_kind(nodes: Seq<Option<ShapeNode>>, kind: NodeKind, n: int) -> int
    decreases n,
{
    if n <= 0 {
        0
    } else {
        count_kind(nodes, kind, n - 1) + match nodes[n - 1] {
            Some(sn) => if sn.kind == kind {
                1int
            } else {
                0int
            },
            None => 0int,
        }
    }
}

/// How many slots are live, among the first `n`.
pub open spec fn count_live(nodes: Seq<Option<ShapeNode>>, n: int) -> int
    decreases n,
{
    if n <= 0 {
        0
    } else {
        count_live(nodes, n - 1) + if nodes[n - 1] is Some {
            1int
        } else {
            0int
        }
    }
}

/// Changing one slot changes a count only through that slot.
proof fn lemma_count_kind_update(
    nodes: Seq<Option<ShapeNode>>,
    updated: Seq<Option<ShapeNode>>,
    at: int,
    kind: NodeKind,
    n: int,
)
    requires
        nodes.len() == updated.len(),
        0 <= at < nodes.len(),
        forall|j: int| 0 <= j < nodes.len() && j != at ==> nodes[j] == updated[j],
        n <= nodes.len(),
    ensures
        count_kind(updated, kind, n) == count_kind(nodes, kind, n) + if n <= at {
            0int
        } else {
            (match updated[at] {
                Some(sn) => if sn.kind == kind {
                    1int
                } else {
                    0int
                },
                None => 0int,
            }) - (match nodes[at] {
                Some(sn) => if sn.kind == kind {
                    1int
                } else {
                    0int
                },
                None => 0int,
            })
        },
    decreases n,
{
    if n > 0 {
        lemma_count_kind_update(nodes, updated, at, kind, n - 1);
    }
}

/// Appending a slot extends a count by that slot's contribution.
proof fn lemma_count_kind_push(
    nodes: Seq<Option<ShapeNode>>,
    slot: Option<ShapeNode>,
    kind: NodeKind,
    n: int,
)
    requires
        0 <= n <= nodes.len(),
    ensures
        count_kind(nodes.push(slot), kind, n) == count_kind(nodes, kind, n),
    decreases n,
{
    if n > 0 {
        lemma_count_kind_push(nodes, slot, kind, n - 1);
        assert(nodes.push(slot)[n - 1] == nodes[n - 1]);
    }
}

proof fn lemma_count_live_push(nodes: Seq<Option<ShapeNode>>, slot: Option<ShapeNode>, n: int)
    requires
        0 <= n <= nodes.len(),
    ensures
        count_live(nodes.push(slot), n) == count_live(nodes, n),
    decreases n,
{
    if n > 0 {
        lemma_count_live_push(nodes, slot, n - 1);
        assert(nodes.push(slot)[n - 1] == nodes[n - 1]);
    }
}

proof fn lemma_count_live_update(
    nodes: Seq<Option<ShapeNode>>,
    updated: Seq<Option<ShapeNode>>,
    at: int,
    n: int,
)
    requires
        nodes.len() == updated.len(),
        0 <= at < nodes.len(),
        forall|j: int| 0 <= j < nodes.len() && j != at ==> nodes[j] == updated[j],
        n <= nodes.len(),
    ensures
        count_live(updated, n) == count_live(nodes, n) + if n <= at {
            0int
        } else {
            (if updated[at] is Some {
                1int
            } else {
                0int
            }) - (if nodes[at] is Some {
                1int
            } else {
                0int
            })
        },
    decreases n,
{
    if n > 0 {
        lemma_count_live_update(nodes, updated, at, n - 1);
    }
}

/// The accounting law the counters state: every live node is of exactly
/// one kind, so the three kind counts partition the live count.
pub proof fn lemma_kind_counts_partition_live(nodes: Seq<Option<ShapeNode>>, n: int)
    requires
        n <= nodes.len(),
    ensures
        count_live(nodes, n) == count_kind(nodes, NodeKind::ActiveLeaf, n) + count_kind(
            nodes,
            NodeKind::InactiveLeaf,
            n,
        ) + count_kind(nodes, NodeKind::SplitNode, n),
    decreases n,
{
    if n > 0 {
        lemma_kind_counts_partition_live(nodes, n - 1);
    }
}

/// The arena of tree slots and the counters the engine reads.
pub struct TreeShape {
    pub nodes: Vec<Option<ShapeNode>>,
    pub root: Option<usize>,
    pub active_leaf_count: usize,
    pub inactive_leaf_count: usize,
    pub decision_node_count: usize,
}

impl TreeShape {
    /// The counters speak the truth about the slots, and the root, when
    /// set, names a live slot.
    pub open spec fn wf(&self) -> bool {
        &&& self.active_leaf_count == count_kind(
            self.nodes@,
            NodeKind::ActiveLeaf,
            self.nodes@.len() as int,
        )
        &&& self.inactive_leaf_count == count_kind(
            self.nodes@,
            NodeKind::InactiveLeaf,
            self.nodes@.len() as int,
        )
        &&& self.decision_node_count == count_kind(
            self.nodes@,
            NodeKind::SplitNode,
            self.nodes@.len() as int,
        )
        &&& match self.root {
            Some(rid) => rid < self.nodes@.len() && self.nodes@[rid as int] is Some,
            None => true,
        }
    }

    /// The number of live nodes.
    pub open spec fn spec_node_count(&self) -> int {
        count_live(self.nodes@, self.nodes@.len() as int)
    }

    pub open spec fn spec_kind_at(&self, id: int) -> Option<NodeKind> {
        if 0 <= id < self.nodes@.len() {
            match self.nodes@[id] {
                Some(sn) => Some(sn.kind),
                None => None,
            }
        } else {
            None
        }
    }

    /// An empty tree: no root, nothing counted.
    pub fn new() -> (r: TreeShape)
        ensures
            r.wf(),
            r.root is None,
            r.spec_node_count() == 0,
            r.active_leaf_count == 0,
            r.inactive_leaf_count == 0,
            r.decision_node_count == 0,
    {
        TreeShape {
            nodes: Vec::new(),
            root: None,
            active_leaf_count: 0,
            inactive_leaf_count: 0,
            decision_node_count: 0,
        }
    }

    /// The node counts, as the accounting law ties them together: their
    /// sum is the number of nodes in the tree.
    pub fn node_count(&self) -> (r: usize)
        requires
            self.wf(),
        ensures
            r == self.spec_node_count(),
            r == self.active_leaf_count + self.inactive_leaf_count + self.decision_node_count,
    {
        let n = self.nodes.len();
        proof {
            lemma_kind_counts_partition_live(self.nodes@, self.nodes@.len() as int);
            lemma_count_bounds(self.nodes@, self.nodes@.len() as int);
            assert(count_live(self.nodes@, self.nodes@.len() as int) <= n);
            assert(self.active_leaf_count + self.inactive_leaf_count + self.decision_node_count
                == count_live(self.nodes@, self.nodes@.len() as int));
        }
        self.active_leaf_count + (self.inactive_leaf_count + self.decision_node_count)
    }

    pub fn kind_at(&self, id: usize) -> (r: Option<NodeKind>)
        ensures
            r == self.spec_kind_at(id as int),
    {
        if id < self.nodes.len() {
            match &self.nodes[id] {
                Some(sn) => Some(sn.kind),
                None => None,
            }
        } else {
            None
        }
    }

    /// The child slot of `id` at `branch`: filled exactly when `id` is a
    /// live node whose branch vector holds a child there.
    pub fn child_of(&self, id: usize, branch: usize) -> (r: Option<usize>)
        ensures
            match r {
                Some(c) => id < self.nodes@.len() && (self.nodes@[id as int] matches Some(sn)
                    && branch < sn.children@.len() && sn.children@[branch as int] == Some(c)),
                None => !(id < self.nodes@.len() && (self.nodes@[id as int] matches Some(sn)
                    && branch < sn.children@.len() && sn.children@[branch as int] is Some)),
            },
    {
        if id < self.nodes.len() {
            match &self.nodes[id] {
                Some(sn) => {
                    if branch < sn.children.len() {
                        sn.children[branch]
                    } else {
                        None
                    }
                },
                None => None,
            }
        } else {
            None
        }
    }

    /// Plants the first learning leaf as the root of an empty tree.
    pub fn init_root(&mut self) -> (r: usize)
        requires
            old(self).wf(),
            old(self).root is None,
            old(self).nodes@.len() < usize::MAX,
        ensures
            final(self).wf(),
            final(self).root == Some(r),
            final(self).spec_kind_at(r as int) == Some(NodeKind::ActiveLeaf),
            final(self).active_leaf_count == old(self).active_leaf_count + 1,
            final(self).inactive_leaf_count == old(self).inactive_leaf_count,
            final(self).decision_node_count == old(self).decision_node_count,
            final(self).spec_node_count() == old(self).spec_node_count() + 1,
    {
        proof {
            lemma_count_bounds(old(self).nodes@, old(self).nodes@.len() as int);
        }
        let id = self.new_slot(NodeKind::ActiveLeaf, 0);
        self.root = Some(id);
        self.active_leaf_count = self.active_leaf_count + 1;
        id
    }

    /// Adds a slot holding a fresh node; counters are the caller's to move.
    fn new_slot(&mut self, kind: NodeKind, branches: usize) -> (r: usize)
        requires
            old(self).nodes@.len() < usize::MAX,
        ensures
            r == old(self).nodes@.len(),
            final(self).nodes@.len() == old(self).nodes@.len() + 1,
            forall|j: int| 0 <= j < old(self).nodes@.len() ==> final(self).nodes@[j] == old(
                self,
            ).nodes@[j],
            final(self).nodes@[r as int] matches Some(sn) && sn.kind == kind && sn.children@.len()
                == branches && (forall|b: int| 0 <= b < branches ==> sn.children@[b] is None),
            final(self).root == old(self).root,
            final(self).active_leaf_count == old(self).active_leaf_count,
            final(self).inactive_leaf_count == old(self).inactive_leaf_count,
            final(self).decision_node_count == old(self).decision_node_count,
            count_kind(final(self).nodes@, NodeKind::ActiveLeaf, old(self).nodes@.len() as int)
                == count_kind(old(self).nodes@, NodeKind::ActiveLeaf, old(self).nodes@.len() as int),
            count_kind(final(self).nodes@, NodeKind::InactiveLeaf, old(self).nodes@.len() as int)
                == count_kind(
                old(self).nodes@,
                NodeKind::InactiveLeaf,
                old(self).nodes@.len() as int,
            ),
            count_kind(final(self).nodes@, NodeKind::SplitNode, old(self).nodes@.len() as int)
                == count_kind(old(self).nodes@, NodeKind::SplitNode, old(self).nodes@.len() as int),
            count_live(final(self).nodes@, old(self).nodes@.len() as int) == count_live(
                old(self).nodes@,
                old(self).nodes@.len() as int,
            ),
    {
        let mut children: Vec<Option<usize>> = Vec::new();
        let mut b: usize = 0;
        while b < branches
            invariant
                0 <= b <= branches,
                children@.len() == b,
                forall|k: int| 0 <= k < b ==> children@[k] is None,
            decreases branches - b,
        {
            children.push(None);
            b = b + 1;
        }
        let id = self.nodes.len();
        self.nodes.push(Some(ShapeNode { kind, children }));
        proof {
            let pre = old(self).nodes@;
            let slot = self.nodes@[id as int];
            assert(self.nodes@ =~= pre.push(slot));
            lemma_count_kind_push(pre, slot, NodeKind::ActiveLeaf, id as int);
            lemma_count_kind_push(pre, slot, NodeKind::InactiveLeaf, id as int);
            lemma_count_kind_push(pre, slot, NodeKind::SplitNode, id as int);
            lemma_count_live_push(pre, slot, id as int);
        }
        id
    }
}

impl TreeShape {
    /// Sets the child slot of a live node, growing its branch vector on
    /// demand; the shape's population is untouched.
    pub fn set_child(&mut self, parent: usize, branch: usize, child: usize)
        requires
            old(self).wf(),
            parent < old(self).nodes@.len(),
            old(self).nodes@[parent as int] is Some,
            branch < usize::MAX,
        ensures
            final(self).wf(),
            final(self).nodes@.len() == old(self).nodes@.len(),
            final(self).root == old(self).root,
            final(self).active_leaf_count == old(self).active_leaf_count,
            final(self).inactive_leaf_count == old(self).inactive_leaf_count,
            final(self).decision_node_count == old(self).decision_node_count,
            final(self).spec_node_count() == old(self).spec_node_count(),
            forall|j: int| 0 <= j < old(self).nodes@.len() && j != parent ==> final(self).nodes@[j]
                == old(self).nodes@[j],
            final(self).nodes@[parent as int] matches Some(sn) && sn.kind == old(
                self,
            ).nodes@[parent as int]->Some_0.kind && branch < sn.children@.len()
                && sn.children@[branch as int] == Some(child),
            forall|id: int| final(self).spec_kind_at(id) == old(self).spec_kind_at(id),
    {
        let taken = self.nodes[parent].take();
        match taken {
            Some(sn) => {
                let mut sn = sn;
                let ghost kind0 = sn.kind;
                while sn.children.len() <= branch
                    invariant
                        branch < usize::MAX,
                        sn.kind == kind0,
                    decreases branch + 1 - sn.children@.len(),
                {
                    sn.children.push(None);
                }
                sn.children[branch] = Some(child);
                self.nodes[parent] = Some(sn);
            },
            None => {
                self.nodes[parent] = None;
            },
        }
        proof {
            let pre = old(self).nodes@;
            let post = self.nodes@;
            assert(forall|j: int| 0 <= j < pre.len() && j != parent ==> post[j] == pre[j]);
            lemma_count_kind_update(pre, post, parent as int, NodeKind::ActiveLeaf, pre.len() as int);
            lemma_count_kind_update(
                pre,
                post,
                parent as int,
                NodeKind::InactiveLeaf,
                pre.len() as int,
            );
            lemma_count_kind_update(pre, post, parent as int, NodeKind::SplitNode, pre.len() as int);
            lemma_count_live_update(pre, post, parent as int, pre.len() as int);
        }
    }

    /// Grows a fresh active leaf on an unseen branch of a live node, as
    /// routing materialises children on demand.
    pub fn add_leaf_under(&mut self, parent: usize, branch: usize) -> (r: usize)
        requires
            old(self).wf(),
            parent < old(self).nodes@.len(),
            old(self).nodes@[parent as int] is Some,
            branch < usize::MAX,
            old(self).nodes@.len() < usize::MAX,
        ensures
            final(self).wf(),
            final(self).spec_kind_at(r as int) == Some(NodeKind::ActiveLeaf),
            final(self).active_leaf_count == old(self).active_leaf_count + 1,
            final(self).inactive_leaf_count == old(self).inactive_leaf_count,
            final(self).decision_node_count == old(self).decision_node_count,
            final(self).spec_node_count() == old(self).spec_node_count() + 1,
            final(self).root == old(self).root,
            final(self).nodes@[parent as int] matches Some(pn) && branch < pn.children@.len()
                && pn.children@[branch as int] == Some(r),
    {
        proof {
            lemma_count_bounds(old(self).nodes@, old(self).nodes@.len() as int);
        }
        let id = self.new_slot(NodeKind::ActiveLeaf, 0);
        self.active_leaf_count = self.active_leaf_count + 1;
        proof {
            match old(self).root {
                Some(rid) => {
                    assert(self.nodes@[rid as int] == old(self).nodes@[rid as int]);
                },
                None => {},
            }
            assert(self.nodes@[parent as int] == old(self).nodes@[parent as int]);
        }
        self.set_child(parent, branch, id);
        id
    }

    /// Demotes an active leaf under memory pressure: its slot keeps the
    /// class counts its owner holds beside the shape, but the leaf stops
    /// observing.  One leaf moves from the active to the inactive count.
    pub fn deactivate_leaf(&mut self, id: usize)
        requires
            old(self).wf(),
            old(self).spec_kind_at(id as int) == Some(NodeKind::ActiveLeaf),
        ensures
            final(self).wf(),
            final(self).spec_kind_at(id as int) == Some(NodeKind::InactiveLeaf),
            forall|j: int| j != id ==> final(self).spec_kind_at(j) == old(self).spec_kind_at(j),
            final(self).nodes@.len() == old(self).nodes@.len(),
            final(self).root == old(self).root,
            final(self).active_leaf_count == old(self).active_leaf_count - 1,
            final(self).inactive_leaf_count == old(self).inactive_leaf_count + 1,
            final(self).decision_node_count == old(self).decision_node_count,
            final(self).spec_node_count() == old(self).spec_node_count(),
    {
        proof {
            lemma_count_bounds(old(self).nodes@, old(self).nodes@.len() as int);
            lemma_count_kind_at_least_one(old(self).nodes@, id as int, NodeKind::ActiveLeaf);
            lemma_kind_counts_partition_live(old(self).nodes@, old(self).nodes@.len() as int);
        }
        let n = self.nodes.len();
        let taken = self.nodes[id].take();
        match taken {
            Some(sn) => {
                self.nodes[id] = Some(ShapeNode { kind: NodeKind::InactiveLeaf, children: sn.children });
            },
            None => {
                self.nodes[id] = None;
            },
        }
        proof {
            let pre = old(self).nodes@;
            let post = self.nodes@;
            lemma_count_kind_update(pre, post, id as int, NodeKind::ActiveLeaf, pre.len() as int);
            lemma_count_kind_update(pre, post, id as int, NodeKind::InactiveLeaf, pre.len() as int);
            lemma_count_kind_update(pre, post, id as int, NodeKind::SplitNode, pre.len() as int);
            lemma_count_live_update(pre, post, id as int, pre.len() as int);
        }
        self.active_leaf_count = self.active_leaf_count - 1;
        self.inactive_leaf_count = self.inactive_leaf_count + 1;
    }

    /// Restores a demoted leaf when memory returns: the reverse move.
    pub fn activate_leaf(&mut self, id: usize)
        requires
            old(self).wf(),
            old(self).spec_kind_at(id as int) == Some(NodeKind::InactiveLeaf),
        ensures
            final(self).wf(),
            final(self).spec_kind_at(id as int) == Some(NodeKind::ActiveLeaf),
            forall|j: int| j != id ==> final(self).spec_kind_at(j) == old(self).spec_kind_at(j),
            final(self).nodes@.len() == old(self).nodes@.len(),
            final(self).root == old(self).root,
            final(self).active_leaf_count == old(self).active_leaf_count + 1,
            final(self).inactive_leaf_count == old(self).inactive_leaf_count - 1,
            final(self).decision_node_count == old(self).decision_node_count,
            final(self).spec_node_count() == old(self).spec_node_count(),
    {
        proof {
            lemma_count_bounds(old(self).nodes@, old(self).nodes@.len() as int);
            lemma_count_kind_at_least_one(old(self).nodes@, id as int, NodeKind::InactiveLeaf);
            lemma_kind_counts_partition_live(old(self).nodes@, old(self).nodes@.len() as int);
        }
        let n = self.nodes.len();
        let taken = self.nodes[id].take();
        match taken {
            Some(sn) => {
                self.nodes[id] = Some(ShapeNode { kind: NodeKind::ActiveLeaf, children: sn.children });
            },
            None => {
                self.nodes[id] = None;
            },
        }
        proof {
            let pre = old(self).nodes@;
            let post = self.nodes@;
            lemma_count_kind_update(pre, post, id as int, NodeKind::ActiveLeaf, pre.len() as int);
            lemma_count_kind_update(pre, post, id as int, NodeKind::InactiveLeaf, pre.len() as int);
            lemma_count_kind_update(pre, post, id as int, NodeKind::SplitNode, pre.len() as int);
            lemma_count_live_update(pre, post, id as int, pre.len() as int);
        }
        self.active_leaf_count = self.active_leaf_count + 1;
        self.inactive_leaf_count = self.inactive_leaf_count - 1;
    }

    /// Converts an active leaf whose split decision fired: the leaf leaves
    /// the tree, a decision node takes its place in its parent (or as the
    /// root), and one fresh active leaf hangs under each branch.  The
    /// counts move exactly as the conversion says: the active-leaf count
    /// rises by the branch count less one, the decision count by one.
    pub fn split_leaf(&mut self, leaf: usize, branches: usize, parent: Option<(usize, usize)>) -> (r:
        usize)
        requires
            old(self).wf(),
            old(self).spec_kind_at(leaf as int) == Some(NodeKind::ActiveLeaf),
            1 <= branches,
            old(self).nodes@.len() + branches + 1 <= usize::MAX,
            match parent {
                Some((p, b)) => p < old(self).nodes@.len() && old(self).nodes@[p as int] is Some && p
                    != leaf && b < usize::MAX && old(self).root != Some(leaf),
                None => true,
            },
        ensures
            final(self).wf(),
            final(self).spec_kind_at(r as int) == Some(NodeKind::SplitNode),
            final(self).spec_kind_at(leaf as int) is None,
            final(self).active_leaf_count == old(self).active_leaf_count + branches - 1,
            final(self).inactive_leaf_count == old(self).inactive_leaf_count,
            final(self).decision_node_count == old(self).decision_node_count + 1,
            final(self).spec_node_count() == old(self).spec_node_count() + branches,
            // each branch of the new decision node holds a fresh active leaf
            final(self).nodes@[r as int] matches Some(sn) && sn.children@.len() == branches && (
            forall|b: int|
                #![trigger sn.children@[b]]
                0 <= b < branches ==> (sn.children@[b] is Some && final(self).spec_kind_at(
                    sn.children@[b]->Some_0 as int,
                ) == Some(NodeKind::ActiveLeaf))),
            match parent {
                Some((p, b)) => {
                    &&& final(self).root == old(self).root
                    &&& final(self).nodes@[p as int] matches Some(pn) && b < pn.children@.len()
                        && pn.children@[b as int] == Some(r)
                },
                None => final(self).root == Some(r),
            },
    {
        proof {
            lemma_count_bounds(old(self).nodes@, old(self).nodes@.len() as int);
            lemma_count_kind_at_least_one(old(self).nodes@, leaf as int, NodeKind::ActiveLeaf);
            lemma_kind_counts_partition_live(old(self).nodes@, old(self).nodes@.len() as int);
        }
        // the converted leaf leaves the tree
        self.nodes[leaf] = None;
        proof {
            let pre = old(self).nodes@;
            let post = self.nodes@;
            lemma_count_kind_update(pre, post, leaf as int, NodeKind::ActiveLeaf, pre.len() as int);
            lemma_count_kind_update(pre, post, leaf as int, NodeKind::InactiveLeaf, pre.len() as int);
            lemma_count_kind_update(pre, post, leaf as int, NodeKind::SplitNode, pre.len() as int);
            lemma_count_live_update(pre, post, leaf as int, pre.len() as int);
        }
        self.active_leaf_count = self.active_leaf_count - 1;

        // one fresh leaf per branch
        let ghost mid = self.nodes@;
        let mut children: Vec<Option<usize>> = Vec::new();
        let mut b: usize = 0;
        while b < branches
            invariant
                0 <= b <= branches,
                self.nodes@.len() == mid.len() + b,
                self.nodes@.len() + (branches - b) + 1 <= usize::MAX,
                children@.len() == b,
                forall|k: int| 0 <= k < mid.len() ==> self.nodes@[k] == mid[k],
                forall|k: int| 0 <= k < b ==> (#[trigger] children@[k]) == Some((mid.len() + k) as usize),
                forall|k: int|
                    mid.len() <= k < self.nodes@.len() ==> ((#[trigger] self.nodes@[k]) matches Some(
                        sn,
                    ) && sn.kind == NodeKind::ActiveLeaf),
                count_kind(self.nodes@, NodeKind::ActiveLeaf, self.nodes@.len() as int) == count_kind(
                    mid,
                    NodeKind::ActiveLeaf,
                    mid.len() as int,
                ) + b,
                count_kind(self.nodes@, NodeKind::InactiveLeaf, self.nodes@.len() as int)
                    == count_kind(mid, NodeKind::InactiveLeaf, mid.len() as int),
                count_kind(self.nodes@, NodeKind::SplitNode, self.nodes@.len() as int) == count_kind(
                    mid,
                    NodeKind::SplitNode,
                    mid.len() as int,
                ),
                count_live(self.nodes@, self.nodes@.len() as int) == count_live(
                    mid,
                    mid.len() as int,
                ) + b,
                self.root == old(self).root,
                self.active_leaf_count == old(self).active_leaf_count - 1,
                self.inactive_leaf_count == old(self).inactive_leaf_count,
                self.decision_node_count == old(self).decision_node_count,
            decreases branches - b,
        {
            let cid = self.new_slot(NodeKind::ActiveLeaf, 0);
            children.push(Some(cid));
            b = b + 1;
        }

        // the decision node that replaces the leaf
        let id = self.nodes.len();
        let ghost pre = self.nodes@;
        self.nodes.push(Some(ShapeNode { kind: NodeKind::SplitNode, children }));
        proof {
            let slot = self.nodes@[id as int];
            assert(self.nodes@ =~= pre.push(slot));
            lemma_count_kind_push(pre, slot, NodeKind::ActiveLeaf, id as int);
            lemma_count_kind_push(pre, slot, NodeKind::InactiveLeaf, id as int);
            lemma_count_kind_push(pre, slot, NodeKind::SplitNode, id as int);
            lemma_count_live_push(pre, slot, id as int);
        }
        self.active_leaf_count = self.active_leaf_count + branches;
        self.decision_node_count = self.decision_node_count + 1;
        proof {
            assert(self.active_leaf_count == count_kind(
                self.nodes@,
                NodeKind::ActiveLeaf,
                self.nodes@.len() as int,
            ));
            assert(self.inactive_leaf_count == count_kind(
                self.nodes@,
                NodeKind::InactiveLeaf,
                self.nodes@.len() as int,
            ));
            assert(self.decision_node_count == count_kind(
                self.nodes@,
                NodeKind::SplitNode,
                self.nodes@.len() as int,
            ));
            assert(count_live(self.nodes@, self.nodes@.len() as int) == old(
                self,
            ).spec_node_count() + branches);
            match old(self).root {
                Some(rid) => {
                    if rid != leaf {
                        assert(self.nodes@[rid as int] == pre[rid as int]);
                        assert(pre[rid as int] == mid[rid as int]);
                        assert(mid[rid as int] == old(self).nodes@[rid as int]);
                    }
                },
                None => {},
            }
            match parent {
                Some((p, pb)) => {
                    assert(self.nodes@[p as int] == pre[p as int]);
                    assert(pre[p as int] == mid[p as int]);
                    assert(mid[p as int] == old(self).nodes@[p as int]);
                },
                None => {},
            }
        }

        // hang the decision node where the leaf stood
        match parent {
            None => {
                self.root = Some(id);
            },
            Some((p, pb)) => {
                self.set_child(p, pb, id);
            },
        }
        id
    }
}

impl TreeShape {
    /// The slots holding learning leaves, in slot order: the population the
    /// memory manager ranks.
    pub fn find_learning_nodes(&self) -> (r: Vec<usize>)
        ensures
            forall|k: int|
                0 <= k < r@.len() ==> (self.spec_kind_at(#[trigger] r@[k] as int) == Some(
                    NodeKind::ActiveLeaf,
                ) || self.spec_kind_at(r@[k] as int) == Some(NodeKind::InactiveLeaf)),
            forall|k1: int, k2: int| 0 <= k1 < k2 < r@.len() ==> r@[k1] < r@[k2],
            forall|id: int|
                0 <= id < self.nodes@.len() && (self.spec_kind_at(id) == Some(NodeKind::ActiveLeaf)
                    || self.spec_kind_at(id) == Some(NodeKind::InactiveLeaf)) ==> r@.contains(
                    id as usize,
                ),
    {
        let mut out: Vec<usize> = Vec::new();
        let mut i: usize = 0;
        while i < self.nodes.len()
            invariant
                0 <= i <= self.nodes@.len(),
                forall|k: int|
                    0 <= k < out@.len() ==> (self.spec_kind_at(#[trigger] out@[k] as int) == Some(
                        NodeKind::ActiveLeaf,
                    ) || self.spec_kind_at(out@[k] as int) == Some(NodeKind::InactiveLeaf)),
                forall|k: int| 0 <= k < out@.len() ==> out@[k] < i,
                forall|k1: int, k2: int| 0 <= k1 < k2 < out@.len() ==> out@[k1] < out@[k2],
                forall|id: int|
                    0 <= id < i && (self.spec_kind_at(id) == Some(NodeKind::ActiveLeaf)
                        || self.spec_kind_at(id) == Some(NodeKind::InactiveLeaf)) ==> out@.contains(
                        id as usize,
                    ),
            decreases self.nodes@.len() - i,
        {
            let keep = match &self.nodes[i] {
                Some(sn) => match sn.kind {
                    NodeKind::ActiveLeaf => true,
                    NodeKind::InactiveLeaf => true,
                    NodeKind::SplitNode => false,
                },
                None => false,
            };
            let ghost pre = out@;
            if keep {
                out.push(i);
            }
            proof {
                assert forall|id: int|
                    0 <= id < i + 1 && (self.spec_kind_at(id) == Some(NodeKind::ActiveLeaf)
                        || self.spec_kind_at(id) == Some(NodeKind::InactiveLeaf)) implies out@
                    .contains(id as usize) by {
                    if id < i {
                        assert(pre.contains(id as usize));
                        let w = choose|w: int| 0 <= w < pre.len() && pre[w] == id as usize;
                        assert(out@[w] == id as usize);
                    } else {
                        assert(keep);
                        assert(out@[out@.len() - 1] == id as usize);
                    }
                }
            }
            i = i + 1;
        }
        out
    }
}

/// Where routing an instance ended: at a node (a leaf, or a split node
/// whose attribute the instance is missing), or at an unfilled branch,
/// named by its parent and branch index so the caller can grow a leaf
/// there.
pub struct FoundNode {
    pub node: Option<usize>,
    pub parent: Option<usize>,
    pub parent_branch: Option<usize>,
}

/// One routing descent, as the split-node rules say: at a decision node
/// whose test routes the instance, a filled branch is followed, an empty
/// branch ends the walk with no node and the parent named; a test that
/// cannot read its attribute stops at that decision node; any other slot
/// is the found node.  `fuel` bounds the walk, one step per slot and one
/// to spare, so a malformed link structure still ends somewhere.
pub open spec fn spec_route(
    nodes: Seq<Option<ShapeNode>>,
    tests: Seq<Option<crate::conditional_tests::InstanceConditionalTest>>,
    inst: crate::instances::Instance,
    current: usize,
    parent: Option<usize>,
    parent_branch: Option<usize>,
    fuel: nat,
) -> FoundNode
    decreases fuel,
{
    let at_split = current < nodes.len() && (nodes[current as int] matches Some(sn) && sn.kind
        == NodeKind::SplitNode);
    if fuel == 0 || !at_split || current >= tests.len() || tests[current as int] is None {
        FoundNode { node: Some(current), parent, parent_branch }
    } else {
        let t = tests[current as int]->Some_0;
        match t.spec_branch(&inst) {
            None => FoundNode { node: Some(current), parent, parent_branch },
            Some(b) => {
                let sn = nodes[current as int]->Some_0;
                if b < sn.children@.len() && sn.children@[b as int] is Some {
                    spec_route(
                        nodes,
                        tests,
                        inst,
                        sn.children@[b as int]->Some_0,
                        Some(current),
                        Some(b),
                        (fuel - 1) as nat,
                    )
                } else {
                    FoundNode { node: None, parent: Some(current), parent_branch: Some(b) }
                }
            },
        }
    }
}

/// Routes an instance from the root: at every decision node the node's
/// test picks the branch, and the walk ends at a leaf, at a decision node
/// missing its attribute, or at an unfilled branch.  `tests` holds each
/// decision node's test at the node's own slot.
pub fn filter_to_leaf(
    shape: &TreeShape,
    tests: &Vec<Option<crate::conditional_tests::InstanceConditionalTest>>,
    model: &crate::instances::Instance,
) -> (r: FoundNode)
    requires
        shape.root is Some,
        shape.nodes@.len() < usize::MAX,
        forall|i: int|
            0 <= i < tests@.len() && (#[trigger] tests@[i]) is Some
                ==> tests@[i]->Some_0.spec_attribute_index() < usize::MAX,
    ensures
        r == spec_route(
            shape.nodes@,
            tests@,
            *model,
            shape.root->Some_0,
            None::<usize>,
            None::<usize>,
            (shape.nodes@.len() + 1) as nat,
        ),
{
    let root = match shape.root {
        Some(rid) => rid,
        None => 0,
    };
    let mut current: usize = root;
    let mut parent: Option<usize> = None;
    let mut parent_branch: Option<usize> = None;
    let mut fuel: usize = shape.nodes.len() + 1;
    loop
        invariant
            shape.root == Some(root),
            shape.nodes@.len() < usize::MAX,
            forall|i: int|
                0 <= i < tests@.len() && (#[trigger] tests@[i]) is Some
                    ==> tests@[i]->Some_0.spec_attribute_index() < usize::MAX,
            spec_route(
                shape.nodes@,
                tests@,
                *model,
                root,
                None::<usize>,
                None::<usize>,
                (shape.nodes@.len() + 1) as nat,
            ) == spec_route(
                shape.nodes@,
                tests@,
                *model,
                current,
                parent,
                parent_branch,
                fuel as nat,
            ),
        decreases fuel,
    {
        let ghost here = spec_route(
            shape.nodes@,
            tests@,
            *model,
            current,
            parent,
            parent_branch,
            fuel as nat,
        );
        let at_split = match shape.kind_at(current) {
            Some(NodeKind::SplitNode) => true,
            _ => false,
        };
        if fuel == 0 || !at_split || current >= tests.len() {
            proof {
                assert(here == FoundNode { node: Some(current), parent, parent_branch });
            }
            return FoundNode { node: Some(current), parent, parent_branch };
        }
        match &tests[current] {
            None => {
                proof {
                    assert(here == FoundNode { node: Some(current), parent, parent_branch });
                }
                return FoundNode { node: Some(current), parent, parent_branch };
            },
            Some(t) => {
                match t.branch_for_instance(model) {
                    None => {
                        proof {
                            assert(here == FoundNode { node: Some(current), parent, parent_branch });
                        }
                        return FoundNode { node: Some(current), parent, parent_branch };
                    },
                    Some(b) => {
                        match shape.child_of(current, b) {
                            Some(child) => {
                                proof {
                                    assert(here == spec_route(
                                        shape.nodes@,
                                        tests@,
                                        *model,
                                        child,
                                        Some(current),
                                        Some(b),
                                        (fuel - 1) as nat,
                                    ));
                                }
                                parent = Some(current);
                                parent_branch = Some(b);
                                current = child;
                                fuel = fuel - 1;
                            },
                            None => {
                                proof {
                                    assert(here == FoundNode {
                                        node: None,
                                        parent: Some(current),
                                        parent_branch: Some(b),
                                    });
                                }
                                return FoundNode {
                                    node: None,
                                    parent: Some(current),
                                    parent_branch: Some(b),
                                };
                            },
                        }
                    },
                }
            },
        }
    }
}

/// Sorts positions by their promise keys, keeping the original order among
/// equal keys: the exact order the memory manager deactivates in.  The
/// result holds each position below `promises.len()` exactly once,
/// arranged so that the keys run nondecreasing.
pub fn rank_by_promise(promises: &Vec<u64>) -> (r: Vec<usize>)
    ensures
        r@.len() == promises@.len(),
        forall|k: int| 0 <= k < r@.len() ==> r@[k] < promises@.len(),
        forall|k1: int, k2: int| 0 <= k1 < k2 < r@.len() ==> r@[k1] != r@[k2],
        forall|k1: int, k2: int|
            0 <= k1 < k2 < r@.len() ==> promises@[r@[k1] as int] <= promises@[r@[k2] as int],
        forall|k1: int, k2: int|
            0 <= k1 < k2 < r@.len() && promises@[r@[k1] as int] == promises@[r@[k2] as int]
                ==> r@[k1] < r@[k2],
{
    let mut order: Vec<usize> = Vec::new();
    let mut next: usize = 0;
    while next < promises.len()
        invariant
            0 <= next <= promises@.len(),
            order@.len() == next,
            forall|k: int| 0 <= k < order@.len() ==> order@[k] < next,
            forall|k1: int, k2: int| 0 <= k1 < k2 < order@.len() ==> order@[k1] != order@[k2],
            forall|k1: int, k2: int|
                0 <= k1 < k2 < order@.len() ==> promises@[order@[k1] as int]
                    <= promises@[order@[k2] as int],
            forall|k1: int, k2: int|
                0 <= k1 < k2 < order@.len() && promises@[order@[k1] as int]
                    == promises@[order@[k2] as int] ==> order@[k1] < order@[k2],
        decreases promises@.len() - next,
    {
        // insert `next` before the first strictly larger key, after equals
        let key = promises[next];
        let mut pos: usize = 0;
        while pos < order.len() && promises[order[pos]] <= key
            invariant
                0 <= pos <= order@.len(),
                next < promises@.len(),
                forall|k: int| 0 <= k < order@.len() ==> order@[k] < next,
                forall|k: int| 0 <= k < pos ==> promises@[order@[k] as int] <= key,
                key == promises@[next as int],
            decreases order@.len() - pos,
        {
            pos = pos + 1;
        }
        proof {
            if pos < order@.len() {
                assert(promises@[order@[pos as int] as int] > key);
            }
        }
        let ghost pre = order@;
        order.insert(pos, next);
        proof {
            assert(order@ == pre.insert(pos as int, next));
            assert forall|k: int| 0 <= k < order@.len() implies order@[k] < next + 1 by {}
        }
        next = next + 1;
    }
    order
}

/// The promise discipline of leaf deactivation: in a promise ranking, every
/// position kept (at or past a cutoff) carries at least the promise of
/// every position dropped (before the cutoff).
pub proof fn lemma_promise_partition(promises: Seq<u64>, order: Seq<usize>, cutoff: int)
    requires
        order.len() == promises.len(),
        forall|k: int| 0 <= k < order.len() ==> order[k] < promises.len(),
        forall|k1: int, k2: int|
            0 <= k1 < k2 < order.len() ==> promises[order[k1] as int] <= promises[order[k2] as int],
        0 <= cutoff <= order.len(),
    ensures
        forall|i: int, j: int|
            0 <= i < cutoff && cutoff <= j < order.len() ==> promises[order[i] as int]
                <= promises[order[j] as int],
{
}

/// A live slot of some kind makes that kind's count positive.
proof fn lemma_count_kind_at_least_one(nodes: Seq<Option<ShapeNode>>, at: int, kind: NodeKind)
    requires
        0 <= at < nodes.len(),
        nodes[at] matches Some(sn) && sn.kind == kind,
    ensures
        count_kind(nodes, kind, nodes.len() as int) >= 1,
{
    lemma_count_kind_suffix(nodes, at, kind, nodes.len() as int);
}

proof fn lemma_count_kind_nonneg(nodes: Seq<Option<ShapeNode>>, kind: NodeKind, n: int)
    requires
        n <= nodes.len(),
    ensures
        count_kind(nodes, kind, n) >= 0,
    decreases n,
{
    if n > 0 {
        lemma_count_kind_nonneg(nodes, kind, n - 1);
    }
}

proof fn lemma_count_kind_suffix(nodes: Seq<Option<ShapeNode>>, at: int, kind: NodeKind, n: int)
    requires
        0 <= at < n <= nodes.len(),
        nodes[at] matches Some(sn) && sn.kind == kind,
    ensures
        count_kind(nodes, kind, n) >= 1,
    decreases n,
{
    if at < n - 1 {
        lemma_count_kind_suffix(nodes, at, kind, n - 1);
        lemma_count_kind_nonneg(nodes, kind, n - 1);
    } else {
        lemma_count_kind_nonneg(nodes, kind, n - 1);
    }
}

/// Counts lie within the prefix length.
proof fn lemma_count_bounds(nodes: Seq<Option<ShapeNode>>, n: int)
    requires
        n <= nodes.len(),
    ensures
        0 <= count_live(nodes, n) <= if n >= 0 {
            n
        } else {
            0
        },
        0 <= count_kind(nodes, NodeKind::ActiveLeaf, n) <= count_live(nodes, n),
        0 <= count_kind(nodes, NodeKind::InactiveLeaf, n) <= count_live(nodes, n),
        0 <= count_kind(nodes, NodeKind::SplitNode, n) <= count_live(nodes, n),
    decreases n,
{
    if n > 0 {
        lemma_count_bounds(nodes, n - 1);
    }
}

} // verus!
