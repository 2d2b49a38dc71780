//! The folder tree of a vault, kept in an append-only arena.

use vstd::prelude::*;

verus! {

/// What a node of the vault tree stands for.
#[derive(Debug, Clone, Copy, PartialEq, Eq, Structural)]
pub enum ItemType {
    File,
    Folder,
    Note,
    Root,
}

/// One node of the arena: its own index, what it is, the indices of its
/// children in the order they were added, and its depth below the root.
#[derive(Debug)]
pub struct TreeNode {
    pub name: String,
    pub index: usize,
    pub item: ItemType,
    pub children: Vec<usize>,
    pub depth: u32,
}

impl TreeNode {
    fn new(index: usize, item: ItemType, name: String, depth: u32) -> (r: Self)
        ensures
            r.index == index,
            r.item == item,
            r.name == name,
            r.depth == depth,
            r.children@.len() == 0,
    {
        TreeNode { name, index, item, children: Vec::new(), depth }
    }
}

/// `c` is listed among the children of node `p`.
pub open spec fn is_child_of(nodes: Seq<TreeNode>, c: int, p: int) -> bool {
    0 <= p < nodes.len() && 0 <= c < nodes.len() && nodes[p].children@.contains(c as usize)
}

/// Some node lists `c` among its children.
pub open spec fn has_parent(nodes: Seq<TreeNode>, c: int) -> bool {
    exists|p: int| #[trigger] is_child_of(nodes, c, p)
}

/// The shape every tree keeps: node 0 is the root at depth 0; each node knows
/// its own index; every child comes after its parent in the arena and sits one
/// level deeper; every node but the root has exactly one parent.
pub open spec fn arena_wf(nodes: Seq<TreeNode>) -> bool {
    &&& nodes.len() >= 1
    &&& nodes[0].item == ItemType::Root
    &&& nodes[0].depth == 0
    &&& forall|i: int| 0 <= i < nodes.len() ==> (#[trigger] nodes[i]).index == i
    &&& forall|p: int, k: int|
        0 <= p < nodes.len() && 0 <= k < nodes[p].children@.len() ==> {
            let c = #[trigger] nodes[p].children@[k] as int;
            &&& p < c < nodes.len()
            &&& nodes[c].depth == nodes[p].depth + 1
        }
    &&& forall|c: int| 0 < c < nodes.len() ==> #[trigger] has_parent(nodes, c)
    &&& forall|c: int, p: int, q: int|
        #[trigger] is_child_of(nodes, c, p) && #[trigger] is_child_of(nodes, c, q) ==> p == q
    &&& forall|p: int| 0 <= p < nodes.len() ==> (#[trigger] nodes[p].children@).no_duplicates()
}

/// The indices of the subtree rooted at `i`, in pre-order: the node itself,
/// then the flattened subtree of each child in the order the children were added.
pub open spec fn preorder(nodes: Seq<TreeNode>, i: int) -> Seq<int>
    decreases nodes.len() - i, 1int,
{
    if 0 <= i < nodes.len() {
        seq![i] + preorder_children(nodes, i, 0)
    } else {
        Seq::empty()
    }
}

/// The flattened subtrees of the children of `i`, from its `k`-th child on.
pub open spec fn preorder_children(nodes: Seq<TreeNode>, i: int, k: int) -> Seq<int>
    decreases nodes.len() - i, 0int, nodes[i].children@.len() - k,
{
    if 0 <= i < nodes.len() && 0 <= k < nodes[i].children@.len() {
        let c = nodes[i].children@[k] as int;
        let rest = preorder_children(nodes, i, k + 1);
        if i < c < nodes.len() {
            preorder(nodes, c) + rest
        } else {
            rest
        }
    } else {
        Seq::empty()
    }
}

/// `new` is `old` with one more node, named `name`, of kind `item`, added as
/// the last child of `parent` and one level below it.
pub open spec fn child_added(
    old: Seq<TreeNode>,
    new: Seq<TreeNode>,
    parent: int,
    name: Seq<char>,
    item: ItemType,
) -> bool {
    &&& new.len() == old.len() + 1
    &&& new[parent].children@ == old[parent].children@.push(old.len() as usize)
    &&& new[parent].name == old[parent].name
    &&& new[parent].item == old[parent].item
    &&& new[parent].depth == old[parent].depth
    &&& new.last().name@ == name
    &&& new.last().item == item
    &&& new.last().depth == old[parent].depth + 1
    &&& new.last().children@.len() == 0
    &&& forall|i: int| 0 <= i < old.len() && i != parent ==> new[i] == old[i]
}

/// The folder hierarchy of a vault, kept in an append-only arena: a node's
/// index never changes and is never reused.
#[derive(Debug)]
pub struct Tree {
    arena: Vec<TreeNode>,
}

impl View for Tree {
    type V = Seq<TreeNode>;

    closed spec fn view(&self) -> Seq<TreeNode> {
        self.arena@
    }
}

impl Tree {
    pub open spec fn wf(&self) -> bool {
        arena_wf(self@)
    }

    /// A tree that holds the root alone.
    pub fn new() -> (r: Self)
        ensures
            r.wf(),
            r@.len() == 1,
            r@[0].name@ == "root"@,
            r@[0].children@.len() == 0,
    {
        let mut t = Tree { arena: Vec::new() };
        t.add_node("root".to_string(), ItemType::Root, 0);
        assert(t@.len() == 1);
        t
    }

    /// A tree that holds the root alone, under the given name.
    pub fn with_root_name(name: String) -> (r: Self)
        ensures
            r.wf(),
            r@.len() == 1,
            r@[0].name == name,
            r@[0].children@.len() == 0,
    {
        let mut t = Tree { arena: Vec::new() };
        t.add_node(name, ItemType::Root, 0);
        assert(t@.len() == 1);
        t
    }

    pub fn get_root(&self) -> (r: &TreeNode)
        requires
            self.wf(),
        ensures
            *r == self@[0],
    {
        &self.arena[0]
    }

    pub fn get_node(&self, index: usize) -> (r: Option<&TreeNode>)
        ensures
            index < self@.len() ==> r == Some(&self@[index as int]),
            index >= self@.len() ==> r is None,
    {
        if index < self.arena.len() {
            Some(&self.arena[index])
        } else {
            None
        }
    }

    /// Mutable access to one node; the rest of the arena stays as it was.
    pub fn get_node_mut(&mut self, index: usize) -> (r: Option<&mut TreeNode>)
        ensures
            index < old(self)@.len() ==> (r matches Some(n) && *n == old(self)@[index as int]
                && final(self)@ == old(self)@.update(index as int, *final(n))),
            index >= old(self)@.len() ==> r is None && final(self)@ == old(self)@,
    {
        if index < self.arena.len() {
            Some(&mut self.arena[index])
        } else {
            None
        }
    }

    pub fn has_node(&self, index: usize) -> (r: bool)
        ensures
            r == (index < self@.len()),
    {
        self.arena.len() > index
    }

    /// Adds a node below `parent`, one level deeper, and returns its index:
    /// the next free slot of the arena. Returns `None`, leaving the tree as it
    /// was, where `parent` is no node or where its depth is the largest a
    /// node can have.
    pub fn add_child(&mut self, parent: usize, name: String, item: ItemType) -> (r: Option<usize>)
        requires
            old(self).wf(),
        ensures
            final(self).wf(),
            (parent < old(self)@.len() && old(self)@[parent as int].depth < u32::MAX) ==> {
                &&& r == Some(old(self)@.len() as usize)
                &&& child_added(old(self)@, final(self)@, parent as int, name@, item)
                &&& final(self)@.last().name == name
            },
            !(parent < old(self)@.len() && old(self)@[parent as int].depth < u32::MAX) ==> {
                &&& r is None
                &&& final(self)@ == old(self)@
            },
    {
        if !self.has_node(parent) {
            return None;
        }
        let depth = self.arena[parent].depth;
        if depth == u32::MAX {
            return None;
        }
        let ghost nodes0 = self@;
        let idx = self.add_node(name, item, depth + 1);
        let ghost nodes1 = self@;
        {
            let parent_node = &mut self.arena[parent];
            parent_node.children.push(idx);
        }
        let ghost nodes2 = self@;
        assert forall|p: int, k: int|
            0 <= p < nodes2.len() && 0 <= k < nodes2[p].children@.len() implies {
                let c = #[trigger] nodes2[p].children@[k] as int;
                &&& p < c < nodes2.len()
                &&& nodes2[c].depth == nodes2[p].depth + 1
            } by {
            if p != parent || k < nodes0[p].children@.len() {
                assert(nodes2[p].children@[k] == nodes0[p].children@[k]);
            }
        }
        assert forall|c: int| 0 < c < nodes2.len() implies #[trigger] has_parent(nodes2, c) by {
            if c == idx {
                assert(nodes2[parent as int].children@.last() == idx);
                assert(is_child_of(nodes2, c, parent as int));
            } else {
                assert(has_parent(nodes0, c));
                let p = choose|p: int| #[trigger] is_child_of(nodes0, c, p);
                let k = choose|k: int| 0 <= k < nodes0[p].children@.len() && nodes0[p].children@[k] == c as usize;
                assert(nodes2[p].children@[k] == c as usize);
                assert(is_child_of(nodes2, c, p));
            }
        }
        assert forall|c: int, p: int, q: int|
            #[trigger] is_child_of(nodes2, c, p) && #[trigger] is_child_of(nodes2, c, q) implies p == q by {
            lemma_child_in_old(nodes0, nodes2, parent as int, idx as int, c, p);
            lemma_child_in_old(nodes0, nodes2, parent as int, idx as int, c, q);
        }
        assert forall|p: int| 0 <= p < nodes2.len() implies (#[trigger] nodes2[p].children@).no_duplicates() by {
            if p == parent {
                assert forall|a: int, b: int|
                    0 <= a < b < nodes2[p].children@.len() implies nodes2[p].children@[a]
                    != nodes2[p].children@[b] by {
                    if b == nodes2[p].children@.len() - 1 {
                        assert(nodes0[p].children@[a] < idx);
                    }
                }
            }
        }
        assert(nodes2.last() == nodes1.last());
        Some(idx)
    }

    /// Every node of the subtree rooted at `node_index`, in pre-order.
    pub fn as_flat_vec(&self, node_index: usize) -> (r: Vec<&TreeNode>)
        requires
            self.wf(),
            node_index < self@.len(),
        ensures
            r@.len() == preorder(self@, node_index as int).len(),
            forall|k: int|
                0 <= k < r@.len() ==> *r@[k] == self@[preorder(self@, node_index as int)[k]],
        decreases self@.len() - node_index,
    {
        let node = &self.arena[node_index];
        let ghost total = preorder(self@, node_index as int);
        let mut nodes: Vec<&TreeNode> = Vec::new();
        nodes.push(node);
        let ghost mut done: Seq<int> = seq![node_index as int];
        let mut i: usize = 0;
        while i < node.children.len()
            invariant
                self.wf(),
                node_index < self@.len(),
                *node == self@[node_index as int],
                total == preorder(self@, node_index as int),
                i <= node.children@.len(),
                done + preorder_children(self@, node_index as int, i as int) == total,
                nodes@.len() == done.len(),
                forall|k: int| 0 <= k < nodes@.len() ==> *nodes@[k] == self@[done[k]],
            decreases node.children@.len() - i,
        {
            let c = node.children[i];
            assert(self@[node_index as int].children@[i as int] == c);
            let mut sub = self.as_flat_vec(c);
            let ghost sub_s = preorder(self@, c as int);
            assert(preorder_children(self@, node_index as int, i as int) == sub_s
                + preorder_children(self@, node_index as int, i + 1));
            assert(done + preorder_children(self@, node_index as int, i as int) == (done + sub_s)
                + preorder_children(self@, node_index as int, i + 1));
            let ghost old_nodes = nodes@;
            let ghost sub_v = sub@;
            nodes.append(&mut sub);
            proof {
                assert forall|k: int| 0 <= k < nodes@.len() implies *nodes@[k] == self@[(done
                    + sub_s)[k]] by {
                    if k >= old_nodes.len() {
                        assert(nodes@[k] == sub_v[k - old_nodes.len()]);
                    }
                }
                done = done + sub_s;
            }
            i = i + 1;
        }
        assert(done == total);
        nodes
    }

    fn add_node(&mut self, name: String, item: ItemType, depth: u32) -> (idx: usize)
        ensures
            idx == old(self)@.len(),
            final(self)@ == old(self)@.push(TreeNode { name, index: idx, item, children: final(self)@.last().children, depth }),
            final(self)@.last().children@.len() == 0,
    {
        let idx = self.arena.len();
        self.arena.push(TreeNode::new(idx, item, name, depth));
        idx
    }
}

/// In every tree the root sits at depth 0, every other node has a parent, and
/// each node sits exactly one level below the node that lists it as a child.
pub proof fn lemma_tree_depths(t: &Tree)
    requires
        t.wf(),
    ensures
        t@[0].depth == 0,
        forall|c: int| 0 < c < t@.len() ==> #[trigger] has_parent(t@, c),
        forall|c: int, p: int|
            #[trigger] is_child_of(t@, c, p) ==> c != 0 && t@[c].depth == t@[p].depth + 1,
{
    assert forall|c: int, p: int| #[trigger] is_child_of(t@, c, p) implies c != 0 && t@[c].depth
        == t@[p].depth + 1 by {
        let k = choose|k: int| 0 <= k < t@[p].children@.len() && t@[p].children@[k] == c as usize;
        assert(t@[p].children@[k] as int == c);
    }
}

/// The pre-order flattening of a subtree starts with its root, and the
/// flattened subtrees of the root's children follow one another in the order
/// in which the children were added.
pub proof fn lemma_preorder_shape(t: &Tree, i: int)
    requires
        t.wf(),
        0 <= i < t@.len(),
    ensures
        preorder(t@, i)[0] == i,
        preorder(t@, i) == seq![i] + preorder_children(t@, i, 0),
        forall|k: int|
            0 <= k < t@[i].children@.len() ==> #[trigger] preorder_children(t@, i, k) == preorder(
                t@,
                t@[i].children@[k] as int,
            ) + preorder_children(t@, i, k + 1),
        preorder_children(t@, i, t@[i].children@.len() as int) == Seq::<int>::empty(),
{
}

proof fn lemma_child_in_old(
    nodes0: Seq<TreeNode>,
    nodes2: Seq<TreeNode>,
    parent: int,
    idx: int,
    c: int,
    p: int,
)
    requires
        arena_wf(nodes0),
        idx == nodes0.len(),
        idx <= usize::MAX,
        0 <= parent < nodes0.len(),
        nodes2.len() == idx + 1,
        nodes2[parent].children@ == nodes0[parent].children@.push(idx as usize),
        nodes2[idx].children@.len() == 0,
        forall|i: int| 0 <= i < nodes0.len() && i != parent ==> nodes2[i] == nodes0[i],
        is_child_of(nodes2, c, p),
    ensures
        c == idx ==> p == parent,
        c != idx ==> is_child_of(nodes0, c, p),
{
    let k = choose|k: int| 0 <= k < nodes2[p].children@.len() && nodes2[p].children@[k] == c as usize;
    assert(p != idx);
    if c != idx {
        assert(c < nodes0.len());
        if p == parent {
            assert(k < nodes0[p].children@.len());
        }
        assert(nodes0[p].children@[k] == c as usize);
        assert(nodes0[p].children@.contains(c as usize));
    } else if p != parent {
        assert(nodes0[p].children@[k] == c as usize);
        assert(c < nodes0.len());
    }
}

} // verus!
