use vstd::prelude::*;
use crate::strings::{decimal, push_char, push_decimal, push_str};

verus! {

/// How a split divides its area.
#[derive(Debug, Clone, Copy, PartialEq, Eq)]
pub enum SplitDir {
    Horizontal,
    Vertical,
}

/// A tile, or an area split in two.
#[derive(Debug)]
pub enum Node {
    Leaf { id: u64 },
    Split { dir: SplitDir, a: Box<Node>, b: Box<Node> },
}

/// A tree of tiles, the tile in front, and the id the next tile gets.
#[derive(Debug)]
pub struct LayoutTree {
    root: Node,
    next_id: u64,
    active: u64,
}

/// `node` with each leaf `target` split in `dir` into itself and `new_id`,
/// and whether any was. Below a split, the split's own direction is passed on.
pub open spec fn split_spec(node: Node, target: u64, new_id: u64, dir: SplitDir) -> (Node, bool)
    decreases node,
{
    match node {
        Node::Leaf { id } => if id == target {
            (
                Node::Split {
                    dir,
                    a: Box::new(Node::Leaf { id }),
                    b: Box::new(Node::Leaf { id: new_id }),
                },
                true,
            )
        } else {
            (node, false)
        },
        Node::Split { dir: d, a, b } => {
            let (na, ra) = split_spec(*a, target, new_id, d);
            let (nb, rb) = split_spec(*b, target, new_id, d);
            (Node::Split { dir: d, a: Box::new(na), b: Box::new(nb) }, ra || rb)
        },
    }
}

/// Some leaf of `node` is `id`.
pub open spec fn contains_spec(node: Node, id: u64) -> bool
    decreases node,
{
    match node {
        Node::Leaf { id: l } => l == id,
        Node::Split { a, b, .. } => contains_spec(*a, id) || contains_spec(*b, id),
    }
}

/// `L<id>` for a leaf, `H(a,b)` or `V(a,b)` for a split.
pub open spec fn describe_spec(node: Node) -> Seq<char>
    decreases node,
{
    match node {
        Node::Leaf { id } => seq!['L'] + decimal(id as nat),
        Node::Split { dir, a, b } => (match dir {
            SplitDir::Horizontal => seq!['H'],
            SplitDir::Vertical => seq!['V'],
        }) + seq!['('] + describe_spec(*a) + seq![','] + describe_spec(*b) + seq![')'],
    }
}

/// The leaf ids of `node`, left to right.
pub open spec fn leaves_spec(node: Node) -> Seq<u64>
    decreases node,
{
    match node {
        Node::Leaf { id } => seq![id],
        Node::Split { a, b, .. } => leaves_spec(*a) + leaves_spec(*b),
    }
}

impl LayoutTree {
    pub closed spec fn root_spec(&self) -> Node {
        self.root
    }

    pub closed spec fn active_spec(&self) -> u64 {
        self.active
    }

    pub closed spec fn next_spec(&self) -> u64 {
        self.next_id
    }

    /// One tile, 1, in front.
    pub fn new() -> (t: Self)
        ensures
            t.root_spec() == (Node::Leaf { id: 1 }),
            t.active_spec() == 1,
            t.next_spec() == 2,
    {
        Self { root: Node::Leaf { id: 1 }, next_id: 2, active: 1 }
    }

    /// Splits the tile in front in `dir`; the new tile comes to the front.
    pub fn split_active(&mut self, dir: SplitDir) -> (new_id: u64)
        requires
            old(self).next_spec() < u64::MAX,
        ensures
            new_id == old(self).next_spec(),
            final(self).next_spec() == new_id + 1,
            final(self).root_spec() == split_spec(
                old(self).root_spec(),
                old(self).active_spec(),
                new_id,
                dir,
            ).0,
            final(self).active_spec() == (if split_spec(
                old(self).root_spec(),
                old(self).active_spec(),
                new_id,
                dir,
            ).1 {
                new_id
            } else {
                old(self).active_spec()
            }),
    {
        let new_id = self.next_id;
        self.next_id = self.next_id + 1;
        let mut replaced = false;
        let mut root = Node::Leaf { id: 0 };
        core::mem::swap(&mut root, &mut self.root);
        self.root = Self::split_node(root, self.active, new_id, dir, &mut replaced);
        if replaced {
            self.active = new_id;
        }
        new_id
    }

    fn split_node(node: Node, target: u64, new_id: u64, dir: SplitDir, replaced: &mut bool) -> (r:
        Node)
        ensures
            r == split_spec(node, target, new_id, dir).0,
            *final(replaced) == (*old(replaced) || split_spec(node, target, new_id, dir).1),
        decreases node,
    {
        match node {
            Node::Leaf { id } => {
                if id == target {
                    *replaced = true;
                    Node::Split {
                        dir,
                        a: Box::new(Node::Leaf { id }),
                        b: Box::new(Node::Leaf { id: new_id }),
                    }
                } else {
                    Node::Leaf { id }
                }
            },
            Node::Split { dir: d, a, b } => {
                let na = Self::split_node(*a, target, new_id, d, replaced);
                let nb = Self::split_node(*b, target, new_id, d, replaced);
                Node::Split { dir: d, a: Box::new(na), b: Box::new(nb) }
            },
        }
    }

    /// Brings tile `id` to the front if the tree has it.
    pub fn focus(&mut self, id: u64) -> (found: bool)
        ensures
            found == contains_spec(old(self).root_spec(), id),
            final(self).root_spec() == old(self).root_spec(),
            final(self).next_spec() == old(self).next_spec(),
            final(self).active_spec() == (if found {
                id
            } else {
                old(self).active_spec()
            }),
    {
        if Self::contains(&self.root, id) {
            self.active = id;
            true
        } else {
            false
        }
    }

    fn contains(node: &Node, id: u64) -> (r: bool)
        ensures
            r == contains_spec(*node, id),
        decreases node,
    {
        match node {
            Node::Leaf { id: leaf_id } => *leaf_id == id,
            Node::Split { a, b, .. } => Self::contains(a, id) || Self::contains(b, id),
        }
    }

    /// `active=<id> tree=<tree>`.
    pub fn describe(&self) -> (s: String)
        ensures
            s@ == "active="@ + decimal(self.active_spec() as nat) + " tree="@ + describe_spec(
                self.root_spec(),
            ),
    {
        let mut out = "active=".to_owned();
        push_decimal(&mut out, self.active);
        push_str(&mut out, " tree=");
        Self::describe_node(&self.root, &mut out);
        out
    }

    fn describe_node(node: &Node, out: &mut String)
        ensures
            final(out)@ == old(out)@ + describe_spec(*node),
        decreases node,
    {
        match node {
            Node::Leaf { id } => {
                push_char(out, 'L');
                push_decimal(out, *id);
                assert(final(out)@ =~= old(out)@ + describe_spec(*node));
            },
            Node::Split { dir, a, b } => {
                match dir {
                    SplitDir::Horizontal => push_char(out, 'H'),
                    SplitDir::Vertical => push_char(out, 'V'),
                }
                push_char(out, '(');
                Self::describe_node(a, out);
                push_char(out, ',');
                Self::describe_node(b, out);
                push_char(out, ')');
                assert(final(out)@ =~= old(out)@ + describe_spec(*node));
            },
        }
    }

    /// The tile in front.
    pub fn active_id(&self) -> (id: u64)
        ensures
            id == self.active_spec(),
    {
        self.active
    }

    /// The tile ids, left to right.
    pub fn leaf_ids(&self) -> (ids: Vec<u64>)
        ensures
            ids@ == leaves_spec(self.root_spec()),
    {
        let mut ids: Vec<u64> = Vec::new();
        Self::collect_leaves(&self.root, &mut ids);
        assert(ids@ =~= leaves_spec(self.root_spec()));
        ids
    }

    fn collect_leaves(node: &Node, ids: &mut Vec<u64>)
        ensures
            final(ids)@ == old(ids)@ + leaves_spec(*node),
        decreases node,
    {
        match node {
            Node::Leaf { id } => {
                ids.push(*id);
                assert(final(ids)@ =~= old(ids)@ + leaves_spec(*node));
            },
            Node::Split { a, b, .. } => {
                Self::collect_leaves(a, ids);
                Self::collect_leaves(b, ids);
                assert(final(ids)@ =~= old(ids)@ + leaves_spec(*node));
            },
        }
    }
}

} // verus!
