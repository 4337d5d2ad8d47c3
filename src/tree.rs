//! Snapshots of an accessibility tree.
//!
//! Nodes are stored in traversal order; every node but the root names a parent
//! that comes before it, so the parent links always form a tree rooted at 0.

use vstd::prelude::*;

verus! {

/// A screen rectangle in whole pixels.
#[derive(Clone, Copy, Debug, PartialEq, Eq, Structural)]
pub struct Bounds {
    pub x: i32,
    pub y: i32,
    pub width: u32,
    pub height: u32,
}

/// One node of a tree snapshot.
pub struct NodeRecord {
    pub role: String,
    pub name: String,
    pub text: String,
    pub bounds: Option<Bounds>,
    pub parent: Option<usize>,
    /// False once the node has been destroyed.
    pub live: bool,
    /// Whether the node supports direct accessibility actions.
    pub actionable: bool,
    pub enabled: bool,
    /// Platform-specific attributes, as key and value.
    pub attributes: Vec<(String, String)>,
}

/// A snapshot of the whole accessibility tree, in traversal order.
pub struct TreeSnapshot {
    pub nodes: Vec<NodeRecord>,
}

/// The root is node 0 and every other node's parent precedes it.
pub open spec fn tree_wf(t: Seq<NodeRecord>) -> bool {
    &&& t.len() >= 1
    &&& t[0].parent is None
    &&& forall|i: int|
        1 <= i < t.len() ==> (#[trigger] t[i].parent) is Some && (t[i].parent.unwrap() as int)
            < i
}

/// `a` is a strict ancestor of `d`.
pub open spec fn is_ancestor(t: Seq<NodeRecord>, a: int, d: int) -> bool
    decreases d,
{
    if 0 <= d < t.len() {
        match t[d].parent {
            Some(p) => if (p as int) < d {
                p as int == a || is_ancestor(t, a, p as int)
            } else {
                false
            },
            None => false,
        }
    } else {
        false
    }
}

/// A node is reachable when it and all its ancestors are live.
pub open spec fn reachable(t: Seq<NodeRecord>, i: int) -> bool
    decreases i,
{
    if 0 <= i < t.len() && t[i].live {
        match t[i].parent {
            Some(p) => (p as int) < i && reachable(t, p as int),
            None => true,
        }
    } else {
        false
    }
}

/// `d` is `a` itself or lies at most `k` levels below it.
pub open spec fn within(t: Seq<NodeRecord>, a: int, d: int, k: nat) -> bool
    decreases k,
{
    d == a || (k > 0 && 0 <= d < t.len() && match t[d].parent {
        Some(p) => (p as int) < d && within(t, a, p as int, (k - 1) as nat),
        None => false,
    })
}

/// Node `j` contributes text to the aggregated text of `a` at depth `k`.
pub open spec fn text_part(t: Seq<NodeRecord>, a: int, j: int, k: nat) -> bool {
    reachable(t, j) && within(t, a, j, k) && t[j].text@.len() > 0
}

/// The non-empty texts of the contributing nodes among the first `n`,
/// in traversal order, separated by single spaces.
pub open spec fn gathered(t: Seq<NodeRecord>, a: int, k: nat, n: int) -> Seq<char>
    decreases n,
{
    if n <= 0 {
        seq![]
    } else {
        let g = gathered(t, a, k, n - 1);
        if text_part(t, a, n - 1, k) {
            if g.len() == 0 {
                t[n - 1].text@
            } else {
                g + seq![' '] + t[n - 1].text@
            }
        } else {
            g
        }
    }
}

/// The text of node `a`, aggregated from its subtree down to depth `k`.
pub open spec fn element_text(t: Seq<NodeRecord>, a: int, k: nat) -> Seq<char> {
    gathered(t, a, k, t.len() as int)
}

impl TreeSnapshot {
    pub open spec fn wf(&self) -> bool {
        tree_wf(self.nodes@)
    }

    /// A snapshot holding only a live root node.
    pub fn new(role: String, name: String, bounds: Option<Bounds>) -> (r: Self)
        ensures
            r.wf(),
            r.nodes@.len() == 1,
            r.nodes@[0].role == role,
            r.nodes@[0].name == name,
            r.nodes@[0].text@.len() == 0,
            r.nodes@[0].bounds == bounds,
            r.nodes@[0].live,
            !r.nodes@[0].actionable,
            r.nodes@[0].parent is None,
            r.nodes@[0].enabled,
            r.nodes@[0].attributes@.len() == 0,
    {
        let root = NodeRecord {
            role,
            name,
            text: String::new(),
            bounds,
            parent: None,
            live: true,
            actionable: false,
            enabled: true,
            attributes: Vec::new(),
        };
        TreeSnapshot { nodes: vec![root] }
    }

    /// Appends a live node under `parent` and returns its index.
    pub fn add_node(
        &mut self,
        parent: usize,
        role: String,
        name: String,
        text: String,
        bounds: Option<Bounds>,
        actionable: bool,
    ) -> (id: usize)
        requires
            old(self).wf(),
            parent < old(self).nodes@.len(),
            old(self).nodes@.len() < usize::MAX,
        ensures
            final(self).wf(),
            id == old(self).nodes@.len(),
            final(self).nodes@.len() == old(self).nodes@.len() + 1,
            forall|i: int|
                0 <= i < old(self).nodes@.len() ==> final(self).nodes@[i] == old(self).nodes@[i],
            final(self).nodes@[id as int].role == role,
            final(self).nodes@[id as int].name == name,
            final(self).nodes@[id as int].text == text,
            final(self).nodes@[id as int].bounds == bounds,
            final(self).nodes@[id as int].parent == Some(parent),
            final(self).nodes@[id as int].live,
            final(self).nodes@[id as int].actionable == actionable,
            final(self).nodes@[id as int].enabled,
            final(self).nodes@[id as int].attributes@.len() == 0,
    {
        let id = self.nodes.len();
        self.nodes.push(
            NodeRecord {
                role,
                name,
                text,
                bounds,
                parent: Some(parent),
                live: true,
                actionable,
                enabled: true,
                attributes: Vec::new(),
            },
        );
        proof {
            let t = self.nodes@;
            assert forall|i: int| 1 <= i < t.len() implies (#[trigger] t[i].parent) is Some && (
            t[i].parent.unwrap() as int) < i by {
                if i < id {
                    assert(t[i] == old(self).nodes@[i]);
                }
            }
        }
        id
    }

    /// Marks node `id` as destroyed; its subtree becomes unreachable.
    pub fn destroy(&mut self, id: usize)
        requires
            old(self).wf(),
            id < old(self).nodes@.len(),
        ensures
            final(self).wf(),
            final(self).nodes@.len() == old(self).nodes@.len(),
            forall|i: int|
                0 <= i < old(self).nodes@.len() && i != id ==> final(self).nodes@[i]
                    == old(self).nodes@[i],
            final(self).nodes@[id as int] == (NodeRecord {
                live: false,
                ..old(self).nodes@[id as int]
            }),
    {
        let mut rec = self.nodes.remove(id);
        rec.live = false;
        self.nodes.insert(id, rec);
        proof {
            self.lemma_same_shape(old(self).nodes@, id as int);
        }
    }

    /// Sets whether node `id` is enabled.
    pub fn set_enabled(&mut self, id: usize, enabled: bool)
        requires
            old(self).wf(),
            id < old(self).nodes@.len(),
        ensures
            final(self).wf(),
            final(self).nodes@.len() == old(self).nodes@.len(),
            forall|i: int|
                0 <= i < old(self).nodes@.len() && i != id ==> final(self).nodes@[i]
                    == old(self).nodes@[i],
            final(self).nodes@[id as int] == (NodeRecord { enabled, ..old(self).nodes@[id as int] }),
    {
        let mut rec = self.nodes.remove(id);
        rec.enabled = enabled;
        self.nodes.insert(id, rec);
        proof {
            self.lemma_same_shape(old(self).nodes@, id as int);
        }
    }

    /// Appends the attribute `key` = `value` to node `id`.
    pub fn add_attribute(&mut self, id: usize, key: String, value: String)
        requires
            old(self).wf(),
            id < old(self).nodes@.len(),
        ensures
            final(self).wf(),
            final(self).nodes@.len() == old(self).nodes@.len(),
            forall|i: int|
                0 <= i < old(self).nodes@.len() && i != id ==> final(self).nodes@[i]
                    == old(self).nodes@[i],
            final(self).nodes@[id as int].attributes@ == old(
                self,
            ).nodes@[id as int].attributes@.push((key, value)),
            final(self).nodes@[id as int] == (NodeRecord {
                attributes: final(self).nodes@[id as int].attributes,
                ..old(self).nodes@[id as int]
            }),
    {
        let mut rec = self.nodes.remove(id);
        rec.attributes.push((key, value));
        self.nodes.insert(id, rec);
        proof {
            self.lemma_same_shape(old(self).nodes@, id as int);
        }
    }

    /// A snapshot that differs from a well-formed `prev` only in fields of
    /// node `id` other than its parent is well-formed too.
    proof fn lemma_same_shape(&self, prev: Seq<NodeRecord>, id: int)
        requires
            tree_wf(prev),
            0 <= id < prev.len(),
            self.nodes@.len() == prev.len(),
            forall|i: int| 0 <= i < prev.len() && i != id ==> self.nodes@[i] == prev[i],
            self.nodes@[id].parent == prev[id].parent,
        ensures
            self.wf(),
    {
        let t = self.nodes@;
        assert forall|i: int| 1 <= i < t.len() implies (#[trigger] t[i].parent) is Some && (
        t[i].parent.unwrap() as int) < i by {
            assert(prev[i].parent == t[i].parent);
        }
    }

    /// Whether each node is reachable, indexed by node.
    pub fn reachability(&self) -> (r: Vec<bool>)
        requires
            self.wf(),
        ensures
            r@.len() == self.nodes@.len(),
            forall|i: int| 0 <= i < r@.len() ==> r@[i] == reachable(self.nodes@, i),
    {
        let n = self.nodes.len();
        let mut r: Vec<bool> = Vec::new();
        let mut i: usize = 0;
        while i < n
            invariant
                self.wf(),
                n == self.nodes@.len(),
                i <= n,
                r@.len() == i,
                forall|j: int| 0 <= j < i ==> r@[j] == reachable(self.nodes@, j),
            decreases n - i,
        {
            let v = if !self.nodes[i].live {
                false
            } else {
                match self.nodes[i].parent {
                    None => true,
                    Some(p) => {
                        assert(i > 0);
                        r[p]
                    },
                }
            };
            r.push(v);
            i += 1;
        }
        r
    }

    /// Whether `a` is a strict ancestor of `d`.
    pub fn ancestor_check(&self, a: usize, d: usize) -> (r: bool)
        requires
            self.wf(),
            d < self.nodes@.len(),
        ensures
            r == is_ancestor(self.nodes@, a as int, d as int),
    {
        let mut cur = d;
        loop
            invariant
                self.wf(),
                cur < self.nodes@.len(),
                is_ancestor(self.nodes@, a as int, d as int) == is_ancestor(
                    self.nodes@,
                    a as int,
                    cur as int,
                ),
            decreases cur,
        {
            match self.nodes[cur].parent {
                None => {
                    return false;
                },
                Some(p) => {
                    assert(cur > 0);
                    if p == a {
                        return true;
                    }
                    cur = p;
                },
            }
        }
    }

    /// Whether `d` is `a` or lies at most `k` levels below it.
    pub fn within_check(&self, a: usize, d: usize, k: usize) -> (r: bool)
        requires
            self.wf(),
            d < self.nodes@.len(),
        ensures
            r == within(self.nodes@, a as int, d as int, k as nat),
    {
        let mut cur = d;
        let mut left = k;
        loop
            invariant
                self.wf(),
                cur < self.nodes@.len(),
                within(self.nodes@, a as int, d as int, k as nat) == within(
                    self.nodes@,
                    a as int,
                    cur as int,
                    left as nat,
                ),
            decreases cur,
        {
            if cur == a {
                return true;
            }
            if left == 0 {
                return false;
            }
            match self.nodes[cur].parent {
                None => {
                    return false;
                },
                Some(p) => {
                    assert(cur > 0);
                    cur = p;
                    left = left - 1;
                },
            }
        }
    }

    /// The text of node `a` aggregated from its subtree down to depth `k`.
    pub fn text_of(&self, a: usize, k: usize) -> (r: String)
        requires
            self.wf(),
        ensures
            r@ == element_text(self.nodes@, a as int, k as nat),
    {
        let reach = self.reachability();
        let n = self.nodes.len();
        let mut out = String::new();
        let mut j: usize = 0;
        while j < n
            invariant
                self.wf(),
                n == self.nodes@.len(),
                j <= n,
                reach@.len() == n,
                forall|i: int| 0 <= i < n ==> reach@[i] == reachable(self.nodes@, i),
                out@ == gathered(self.nodes@, a as int, k as nat, j as int),
            decreases n - j,
        {
            let piece = self.nodes[j].text.as_str();
            if reach[j] && piece.unicode_len() > 0 && self.within_check(a, j, k) {
                if out.as_str().unicode_len() > 0 {
                    out.append(" ");
                    proof {
                        reveal_strlit(" ");
                    }
                }
                out.append(piece);
            }
            j += 1;
        }
        out
    }
}

/// Once a node is destroyed, neither it nor anything below it is reachable,
/// so every read through a handle to them reports the node as gone.
pub proof fn lemma_destroyed_subtree_unreachable(t: Seq<NodeRecord>, a: int, d: int)
    requires
        0 <= a < t.len(),
        !t[a].live,
        d == a || is_ancestor(t, a, d),
    ensures
        !reachable(t, d),
    decreases d,
{
    if d != a {
        let p = t[d].parent.unwrap() as int;
        lemma_destroyed_subtree_unreachable(t, a, p);
    }
}

} // verus!
