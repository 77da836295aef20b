//! The arena: session-scoped storage owning every node, with structural
//! interning at construction time.
//!
//! Nodes are appended monotonically and never mutated. Two requests to intern
//! structurally identical nodes return the same handle, so handle equality is
//! structural equality of subexpressions.

use vstd::prelude::*;
use crate::node::{Node, NodeRef, Error, node_valid, nodes_wf, extends};

verus! {

/// The owning store for all nodes of a working set.
pub struct Arena {
    nodes: Vec<Node>,
}

impl View for Arena {
    type V = Seq<Node>;

    closed spec fn view(&self) -> Seq<Node> {
        self.nodes@
    }
}

/// Index of the first slot holding `n`, searching from `j`; `-1` if none.
pub open spec fn find_from(s: Seq<Node>, n: Node, j: int) -> int
    decreases s.len() - j,
{
    if j < 0 || j >= s.len() {
        -1
    } else if s[j] == n {
        j
    } else {
        find_from(s, n, j + 1)
    }
}

/// What interning `n` does to the store: return the existing slot, or append.
pub open spec fn spec_intern(s: Seq<Node>, n: Node) -> (Seq<Node>, int) {
    let j = find_from(s, n, 0);
    if j >= 0 {
        (s, j)
    } else {
        (s.push(n), s.len() as int)
    }
}

pub proof fn lemma_find_from(s: Seq<Node>, n: Node, j: int)
    requires
        0 <= j <= s.len(),
    ensures
        ({
            let r = find_from(s, n, j);
            &&& r >= -1
            &&& (r == -1 ==> forall|k: int| j <= k < s.len() ==> s[k] != n)
            &&& (r >= 0 ==> j <= r < s.len() && s[r] == n && (forall|k: int| j <= k < r ==> s[k] != n))
        }),
    decreases s.len() - j,
{
    if j < s.len() && s[j] != n {
        lemma_find_from(s, n, j + 1);
    }
}

/// In a deduplicated store, the search finds exactly the slot that holds `n`.
pub proof fn lemma_find_interned(s: Seq<Node>, n: Node, i: int)
    requires
        nodes_wf(s),
        0 <= i < s.len(),
        s[i] == n,
    ensures
        find_from(s, n, 0) == i,
{
    lemma_find_from(s, n, 0);
    let r = find_from(s, n, 0);
    if r == -1 {
        assert(s[i] != n);
        assert(false);
    }
    if r < i {
        assert(s[r] != s[i]);
        assert(false);
    }
    if r > i {
        assert(s[i] != n);
        assert(false);
    }
}

/// Interning preserves well-formedness, grows the store by at most one node,
/// and hands back a slot that holds exactly the requested node.
pub proof fn lemma_intern_props(s: Seq<Node>, n: Node)
    requires
        nodes_wf(s),
        node_valid(n, s.len() as int),
    ensures
        ({
            let (s2, r) = spec_intern(s, n);
            &&& nodes_wf(s2)
            &&& extends(s2, s)
            &&& 0 <= r < s2.len()
            &&& s2[r] == n
        }),
{
    lemma_find_from(s, n, 0);
    let j = find_from(s, n, 0);
    if j < 0 {
        let s2 = s.push(n);
        assert forall|x: int| 0 <= x < s2.len() implies node_valid(#[trigger] s2[x], x) by {
            if x < s.len() {
                assert(s2[x] == s[x]);
            } else {
                assert(s2[x] == n);
            }
        }
        assert forall|x: int, y: int| 0 <= x < y < s2.len() implies s2[x] != s2[y] by {
            if y < s.len() {
                assert(s2[x] == s[x] && s2[y] == s[y]);
            } else {
                assert(s2[y] == n && s2[x] == s[x]);
            }
        }
    }
}

/// Sharing: interning the same node again returns the same handle and leaves
/// the store unchanged. Building the same expression twice from scratch
/// therefore yields identical handles.
pub proof fn lemma_intern_shares(s: Seq<Node>, n: Node)
    requires
        nodes_wf(s),
        node_valid(n, s.len() as int),
    ensures
        ({
            let (s2, r) = spec_intern(s, n);
            spec_intern(s2, n) == (s2, r)
        }),
{
    lemma_intern_props(s, n);
    let (s2, r) = spec_intern(s, n);
    lemma_find_interned(s2, n, r);
}

impl Arena {
    /// The store is backed by a vector, so its length is machine-bounded.
    pub proof fn lemma_len_bounded(&self)
        ensures
            self@.len() <= usize::MAX,
    {
        vstd::std_specs::vec::axiom_spec_len(&self.nodes);
    }

    /// A fresh, empty session store.
    pub fn new() -> (r: Arena)
        ensures
            r@ == Seq::<Node>::empty(),
            nodes_wf(r@),
    {
        Arena { nodes: Vec::new() }
    }

    /// How many nodes the arena owns.
    pub fn len(&self) -> (r: usize)
        ensures
            r == self@.len(),
    {
        self.nodes.len()
    }

    /// Whether a handle belongs to this arena.
    pub fn owns(&self, t: NodeRef) -> (r: bool)
        ensures
            r == ((t.index as int) < self@.len()),
    {
        t.index < self.nodes.len()
    }

    pub(crate) fn get_node(&self, i: usize) -> (r: Node)
        requires
            (i as int) < self@.len(),
        ensures
            r == self@[i as int],
    {
        self.nodes[i]
    }

    /// Intern `n`, whose children must already live in this arena: return the
    /// existing handle for a structurally identical node, else append.
    pub(crate) fn intern_node(&mut self, n: Node) -> (r: NodeRef)
        requires
            nodes_wf(old(self)@),
            node_valid(n, old(self)@.len() as int),
        ensures
            nodes_wf(final(self)@),
            extends(final(self)@, old(self)@),
            (final(self)@, r.index as int) == spec_intern(old(self)@, n),
            (r.index as int) < final(self)@.len(),
            final(self)@[r.index as int] == n,
    {
        proof {
            lemma_intern_props(self@, n);
            lemma_find_from(self@, n, 0);
        }
        let n_len: usize = self.nodes.len();
        let mut i: usize = 0;
        while i < n_len
            invariant
                i <= n_len,
                n_len == self@.len(),
                self@ == old(self)@,
                nodes_wf(self@),
                forall|k: int| 0 <= k < i ==> self@[k] != n,
            decreases n_len - i,
        {
            if self.nodes[i] == n {
                proof {
                    lemma_find_interned(self@, n, i as int);
                }
                return NodeRef { index: i };
            }
            i = i + 1;
        }
        assert(find_from(self@, n, 0) == -1) by {
            lemma_find_from(self@, n, 0);
            let r = find_from(self@, n, 0);
            if r >= 0 {
                assert(self@[r] != n);
            }
        }
        self.nodes.push(n);
        NodeRef { index: n_len }
    }

    /// Public interning entry: children handles are validated eagerly, a
    /// foreign handle fails the call and leaves the arena untouched.
    pub fn intern(&mut self, n: Node) -> (r: Result<NodeRef, Error>)
        requires
            nodes_wf(old(self)@),
        ensures
            nodes_wf(final(self)@),
            extends(final(self)@, old(self)@),
            node_valid(n, old(self)@.len() as int) ==> (r matches Ok(t)
                && (final(self)@, t.index as int) == spec_intern(old(self)@, n)
                && (t.index as int) < final(self)@.len()
                && final(self)@[t.index as int] == n),
            !node_valid(n, old(self)@.len() as int) ==> r == Err::<NodeRef, Error>(
                Error::ArenaMismatch,
            ) && final(self)@ == old(self)@,
    {
        let ok: bool = match n {
            Node::Const { .. } => true,
            Node::Var { .. } => true,
            Node::Unary { op: _, child } => child < self.nodes.len(),
            Node::Binary { op: _, lhs, rhs } => lhs < self.nodes.len() && rhs < self.nodes.len(),
        };
        if ok {
            Ok(self.intern_node(n))
        } else {
            Err(Error::ArenaMismatch)
        }
    }
}

} // verus!
