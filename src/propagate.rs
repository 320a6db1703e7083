//! The topology propagator: grafts anchor subtrees reported by one host into
//! another host's tree, by identity matching.
use vstd::prelude::*;
use crate::device::{compare_without_children, lemma_subtree_contains, Device, DeviceKind, Node};

verus! {

broadcast use vstd::std_specs::vec::group_vec_axioms;

/// The tree `t` with every topmost node that is the same device as the
/// anchor's root replaced, whole, by the anchor.
pub open spec fn graft(t: Node, a: Node) -> Node
    decreases t,
{
    if t.same_device(a) {
        a
    } else {
        t.with_children(
            Seq::new(
                t.children.len(),
                |i: int|
                    if 0 <= i < t.children.len() {
                        graft(t.children[i], a)
                    } else {
                        a
                    },
            ),
        )
    }
}

/// The tree `t` with the anchors grafted one after another, in order.
pub open spec fn graft_all(t: Node, anchors: Seq<Node>) -> Node
    decreases anchors.len(),
{
    if anchors.len() == 0 {
        t
    } else {
        graft(graft_all(t, anchors.drop_last()), anchors.last())
    }
}

/// The children of `t` with the anchor grafted into each.
pub proof fn lemma_graft_children(t: Node, a: Node)
    requires
        !t.same_device(a),
    ensures
        graft(t, a).same_device(t),
        graft(t, a).children.len() == t.children.len(),
        forall|i: int|
            0 <= i < t.children.len() ==> #[trigger] graft(t, a).children[i] == graft(
                t.children[i],
                a,
            ),
{
}

/// A graft keeps the identity of the node it starts from.
pub proof fn lemma_graft_same_device(t: Node, a: Node)
    ensures
        graft(t, a).same_device(t),
{
}

/// Grafting any anchors keeps the identity of the top node: a tree rooted at
/// `Root` stays rooted at `Root`.
pub proof fn lemma_graft_all_same_device(t: Node, anchors: Seq<Node>)
    ensures
        graft_all(t, anchors).same_device(t),
        graft_all(t, anchors).kind == t.kind,
    decreases anchors.len(),
{
    if anchors.len() > 0 {
        lemma_graft_all_same_device(t, anchors.drop_last());
        lemma_graft_same_device(graft_all(t, anchors.drop_last()), anchors.last());
    }
}

/// Grafting a well-formed anchor whose top node is not `Root` into a
/// well-formed tree gives a well-formed tree; a host's tree stays a host's
/// tree.
pub proof fn lemma_graft_well_formed(t: Node, a: Node)
    requires
        t.well_formed(),
        a.well_formed(),
        a.kind != DeviceKind::Root,
    ensures
        graft(t, a).well_formed(),
        t.is_host_tree() ==> graft(t, a).is_host_tree(),
    decreases t,
{
    lemma_graft_same_device(t, a);
    if !t.same_device(a) {
        let g = graft(t, a);
        lemma_graft_children(t, a);
        assert forall|i: int| 0 <= i < g.children.len() implies (#[trigger] g.children[i]).kind
            != DeviceKind::Root && g.children[i].well_formed() by {
            lemma_graft_same_device(t.children[i], a);
            lemma_graft_well_formed(t.children[i], a);
        }
        assert forall|i: int, j: int|
            0 <= i < g.children.len() && 0 <= j < g.children.len() && i != j implies !(
            #[trigger] g.children[i]).same_device(#[trigger] g.children[j]) by {
            lemma_graft_same_device(t.children[i], a);
            lemma_graft_same_device(t.children[j], a);
            assert(!t.children[i].same_device(t.children[j]));
        }
    }
}

/// Grafting an anchor onto a tree in which no node is the same device as the
/// anchor's root leaves the tree unchanged.
pub proof fn lemma_graft_no_match(t: Node, a: Node)
    requires
        !t.contains_device(a),
    ensures
        graft(t, a) == t,
    decreases t,
{
    assert forall|i: int| 0 <= i < t.children.len() implies graft(t.children[i], a)
        == t.children[i] by {
        lemma_graft_no_match(t.children[i], a);
    }
    assert(graft(t, a).children =~= t.children);
}

/// Grafting the same anchor twice gives the same tree as grafting it once.
pub proof fn lemma_graft_idempotent(t: Node, a: Node)
    ensures
        graft(graft(t, a), a) == graft(t, a),
    decreases t,
{
    if !t.same_device(a) {
        let g = graft(t, a);
        assert forall|i: int| 0 <= i < t.children.len() implies graft(g.children[i], a)
            == g.children[i] by {
            lemma_graft_idempotent(t.children[i], a);
        }
        assert(graft(g, a).children =~= g.children);
    }
}

/// Grafting two anchors, neither of which holds a node that is the same device
/// as the other's root, gives the same tree in either order.
pub proof fn lemma_graft_commutes(t: Node, a: Node, b: Node)
    requires
        !a.contains_device(b),
        !b.contains_device(a),
    ensures
        graft(graft(t, a), b) == graft(graft(t, b), a),
    decreases t,
{
    if t.same_device(a) {
        lemma_graft_no_match(a, b);
        if !t.same_device(b) {
            lemma_graft_children(t, b);
        }
    } else if t.same_device(b) {
        lemma_graft_no_match(b, a);
        lemma_graft_children(t, a);
    } else {
        lemma_graft_children(t, a);
        lemma_graft_children(t, b);
        let ga = graft(t, a);
        let gb = graft(t, b);
        lemma_graft_children(ga, b);
        lemma_graft_children(gb, a);
        assert forall|i: int| 0 <= i < t.children.len() implies graft(ga.children[i], b)
            == graft(gb.children[i], a) by {
            lemma_graft_commutes(t.children[i], a, b);
        }
        assert(graft(ga, b).children =~= graft(gb, a).children);
    }
}

/// A graft copies the anchor whole or not at all: when no node below the
/// anchor's root is the same device as that root, every subtree of the result
/// that is the same device as the anchor's root is the full anchor subtree.
pub proof fn lemma_graft_atomic(t: Node, a: Node, s: Node)
    requires
        forall|i: int| 0 <= i < a.children.len() ==> !(#[trigger] a.children[i]).contains_device(a),
        graft(t, a).has_subtree(s),
        s.same_device(a),
    ensures
        s == a,
    decreases t,
{
    if t.same_device(a) {
        if s != a {
            let i = choose|i: int| 0 <= i < a.children.len() && (#[trigger] a.children[i]).has_subtree(s);
            lemma_subtree_contains(a.children[i], s, a);
        }
    } else {
        lemma_graft_children(t, a);
        let g = graft(t, a);
        assert(g != s);
        let i = choose|i: int| 0 <= i < g.children.len() && (#[trigger] g.children[i]).has_subtree(s);
        lemma_graft_atomic(t.children[i], a, s);
    }
}

/// Grafting no anchors leaves the tree exactly as it was.
pub proof fn lemma_graft_none(t: Node)
    ensures
        graft_all(t, Seq::empty()) == t,
{
}

/// Grafts `a` into a copy of `t`.
fn grafted(t: &Device, a: &Device) -> (r: Device)
    ensures
        r@ == graft(t@, a@),
    decreases t,
{
    if compare_without_children(t, a) {
        return a.duplicate();
    }
    let mut children: Vec<Device> = Vec::new();
    let n = t.children.len();
    let mut i: usize = 0;
    while i < n
        invariant
            n == t.children.len(),
            i <= n,
            children@.len() == i,
            forall|j: int| 0 <= j < i ==> (#[trigger] children@[j])@ == graft(t.children@[j]@, a@),
        decreases n - i,
    {
        let c = grafted(&t.children[i], a);
        children.push(c);
        i = i + 1;
    }
    let r = Device { kind: t.kind, identity: t.identity.clone(), children };
    assert(r@.children =~= graft(t@, a@).children);
    r
}

/// Grafts one anchor subtree into the tree `d`.
pub fn insert(d: &mut Device, to_insert: &Device)
    ensures
        final(d)@ == graft(old(d)@, to_insert@),
{
    *d = grafted(d, to_insert);
}

/// Grafts each of the anchors into the tree `d`, in order.
pub fn insert_virtual_devices(d: &mut Device, parents: &[Device])
    ensures
        final(d)@ == graft_all(old(d)@, parents@.map_values(|p: Device| p@)),
{
    let ghost start = d@;
    let n = parents.len();
    let mut i: usize = 0;
    while i < n
        invariant
            n == parents@.len(),
            i <= n,
            d@ == graft_all(start, parents@.map_values(|p: Device| p@).take(i as int)),
        decreases n - i,
    {
        proof {
            let s = parents@.map_values(|p: Device| p@);
            assert(s.take(i + 1).drop_last() =~= s.take(i as int));
        }
        insert(d, &parents[i]);
        i = i + 1;
    }
    proof {
        let s = parents@.map_values(|p: Device| p@);
        assert(s.take(n as int) =~= s);
    }
}

} // verus!
