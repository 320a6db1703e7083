//! The virtual device resolver: finds, in a freshly reported tree, the anchor
//! subtrees that carry virtual devices and must be propagated to peer hosts.
use vstd::prelude::*;
use crate::device::{views, Device, Node};

verus! {

broadcast use vstd::std_specs::vec::group_vec_axioms;

/// Errors in the structure of a reported tree.
#[derive(Clone, Copy, Debug, PartialEq, Eq, Structural)]
pub enum DeviceError {
    /// The top node of a report is not `Root`.
    NotRoot,
    /// A virtual device has no physical device above it.
    OrphanVirtual,
}

/// The anchors found, depth first, among `children` of the physical node
/// `parent`: a virtual child contributes `parent` itself, with its whole
/// subtree; a physical child contributes the anchors found below it.
pub open spec fn anchors_among(parent: Node, children: Seq<Node>) -> Seq<Node>
    decreases children,
{
    if children.len() == 0 {
        Seq::empty()
    } else {
        let c = children.last();
        anchors_among(parent, children.drop_last()) + if c.kind.spec_is_virtual() {
            seq![parent]
        } else {
            anchors_among(c, c.children)
        }
    }
}

/// The anchors of a tree whose top node is physical.
pub open spec fn anchors(t: Node) -> Seq<Node> {
    anchors_among(t, t.children)
}

fn collect_below(parent: &Device, out: &mut Vec<Device>)
    requires
        !parent@.kind.spec_is_virtual(),
    ensures
        views(final(out)@) == views(old(out)@) + anchors_among(parent@, parent@.children),
    decreases parent,
{
    let ghost start = views(out@);
    let n = parent.children.len();
    let mut i: usize = 0;
    while i < n
        invariant
            n == parent.children.len(),
            i <= n,
            !parent@.kind.spec_is_virtual(),
            views(out@) == start + anchors_among(parent@, parent@.children.take(i as int)),
        decreases n - i,
    {
        let ghost before = out@;
        proof {
            let cs = parent@.children;
            assert(cs.take(i + 1).drop_last() =~= cs.take(i as int));
            assert(cs.take(i + 1).last() == parent.children@[i as int]@);
        }
        let c = &parent.children[i];
        if c.kind.is_virtual() {
            out.push(parent.duplicate());
            assert(views(out@) =~= views(before) + seq![parent@]);
        } else {
            collect_below(c, out);
        }
        proof {
            let cs = parent@.children;
            assert(views(out@) =~= start + anchors_among(parent@, cs.take(i + 1)));
        }
        i = i + 1;
    }
    assert(parent@.children.take(n as int) =~= parent@.children);
}

/// The anchor subtrees of a reported tree, in depth-first order. A top node
/// of a virtual kind has no physical device above it and is refused.
pub fn collect_virtual_device_parents(d: &Device) -> (r: Result<Vec<Device>, DeviceError>)
    ensures
        d@.kind.spec_is_virtual() <==> r is Err,
        r is Err ==> r == Err::<Vec<Device>, DeviceError>(DeviceError::OrphanVirtual),
        r matches Ok(v) ==> views(v@) == anchors(d@),
{
    if d.kind.is_virtual() {
        return Err(DeviceError::OrphanVirtual);
    }
    let mut out: Vec<Device> = Vec::new();
    collect_below(d, &mut out);
    assert(views(out@) =~= anchors(d@));
    Ok(out)
}

/// Below a physical node whose children hold no virtual device there are no
/// anchors.
pub proof fn lemma_no_virtual_no_anchors(parent: Node, children: Seq<Node>)
    requires
        forall|i: int| 0 <= i < children.len() ==> !(#[trigger] children[i]).has_virtual(),
    ensures
        anchors_among(parent, children) == Seq::<Node>::empty(),
    decreases children,
{
    if children.len() > 0 {
        let c = children.last();
        assert(!children[children.len() - 1].has_virtual());
        lemma_no_virtual_no_anchors(parent, children.drop_last());
        lemma_no_virtual_no_anchors(c, c.children);
        assert(anchors_among(parent, children) =~= Seq::<Node>::empty());
    }
}

} // verus!
