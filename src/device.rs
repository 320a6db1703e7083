//! The device tree: a polymorphic node tree describing one host's storage
//! topology, its mathematical model, and identity equality between nodes.
use vstd::prelude::*;

verus! {

broadcast use vstd::std_specs::vec::group_vec_axioms;

/// The variant of a device node.
#[derive(Clone, Copy, Debug, PartialEq, Eq, Structural)]
pub enum DeviceKind {
    Root,
    ScsiDevice,
    Partition,
    Mpath,
    MdRaid,
    VolumeGroup,
    LogicalVolume,
    Zpool,
    Dataset,
}

impl DeviceKind {
    /// Devices assembled by host-side software rather than presented by hardware.
    pub open spec fn spec_is_virtual(self) -> bool {
        match self {
            DeviceKind::Dataset
            | DeviceKind::LogicalVolume
            | DeviceKind::MdRaid
            | DeviceKind::VolumeGroup
            | DeviceKind::Zpool => true,
            _ => false,
        }
    }

    pub fn is_virtual(self) -> (r: bool)
        ensures
            r == self.spec_is_virtual(),
    {
        match self {
            DeviceKind::Dataset
            | DeviceKind::LogicalVolume
            | DeviceKind::MdRaid
            | DeviceKind::VolumeGroup
            | DeviceKind::Zpool => true,
            _ => false,
        }
    }
}

/// Mathematical model of a device node: its variant, the canonical encoding of
/// its own attributes (everything but its children), and its children in order.
pub struct Node {
    pub kind: DeviceKind,
    pub identity: Seq<char>,
    pub children: Seq<Node>,
}

/// A device node. `identity` is a canonical encoding of the variant-specific
/// attributes (serial numbers, paths, major/minor numbers, names); two nodes
/// with the same kind and identity are the same physical or virtual device.
#[derive(Debug, PartialEq, Eq)]
pub struct Device {
    pub kind: DeviceKind,
    pub identity: String,
    pub children: Vec<Device>,
}

impl View for Device {
    type V = Node;

    open spec fn view(&self) -> Node
        decreases self,
    {
        Node {
            kind: self.kind,
            identity: self.identity@,
            children: Seq::new(
                self.children.len() as nat,
                |i: int|
                    if 0 <= i < self.children.len() {
                        self.children[i].view()
                    } else {
                        Node { kind: self.kind, identity: self.identity@, children: Seq::empty() }
                    },
            ),
        }
    }
}

impl Device {
    /// A deep copy of the tree.
    pub fn duplicate(&self) -> (r: Device)
        ensures
            r@ == self@,
        decreases self,
    {
        let mut children: Vec<Device> = Vec::new();
        let n = self.children.len();
        let mut i: usize = 0;
        while i < n
            invariant
                n == self.children.len(),
                i <= n,
                children@.len() == i,
                forall|j: int| 0 <= j < i ==> (#[trigger] children@[j])@ == self.children@[j]@,
            decreases n - i,
        {
            let c = self.children[i].duplicate();
            children.push(c);
            i = i + 1;
        }
        let r = Device { kind: self.kind, identity: self.identity.clone(), children };
        assert(r@.children =~= self@.children);
        r
    }
}

/// The models of a sequence of devices.
pub open spec fn views(s: Seq<Device>) -> Seq<Node> {
    s.map_values(|d: Device| d@)
}

impl Node {
    /// Identity equality: the same variant with the same attributes, whatever
    /// the children.
    pub open spec fn same_device(self, other: Node) -> bool {
        self.kind == other.kind && self.identity == other.identity
    }

    /// This node with its children replaced by `children`.
    pub open spec fn with_children(self, children: Seq<Node>) -> Node {
        Node { kind: self.kind, identity: self.identity, children }
    }

    /// Some node of this tree, this one included, is the same device as `d`.
    pub open spec fn contains_device(self, d: Node) -> bool
        decreases self,
    {
        self.same_device(d) || exists|i: int|
            0 <= i < self.children.len() && (#[trigger] self.children[i]).contains_device(d)
    }

    /// The tree's invariant: a `Dataset` is a leaf, no node below the top is a
    /// `Root`, and no two siblings are the same device.
    pub open spec fn well_formed(self) -> bool
        decreases self,
    {
        &&& (self.kind == DeviceKind::Dataset ==> self.children.len() == 0)
        &&& forall|i: int, j: int|
            0 <= i < self.children.len() && 0 <= j < self.children.len() && i != j ==> !(
            #[trigger] self.children[i]).same_device(#[trigger] self.children[j])
        &&& forall|i: int|
            0 <= i < self.children.len() ==> (#[trigger] self.children[i]).kind != DeviceKind::Root
                && self.children[i].well_formed()
    }

    /// A host's tree: a well-formed tree whose top node is `Root`.
    pub open spec fn is_host_tree(self) -> bool {
        self.kind == DeviceKind::Root && self.well_formed()
    }

    /// `s` is this tree or a subtree below it.
    pub open spec fn has_subtree(self, s: Node) -> bool
        decreases self,
    {
        self == s || exists|i: int|
            0 <= i < self.children.len() && (#[trigger] self.children[i]).has_subtree(s)
    }

    /// Some node of this tree, this one included, has a virtual kind.
    pub open spec fn has_virtual(self) -> bool
        decreases self,
    {
        self.kind.spec_is_virtual() || exists|i: int|
            0 <= i < self.children.len() && (#[trigger] self.children[i]).has_virtual()
    }
}

/// A subtree that is the same device as `d` makes the tree contain `d`.
pub proof fn lemma_subtree_contains(t: Node, s: Node, d: Node)
    requires
        t.has_subtree(s),
        s.same_device(d),
    ensures
        t.contains_device(d),
    decreases t,
{
    if t != s {
        let i = choose|i: int| 0 <= i < t.children.len() && (#[trigger] t.children[i]).has_subtree(s);
        lemma_subtree_contains(t.children[i], s, d);
    }
}

/// Identity equality looks at the variant and attributes only: nodes that
/// differ only in their children are the same device, and nodes that differ in
/// variant or attributes are never the same device, whatever their children.
pub proof fn lemma_identity_ignores_children(a: Node, b: Node, ca: Seq<Node>, cb: Seq<Node>)
    ensures
        a.with_children(ca).same_device(a.with_children(cb)),
        (a.kind != b.kind || a.identity != b.identity) ==> !a.with_children(ca).same_device(
            b.with_children(cb),
        ),
{
}

/// The node alone, with no children.
pub fn without_children(d: &Device) -> (r: Device)
    ensures
        r@ == d@.with_children(Seq::empty()),
{
    let r = Device { kind: d.kind, identity: d.identity.clone(), children: Vec::new() };
    assert(r@.children =~= Seq::<Node>::empty());
    r
}

/// Whether two nodes are the same device, ignoring their children.
pub fn compare_without_children(a: &Device, b: &Device) -> (r: bool)
    ensures
        r == a@.same_device(b@),
{
    a.kind == b.kind && a.identity == b.identity
}

/// Whether the node is of a virtual variant.
pub fn is_virtual(d: &Device) -> (r: bool)
    ensures
        r == d@.kind.spec_is_virtual(),
{
    d.kind.is_virtual()
}

} // verus!
