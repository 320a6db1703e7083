//! The device registry: the current tree of every known host, and the
//! ingestion step that turns one host's report into the writes it causes.
use vstd::prelude::*;
use crate::device::{views, Device, DeviceKind, Node};
use crate::propagate::{graft_all, insert_virtual_devices};
use crate::resolve::{
    anchors, collect_virtual_device_parents, lemma_no_virtual_no_anchors, DeviceError,
};

verus! {

broadcast use vstd::std_specs::vec::group_vec_axioms;

/// The tree reported by, or stored for, one host.
#[derive(Debug, PartialEq, Eq)]
pub struct HostTree {
    /// The host's fully qualified name.
    pub host: String,
    pub tree: Device,
}

impl View for HostTree {
    type V = (Seq<char>, Node);

    open spec fn view(&self) -> (Seq<char>, Node) {
        (self.host@, self.tree@)
    }
}

/// The models of a sequence of host trees.
pub open spec fn host_views(s: Seq<HostTree>) -> Seq<(Seq<char>, Node)> {
    s.map_values(|e: HostTree| e@)
}

/// The writes owed to the peers of `host`: each peer entry of another host,
/// in order, with the anchors grafted into its tree.
pub open spec fn peer_writes(
    host: Seq<char>,
    anchors: Seq<Node>,
    peers: Seq<(Seq<char>, Node)>,
) -> Seq<(Seq<char>, Node)>
    decreases peers.len(),
{
    if peers.len() == 0 {
        Seq::empty()
    } else {
        let rest = peer_writes(host, anchors, peers.drop_last());
        let p = peers.last();
        if p.0 == host {
            rest
        } else {
            rest.push((p.0, graft_all(p.1, anchors)))
        }
    }
}

/// The writes that one report causes: the grafted trees of the peers, then
/// the reported tree itself, verbatim, under the reporting host.
pub open spec fn ingest_writes(
    host: Seq<char>,
    tree: Node,
    peers: Seq<(Seq<char>, Node)>,
) -> Seq<(Seq<char>, Node)> {
    peer_writes(host, anchors(tree), peers).push((host, tree))
}

/// A report that holds no virtual device has no anchors, and propagating it
/// leaves the tree of every peer unchanged.
pub proof fn lemma_no_virtual_report(tree: Node, peer: Node)
    requires
        !tree.has_virtual(),
    ensures
        anchors(tree) == Seq::<Node>::empty(),
        graft_all(peer, anchors(tree)) == peer,
{
    assert forall|i: int| 0 <= i < tree.children.len() implies !(
    #[trigger] tree.children[i]).has_virtual() by {
        if tree.children[i].has_virtual() {
            assert(tree.has_virtual());
        }
    }
    lemma_no_virtual_no_anchors(tree, tree.children);
}

/// Host trees in which the hosts are pairwise distinct.
pub open spec fn distinct_hosts(s: Seq<HostTree>) -> bool {
    forall|i: int, j: int|
        0 <= i < s.len() && 0 <= j < s.len() && i != j ==> (#[trigger] s[i]).host@ != (
        #[trigger] s[j]).host@
}

/// The mapping from host to tree that a sequence of entries gives, a later
/// entry of a host replacing an earlier one.
pub open spec fn as_map(s: Seq<(Seq<char>, Node)>) -> Map<Seq<char>, Node>
    decreases s.len(),
{
    if s.len() == 0 {
        Map::empty()
    } else {
        as_map(s.drop_last()).insert(s.last().0, s.last().1)
    }
}

/// The mapping `m` after each write, in order, replaced the entry of its host.
pub open spec fn apply_writes(m: Map<Seq<char>, Node>, w: Seq<(Seq<char>, Node)>) -> Map<
    Seq<char>,
    Node,
>
    decreases w.len(),
{
    if w.len() == 0 {
        m
    } else {
        apply_writes(m, w.drop_last()).insert(w.last().0, w.last().1)
    }
}

proof fn lemma_as_map_update(s: Seq<(Seq<char>, Node)>, i: int, e: (Seq<char>, Node))
    requires
        0 <= i < s.len(),
        e.0 == s[i].0,
        forall|j: int| 0 <= j < s.len() && j != i ==> (#[trigger] s[j]).0 != s[i].0,
    ensures
        as_map(s.update(i, e)) == as_map(s).insert(e.0, e.1),
    decreases s.len(),
{
    let u = s.update(i, e);
    if i == s.len() - 1 {
        assert(u.drop_last() =~= s.drop_last());
        assert(as_map(u) =~= as_map(s).insert(e.0, e.1));
    } else {
        assert(u.drop_last() =~= s.drop_last().update(i, e));
        lemma_as_map_update(s.drop_last(), i, e);
        assert(s.last().0 != e.0);
        assert(as_map(u) =~= as_map(s).insert(e.0, e.1));
    }
}

proof fn lemma_as_map_lookup(s: Seq<(Seq<char>, Node)>, h: Seq<char>)
    ensures
        as_map(s).contains_key(h) <==> exists|i: int| 0 <= i < s.len() && (#[trigger] s[i]).0 == h,
        forall|i: int|
            0 <= i < s.len() && (#[trigger] s[i]).0 == h && (forall|j: int|
                0 <= j < s.len() && j != i ==> (#[trigger] s[j]).0 != h) ==> as_map(s)[h] == s[i].1,
    decreases s.len(),
{
    if s.len() > 0 {
        let d = s.drop_last();
        lemma_as_map_lookup(d, h);
        if as_map(s).contains_key(h) && s.last().0 != h {
            let i = choose|i: int| 0 <= i < d.len() && (#[trigger] d[i]).0 == h;
            assert(s[i].0 == h);
        }
        if exists|i: int| 0 <= i < s.len() && (#[trigger] s[i]).0 == h {
            let i = choose|i: int| 0 <= i < s.len() && (#[trigger] s[i]).0 == h;
            if i < s.len() - 1 {
                assert(d[i].0 == h);
            }
        }
        assert forall|i: int|
            0 <= i < s.len() && (#[trigger] s[i]).0 == h && (forall|j: int|
                0 <= j < s.len() && j != i ==> (#[trigger] s[j]).0 != h) implies as_map(s)[h]
            == s[i].1 by {
            if i < s.len() - 1 {
                assert(s[s.len() - 1].0 != h);
                assert forall|j: int| 0 <= j < d.len() && j != i implies (#[trigger] d[j]).0 != h by {
                    assert(s[j].0 != h);
                }
                assert(d[i].0 == h);
            }
        }
    }
}

fn position(entries: &Vec<HostTree>, host: &String) -> (r: Option<usize>)
    ensures
        r matches Some(i) ==> i < entries@.len() && entries@[i as int].host@ == host@,
        r is None ==> forall|j: int|
            0 <= j < entries@.len() ==> (#[trigger] entries@[j]).host@ != host@,
{
    let n = entries.len();
    let mut i: usize = 0;
    while i < n
        invariant
            n == entries.len(),
            i <= n,
            forall|j: int| 0 <= j < i ==> (#[trigger] entries@[j]).host@ != host@,
        decreases n - i,
    {
        if entries[i].host == *host {
            return Some(i);
        }
        i = i + 1;
    }
    None
}

/// The current tree of every known host. Each host has at most one entry.
#[derive(Debug, PartialEq, Eq)]
pub struct Registry {
    entries: Vec<HostTree>,
}

impl View for Registry {
    type V = Map<Seq<char>, Node>;

    closed spec fn view(&self) -> Map<Seq<char>, Node> {
        as_map(host_views(self.entries@))
    }
}

impl Registry {
    /// The registry's invariant: no host has two entries.
    #[verifier::type_invariant]
    spec fn wf(&self) -> bool {
        distinct_hosts(self.entries@)
    }

    /// An empty registry.
    pub fn new() -> (r: Registry)
        ensures
            r@ == Map::<Seq<char>, Node>::empty(),
    {
        let r = Registry { entries: Vec::new() };
        assert(host_views(r.entries@) =~= Seq::<(Seq<char>, Node)>::empty());
        r
    }

    /// Replaces the entry of `host` with `tree`, or adds one.
    pub fn upsert(&mut self, host: String, tree: Device)
        ensures
            final(self)@ == old(self)@.insert(host@, tree@),
    {
        proof {
            use_type_invariant(&*self);
        }
        let ghost hv = host@;
        let ghost tv = tree@;
        let ghost s = host_views(self.entries@);
        let mut entries: Vec<HostTree> = Vec::new();
        std::mem::swap(&mut entries, &mut self.entries);
        match position(&entries, &host) {
            Some(i) => {
                entries.set(i, HostTree { host, tree });
                proof {
                    assert forall|j: int| 0 <= j < s.len() && j != i implies (#[trigger] s[j]).0
                        != s[i as int].0 by {
                        assert(entries@[j].host@ != entries@[i as int].host@);
                    }
                    lemma_as_map_update(s, i as int, (hv, tv));
                    assert(host_views(entries@) =~= s.update(i as int, (hv, tv)));
                }
            },
            None => {
                entries.push(HostTree { host, tree });
                proof {
                    assert(host_views(entries@) =~= s.push((hv, tv)));
                    assert(host_views(entries@).drop_last() =~= s);
                }
            },
        }
        self.entries = entries;
    }

    /// The tree of `host`, if the registry holds one.
    pub fn get(&self, host: &String) -> (r: Option<&Device>)
        ensures
            r is Some <==> self@.contains_key(host@),
            r matches Some(d) ==> d@ == self@[host@],
    {
        proof {
            use_type_invariant(self);
        }
        let ghost s = host_views(self.entries@);
        proof {
            lemma_as_map_lookup(s, host@);
        }
        match position(&self.entries, host) {
            Some(i) => {
                proof {
                    assert(s[i as int].0 == host@);
                    assert forall|j: int| 0 <= j < s.len() && j != i implies (#[trigger] s[j]).0
                        != host@ by {
                        assert(self.entries@[j].host@ != self.entries@[i as int].host@);
                    }
                }
                Some(&self.entries[i].tree)
            },
            None => {
                proof {
                    assert forall|j: int| 0 <= j < s.len() implies (#[trigger] s[j]).0 != host@ by {
                        assert(self.entries@[j].host@ != host@);
                    }
                }
                None
            },
        }
    }

    /// A copy of every entry, each host once: what a reader sees at one instant.
    pub fn snapshot(&self) -> (r: Vec<HostTree>)
        ensures
            distinct_hosts(r@),
            as_map(host_views(r@)) == self@,
    {
        proof {
            use_type_invariant(self);
        }
        let mut out: Vec<HostTree> = Vec::new();
        let n = self.entries.len();
        let mut i: usize = 0;
        while i < n
            invariant
                n == self.entries.len(),
                i <= n,
                out@.len() == i,
                forall|j: int| 0 <= j < i ==> (#[trigger] out@[j])@ == self.entries@[j]@,
            decreases n - i,
        {
            let e = &self.entries[i];
            out.push(HostTree { host: e.host.clone(), tree: e.tree.duplicate() });
            i = i + 1;
        }
        assert(host_views(out@) =~= host_views(self.entries@));
        assert forall|a: int, b: int|
            0 <= a < out@.len() && 0 <= b < out@.len() && a != b implies (#[trigger] out@[a]).host@
            != (#[trigger] out@[b]).host@ by {
            assert(self.entries@[a].host@ != self.entries@[b].host@);
        }
        out
    }

    /// Applies the writes in order, each replacing the entry of its host.
    pub fn apply(&mut self, writes: &Vec<HostTree>)
        ensures
            final(self)@ == apply_writes(old(self)@, host_views(writes@)),
    {
        let ghost start = self@;
        let n = writes.len();
        let mut i: usize = 0;
        while i < n
            invariant
                n == writes.len(),
                i <= n,
                self@ == apply_writes(start, host_views(writes@).take(i as int)),
            decreases n - i,
        {
            proof {
                let w = host_views(writes@);
                assert(w.take(i + 1).drop_last() =~= w.take(i as int));
                assert(w.take(i + 1).last() == writes@[i as int]@);
            }
            let e = &writes[i];
            self.upsert(e.host.clone(), e.tree.duplicate());
            i = i + 1;
        }
        assert(host_views(writes@).take(n as int) =~= host_views(writes@));
    }

    /// The registry filled, at start-up, from every row of the store.
    pub fn from_rows(rows: &Vec<HostTree>) -> (r: Registry)
        ensures
            r@ == apply_writes(Map::empty(), host_views(rows@)),
    {
        let mut r = Registry::new();
        r.apply(rows);
        r
    }

    /// Ingests one host's report, with the peers' trees read from the store.
    /// A report whose top node is not `Root` is refused and changes nothing.
    /// Otherwise the anchors of the report are grafted into every other
    /// host's tree, the report replaces the reporting host's own tree, and
    /// the returned writes, to be stored, are applied to the registry.
    pub fn ingest(&mut self, host: &String, tree: &Device, peers: &Vec<HostTree>) -> (r: Result<
        Vec<HostTree>,
        DeviceError,
    >)
        ensures
            r is Err <==> tree@.kind != DeviceKind::Root,
            r is Err ==> r == Err::<Vec<HostTree>, DeviceError>(DeviceError::NotRoot)
                && final(self)@ == old(self)@,
            r matches Ok(w) ==> host_views(w@) == ingest_writes(host@, tree@, host_views(peers@))
                && final(self)@ == apply_writes(old(self)@, host_views(w@)),
            r is Ok ==> final(self)@.contains_key(host@) && final(self)@[host@] == tree@,
    {
        match plan_ingest(host, tree, peers) {
            Ok(w) => {
                self.apply(&w);
                let ghost hw = host_views(w@);
                assert(hw.drop_last() =~= peer_writes(host@, anchors(tree@), host_views(peers@)));
                Ok(w)
            },
            Err(e) => Err(e),
        }
    }
}

/// Checks a report and computes the writes it causes, for the peers read
/// from the store. A report whose top node is not `Root` causes none.
pub fn plan_ingest(host: &String, tree: &Device, peers: &Vec<HostTree>) -> (r: Result<
    Vec<HostTree>,
    DeviceError,
>)
    ensures
        r is Err <==> tree@.kind != DeviceKind::Root,
        r is Err ==> r == Err::<Vec<HostTree>, DeviceError>(DeviceError::NotRoot),
        r matches Ok(w) ==> host_views(w@) == ingest_writes(host@, tree@, host_views(peers@)),
{
    if tree.kind != DeviceKind::Root {
        return Err(DeviceError::NotRoot);
    }
    let parents = match collect_virtual_device_parents(tree) {
        Ok(p) => p,
        Err(e) => return Err(e),
    };
    let ghost a = anchors(tree@);
    let mut writes: Vec<HostTree> = Vec::new();
    let n = peers.len();
    let mut i: usize = 0;
    while i < n
        invariant
            n == peers.len(),
            i <= n,
            views(parents@) == a,
            host_views(writes@) == peer_writes(host@, a, host_views(peers@).take(i as int)),
        decreases n - i,
    {
        let ghost before = writes@;
        proof {
            let ps = host_views(peers@);
            assert(ps.take(i + 1).drop_last() =~= ps.take(i as int));
            assert(ps.take(i + 1).last() == peers@[i as int]@);
        }
        let p = &peers[i];
        if p.host != *host {
            let mut t = p.tree.duplicate();
            insert_virtual_devices(&mut t, parents.as_slice());
            writes.push(HostTree { host: p.host.clone(), tree: t });
            assert(host_views(writes@) =~= host_views(before).push(writes@.last()@));
        }
        assert(host_views(writes@) =~= peer_writes(host@, a, host_views(peers@).take(i + 1)));
        i = i + 1;
    }
    assert(host_views(peers@).take(n as int) =~= host_views(peers@));
    let ghost before = writes@;
    writes.push(HostTree { host: host.clone(), tree: tree.duplicate() });
    assert(host_views(writes@) =~= host_views(before).push((host@, tree@)));
    Ok(writes)
}

} // verus!
