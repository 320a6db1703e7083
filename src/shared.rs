//! Which hosts see a device: the cross-host index handed, with the merged
//! trees, to readers of the registry.
use vstd::prelude::*;
use crate::device::{compare_without_children, Device, Node};
use crate::registry::{host_views, HostTree};

verus! {

broadcast use vstd::std_specs::vec::group_vec_axioms;

/// The hosts, in order, whose tree holds a node that is the same device as `d`.
pub open spec fn hosts_with(entries: Seq<(Seq<char>, Node)>, d: Node) -> Seq<Seq<char>>
    decreases entries.len(),
{
    if entries.len() == 0 {
        Seq::empty()
    } else {
        let rest = hosts_with(entries.drop_last(), d);
        if entries.last().1.contains_device(d) {
            rest.push(entries.last().0)
        } else {
            rest
        }
    }
}

/// Whether some node of `t` is the same device as `d`.
pub fn contains_device(t: &Device, d: &Device) -> (r: bool)
    ensures
        r == t@.contains_device(d@),
    decreases t,
{
    if compare_without_children(t, d) {
        return true;
    }
    let n = t.children.len();
    let mut i: usize = 0;
    while i < n
        invariant
            n == t.children.len(),
            i <= n,
            !t@.same_device(d@),
            forall|j: int| 0 <= j < i ==> !(#[trigger] t@.children[j]).contains_device(d@),
        decreases n - i,
    {
        if contains_device(&t.children[i], d) {
            assert(t@.children[i as int].contains_device(d@));
            return true;
        }
        i = i + 1;
    }
    false
}

/// The hosts, in the order of `entries`, whose tree holds the device `d`.
pub fn hosts_with_device(entries: &Vec<HostTree>, d: &Device) -> (r: Vec<String>)
    ensures
        r@.map_values(|h: String| h@) == hosts_with(host_views(entries@), d@),
{
    let mut out: Vec<String> = Vec::new();
    let n = entries.len();
    let mut i: usize = 0;
    while i < n
        invariant
            n == entries.len(),
            i <= n,
            out@.map_values(|h: String| h@) == hosts_with(host_views(entries@).take(i as int), d@),
        decreases n - i,
    {
        let ghost before = out@;
        proof {
            let es = host_views(entries@);
            assert(es.take(i + 1).drop_last() =~= es.take(i as int));
            assert(es.take(i + 1).last() == entries@[i as int]@);
        }
        if contains_device(&entries[i].tree, d) {
            out.push(entries[i].host.clone());
            assert(out@.map_values(|h: String| h@) =~= before.map_values(|h: String| h@).push(
                entries@[i as int].host@,
            ));
        }
        i = i + 1;
    }
    assert(host_views(entries@).take(n as int) =~= host_views(entries@));
    out
}

} // verus!
