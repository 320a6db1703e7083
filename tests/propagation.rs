use iml_device::device::{
    compare_without_children, is_virtual, without_children, Device, DeviceKind,
};
use iml_device::propagate::{insert, insert_virtual_devices};
use iml_device::resolve::{collect_virtual_device_parents, DeviceError};

fn node(kind: DeviceKind, identity: &str, children: Vec<Device>) -> Device {
    Device { kind, identity: identity.to_string(), children }
}

fn leaf(kind: DeviceKind, identity: &str) -> Device {
    node(kind, identity, vec![])
}

fn lv(name: &str) -> Device {
    leaf(DeviceKind::LogicalVolume, name)
}

fn vg_partition(partition: &str, vg: &str, lv_name: &str) -> Device {
    node(
        DeviceKind::Partition,
        partition,
        vec![node(DeviceKind::VolumeGroup, vg, vec![lv(lv_name)])],
    )
}

fn scsi(serial: &str, children: Vec<Device>) -> Device {
    node(DeviceKind::ScsiDevice, serial, children)
}

fn root(children: Vec<Device>) -> Device {
    node(DeviceKind::Root, "", children)
}

#[test]
fn graft_twice_same_as_once() {
    let anchor = vg_partition("part1", "VG1", "LV1");
    let mut once = root(vec![scsi("S1", vec![leaf(DeviceKind::Partition, "part1")])]);
    insert(&mut once, &anchor);
    let mut twice = once.duplicate();
    insert(&mut twice, &anchor);
    assert_eq!(once, twice);
    assert_eq!(once, root(vec![scsi("S1", vec![vg_partition("part1", "VG1", "LV1")])]));
}

#[test]
fn graft_order_does_not_matter() {
    let start = root(vec![
        scsi("S1", vec![leaf(DeviceKind::Partition, "part1")]),
        scsi("S2", vec![]),
    ]);
    let a = vg_partition("part1", "VG1", "LV1");
    let b = scsi("S2", vec![node(DeviceKind::MdRaid, "md0", vec![])]);
    let mut ab = start.duplicate();
    insert_virtual_devices(&mut ab, &[a.duplicate(), b.duplicate()]);
    let mut ba = start.duplicate();
    insert_virtual_devices(&mut ba, &[b.duplicate(), a.duplicate()]);
    assert_eq!(ab, ba);
    assert_eq!(
        ab,
        root(vec![
            scsi("S1", vec![vg_partition("part1", "VG1", "LV1")]),
            scsi("S2", vec![node(DeviceKind::MdRaid, "md0", vec![])]),
        ])
    );
}

#[test]
fn identity_ignores_children() {
    let bare = leaf(DeviceKind::Partition, "part1");
    let full = vg_partition("part1", "VG1", "LV1");
    assert!(compare_without_children(&bare, &full));
    let other = vg_partition("part2", "VG1", "LV1");
    assert!(!compare_without_children(&full, &other));
    let other_kind = leaf(DeviceKind::ScsiDevice, "part1");
    assert!(!compare_without_children(&bare, &other_kind));
}

#[test]
fn without_children_keeps_attributes() {
    let full = vg_partition("part1", "VG1", "LV1");
    assert_eq!(without_children(&full), leaf(DeviceKind::Partition, "part1"));
}

#[test]
fn graft_replaces_whole_subtree() {
    let mut peer = root(vec![scsi(
        "S1",
        vec![node(
            DeviceKind::Partition,
            "part1",
            vec![node(DeviceKind::VolumeGroup, "VG0", vec![lv("LV0"), lv("LV9")])],
        )],
    )]);
    let anchor = vg_partition("part1", "VG1", "LV1");
    insert(&mut peer, &anchor);
    assert_eq!(peer, root(vec![scsi("S1", vec![vg_partition("part1", "VG1", "LV1")])]));
}

#[test]
fn graft_without_match_is_noop() {
    let peer = root(vec![scsi("S2", vec![leaf(DeviceKind::Partition, "part2")])]);
    let mut grafted = peer.duplicate();
    insert(&mut grafted, &vg_partition("part1", "VG1", "LV1"));
    assert_eq!(grafted, peer);
}

#[test]
fn graft_of_nothing_round_trips() {
    let peer = root(vec![scsi("S1", vec![vg_partition("part1", "VG1", "LV1")])]);
    let mut grafted = peer.duplicate();
    insert_virtual_devices(&mut grafted, &[]);
    assert_eq!(grafted, peer);
}

#[test]
fn graft_reaches_every_copy_of_a_device() {
    let mpath = |children: Vec<Device>| node(DeviceKind::Mpath, "mpatha", children);
    let mut peer = root(vec![scsi("S1", vec![mpath(vec![])]), scsi("S1b", vec![mpath(vec![])])]);
    let anchor = mpath(vec![node(DeviceKind::Zpool, "pool1", vec![])]);
    insert(&mut peer, &anchor);
    let with_pool = || mpath(vec![node(DeviceKind::Zpool, "pool1", vec![])]);
    assert_eq!(peer, root(vec![scsi("S1", vec![with_pool()]), scsi("S1b", vec![with_pool()])]));
}

#[test]
fn virtual_kinds() {
    for k in [
        DeviceKind::Dataset,
        DeviceKind::LogicalVolume,
        DeviceKind::MdRaid,
        DeviceKind::VolumeGroup,
        DeviceKind::Zpool,
    ] {
        assert!(k.is_virtual());
        assert!(is_virtual(&leaf(k, "x")));
    }
    for k in [DeviceKind::Root, DeviceKind::ScsiDevice, DeviceKind::Partition, DeviceKind::Mpath] {
        assert!(!k.is_virtual());
        assert!(!is_virtual(&leaf(k, "x")));
    }
}

#[test]
fn anchors_are_physical_parents_of_virtual_devices() {
    let tree = root(vec![
        scsi("S1", vec![vg_partition("part1", "VG1", "LV1")]),
        scsi("S2", vec![leaf(DeviceKind::Partition, "part2")]),
        scsi("S3", vec![node(DeviceKind::Zpool, "pool", vec![leaf(DeviceKind::Dataset, "ds")])]),
    ]);
    let anchors = collect_virtual_device_parents(&tree).unwrap();
    assert_eq!(anchors.len(), 2);
    assert_eq!(anchors[0], vg_partition("part1", "VG1", "LV1"));
    assert_eq!(
        anchors[1],
        scsi("S3", vec![node(DeviceKind::Zpool, "pool", vec![leaf(DeviceKind::Dataset, "ds")])])
    );
}

#[test]
fn parent_with_two_virtual_children_is_an_anchor_twice() {
    let disk = scsi("S1", vec![leaf(DeviceKind::MdRaid, "md0"), leaf(DeviceKind::Zpool, "z")]);
    let tree = root(vec![disk.duplicate()]);
    let anchors = collect_virtual_device_parents(&tree).unwrap();
    assert_eq!(anchors.len(), 2);
    assert_eq!(anchors[0], disk);
    assert_eq!(anchors[1], disk);
}

#[test]
fn tree_without_virtual_devices_has_no_anchors() {
    let tree = root(vec![scsi("S1", vec![leaf(DeviceKind::Partition, "part1")])]);
    assert!(collect_virtual_device_parents(&tree).unwrap().is_empty());
    assert!(collect_virtual_device_parents(&root(vec![])).unwrap().is_empty());
}

#[test]
fn virtual_top_node_is_an_orphan() {
    let tree = node(DeviceKind::VolumeGroup, "VG1", vec![lv("LV1")]);
    assert_eq!(collect_virtual_device_parents(&tree), Err(DeviceError::OrphanVirtual));
}

#[test]
fn duplicate_is_deep_copy() {
    let tree = root(vec![scsi("S1", vec![vg_partition("part1", "VG1", "LV1")])]);
    assert_eq!(tree.duplicate(), tree);
}
