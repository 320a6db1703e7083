use iml_device::device::{Device, DeviceKind};
use iml_device::registry::HostTree;
use iml_device::shared::{contains_device, hosts_with_device};

fn node(kind: DeviceKind, identity: &str, children: Vec<Device>) -> Device {
    Device { kind, identity: identity.to_string(), children }
}

fn host_with_pool(pool: &str) -> Device {
    node(
        DeviceKind::Root,
        "",
        vec![node(
            DeviceKind::ScsiDevice,
            "S1",
            vec![node(DeviceKind::Zpool, pool, vec![node(DeviceKind::Dataset, "ds", vec![])])],
        )],
    )
}

#[test]
fn contains_device_ignores_children() {
    let tree = host_with_pool("tank");
    assert!(contains_device(&tree, &node(DeviceKind::Zpool, "tank", vec![])));
    assert!(contains_device(&tree, &node(DeviceKind::Dataset, "ds", vec![])));
    assert!(!contains_device(&tree, &node(DeviceKind::Zpool, "other", vec![])));
    assert!(!contains_device(&tree, &node(DeviceKind::Dataset, "tank", vec![])));
}

#[test]
fn hosts_that_see_a_pool() {
    let entries = vec![
        HostTree { host: "h1".to_string(), tree: host_with_pool("tank") },
        HostTree { host: "h2".to_string(), tree: host_with_pool("other") },
        HostTree { host: "h3".to_string(), tree: host_with_pool("tank") },
    ];
    let pool = node(DeviceKind::Zpool, "tank", vec![]);
    assert_eq!(hosts_with_device(&entries, &pool), vec!["h1".to_string(), "h3".to_string()]);
    let none = node(DeviceKind::Zpool, "missing", vec![]);
    assert!(hosts_with_device(&entries, &none).is_empty());
    assert!(hosts_with_device(&vec![], &pool).is_empty());
}
