use nispor_ip::conf::{Iface, IfaceConf, IpAddrConf, IpConf, IpFamily, Ipv4AddrInfo, Ipv4Info,
    Ipv6AddrInfo, Ipv6Info};
use nispor_ip::observed::{IfaceObserved, ObservedRecord, build_observed_index};
use nispor_ip::parse::IpAddress;
use nispor_ip::plan::{AddrOp, plan_change_ips, plan_ip_conf};

fn entry(a: &str, p: u8) -> IpAddrConf {
    IpAddrConf { address: a.to_string(), prefix_len: p }
}

fn conf(list: &[(&str, u8)]) -> IpConf {
    IpConf { addresses: list.iter().map(|(a, p)| entry(a, *p)).collect() }
}

fn obs(index: u32, keys: &[&str]) -> IfaceObserved {
    IfaceObserved { index, keys: keys.iter().map(|k| k.to_string()).collect() }
}

fn del(ix: u32, key: &str) -> AddrOp {
    AddrOp::Del { iface_index: ix, key: key.to_string() }
}

#[test]
fn idempotent_both_families() {
    let v4 = conf(&[("192.0.2.1", 24), ("192.0.2.2", 24)]);
    let v6 = conf(&[("2001:db8::1", 64)]);
    let keys = obs(1, &["192.0.2.1/24", "192.0.2.2/24", "2001:db8::1/64"]);
    let (ops4, err4) = plan_ip_conf(
        Some(&keys),
        1,
        Some(&conf(&[("192.0.2.2", 24), ("192.0.2.1", 24)])),
        Some(v4),
        IpFamily::Ipv4,
    );
    assert!(ops4.is_empty());
    assert!(err4.is_none());
    let (ops6, err6) = plan_ip_conf(
        Some(&keys),
        1,
        Some(&conf(&[("2001:db8::1", 64)])),
        Some(v6),
        IpFamily::Ipv6,
    );
    assert!(ops6.is_empty());
    assert!(err6.is_none());
}

#[test]
fn bulk_removal_retains_link_local() {
    // The caller no longer manages IPv6: every IPv6 key goes, except the
    // kernel's own link-local address.
    let keys = obs(7, &["fe80::1/64", "2001:db8::1/64", "192.0.2.1/24"]);
    let cur = conf(&[("fe80::1", 64), ("2001:db8::1", 64)]);
    let (ops, err) = plan_ip_conf(Some(&keys), 7, None, Some(cur), IpFamily::Ipv6);
    assert_eq!(ops, vec![del(7, "2001:db8::1/64")]);
    assert!(err.is_none());
}

#[test]
fn bulk_removal_ipv4_leaves_ipv6_alone() {
    let keys = obs(7, &["fe80::1/64", "2001:db8::1/64", "192.0.2.1/24"]);
    let cur = conf(&[("192.0.2.1", 24)]);
    let (ops, err) = plan_ip_conf(Some(&keys), 7, None, Some(cur), IpFamily::Ipv4);
    assert_eq!(ops, vec![del(7, "192.0.2.1/24")]);
    assert!(err.is_none());
}

#[test]
fn explicit_diff_retains_link_local() {
    // Desired declares no link-local entry, so fe80::1/64 is retained even
    // though it is absent from the desired set.
    let keys = obs(3, &["fe80::1/64", "2001:db8::1/64"]);
    let desired = conf(&[("2001:db8::2", 64)]);
    let current = conf(&[("fe80::1", 64), ("2001:db8::1", 64)]);
    let (ops, err) = plan_ip_conf(Some(&keys), 3, Some(&desired), Some(current), IpFamily::Ipv6);
    assert_eq!(ops.len(), 2);
    assert_eq!(ops[0], del(3, "2001:db8::1/64"));
    assert_eq!(
        ops[1],
        AddrOp::Add {
            iface_index: 3,
            address: IpAddress::V6 {
                g0: 0x2001,
                g1: 0xdb8,
                g2: 0,
                g3: 0,
                g4: 0,
                g5: 0,
                g6: 0,
                g7: 2
            },
            prefix_len: 64,
        }
    );
    assert!(err.is_none());
}

#[test]
fn link_local_deleted_when_desired_declares_one() {
    // The desired configuration itself holds a link-local entry: retention
    // does not apply, and the stale link-local address is removed.
    let keys = obs(3, &["fe80::1/64", "fe80::2/64"]);
    let desired = conf(&[("fe80::2", 64)]);
    let current = conf(&[("fe80::1", 64), ("fe80::2", 64)]);
    let (ops, err) = plan_ip_conf(Some(&keys), 3, Some(&desired), Some(current), IpFamily::Ipv6);
    assert_eq!(ops, vec![del(3, "fe80::1/64")]);
    assert!(err.is_none());
}

#[test]
fn transient_addresses_never_compared() {
    // A finite-lifetime record never reaches the current set, so it is
    // neither deleted nor re-added, even though the kernel reports it.
    let snapshot = Ipv6Info {
        addresses: vec![
            Ipv6AddrInfo {
                address: "2001:db8::1".to_string(),
                prefix_len: 64,
                valid_lft: "forever".to_string(),
                preferred_lft: "forever".to_string(),
            },
            Ipv6AddrInfo {
                address: "2001:db8::2".to_string(),
                prefix_len: 64,
                valid_lft: "300sec".to_string(),
                preferred_lft: "300sec".to_string(),
            },
        ],
    };
    let current = snapshot.to_ip_conf();
    assert_eq!(current, conf(&[("2001:db8::1", 64)]));
    let keys = obs(5, &["2001:db8::1/64", "2001:db8::2/64"]);
    let desired = conf(&[("2001:db8::1", 64)]);
    let (ops, err) = plan_ip_conf(Some(&keys), 5, Some(&desired), Some(current), IpFamily::Ipv6);
    assert!(ops.is_empty());
    assert!(err.is_none());
}

#[test]
fn transient_excluded_from_ipv4_snapshot() {
    let snapshot = Ipv4Info {
        addresses: vec![
            Ipv4AddrInfo {
                address: "192.0.2.1".to_string(),
                prefix_len: 24,
                peer: None,
                valid_lft: "120sec".to_string(),
                preferred_lft: "120sec".to_string(),
            },
            Ipv4AddrInfo {
                address: "192.0.2.2".to_string(),
                prefix_len: 24,
                peer: Some("192.0.2.9".to_string()),
                valid_lft: "forever".to_string(),
                preferred_lft: "forever".to_string(),
            },
        ],
    };
    assert_eq!(snapshot.to_ip_conf(), conf(&[("192.0.2.2", 24)]));
}

#[test]
fn unconditional_add_on_no_baseline() {
    let desired = conf(&[("192.0.2.1", 24), ("192.0.2.2", 24)]);
    let (ops, err) = plan_ip_conf(None, 2, Some(&desired), None, IpFamily::Ipv4);
    assert_eq!(
        ops,
        vec![
            AddrOp::Add {
                iface_index: 2,
                address: IpAddress::V4 { a: 192, b: 0, c: 2, d: 1 },
                prefix_len: 24,
            },
            AddrOp::Add {
                iface_index: 2,
                address: IpAddress::V4 { a: 192, b: 0, c: 2, d: 2 },
                prefix_len: 24,
            },
        ]
    );
    assert!(err.is_none());
}

#[test]
fn set_symmetry() {
    // desired = {A, B}, current = {B, C}: remove C, add A, leave B alone.
    let desired = conf(&[("192.0.2.10", 24), ("192.0.2.11", 24)]);
    let current = conf(&[("192.0.2.11", 24), ("192.0.2.12", 24)]);
    let keys = obs(4, &["192.0.2.11/24", "192.0.2.12/24"]);
    let (ops, err) = plan_ip_conf(Some(&keys), 4, Some(&desired), Some(current), IpFamily::Ipv4);
    assert_eq!(
        ops,
        vec![
            del(4, "192.0.2.12/24"),
            AddrOp::Add {
                iface_index: 4,
                address: IpAddress::V4 { a: 192, b: 0, c: 2, d: 10 },
                prefix_len: 24,
            },
        ]
    );
    assert!(err.is_none());
}

#[test]
fn unresolvable_delete_is_silent() {
    // Two entries should be removed but only one key resolves in the index:
    // one delete is issued and the pass still succeeds.
    let desired = conf(&[]);
    let current = conf(&[("192.0.2.1", 24), ("192.0.2.2", 24)]);
    let keys = obs(9, &["192.0.2.2/24"]);
    let (ops, err) = plan_ip_conf(Some(&keys), 9, Some(&desired), Some(current), IpFamily::Ipv4);
    assert_eq!(ops, vec![del(9, "192.0.2.2/24")]);
    assert!(err.is_none());
}

#[test]
fn delete_without_any_index_entry_is_silent() {
    let desired = conf(&[]);
    let current = conf(&[("192.0.2.1", 24)]);
    let (ops, err) = plan_ip_conf(None, 9, Some(&desired), Some(current), IpFamily::Ipv4);
    assert!(ops.is_empty());
    assert!(err.is_none());
}

#[test]
fn malformed_address_aborts_pending_add() {
    let desired = conf(&[("192.0.2.1", 24), ("not-an-address", 24), ("192.0.2.3", 24)]);
    let current = conf(&[]);
    let (ops, err) = plan_ip_conf(None, 1, Some(&desired), Some(current), IpFamily::Ipv4);
    // The valid entry before the malformed one is still planned; the
    // malformed entry and everything after it produce no operation.
    assert_eq!(
        ops,
        vec![AddrOp::Add {
            iface_index: 1,
            address: IpAddress::V4 { a: 192, b: 0, c: 2, d: 1 },
            prefix_len: 24,
        }]
    );
    let err = err.expect("malformed address must surface a configuration error");
    assert_eq!(err.address.as_str(), "not-an-address");
}

#[test]
fn observed_index_groups_and_collapses() {
    let records = vec![
        ObservedRecord { iface_index: 1, address: "192.0.2.1".to_string(), prefix_len: 24 },
        ObservedRecord { iface_index: 2, address: "2001:db8::1".to_string(), prefix_len: 64 },
        ObservedRecord { iface_index: 1, address: "192.0.2.1".to_string(), prefix_len: 24 },
        ObservedRecord { iface_index: 1, address: "192.0.2.1".to_string(), prefix_len: 32 },
    ];
    let index = build_observed_index(&records);
    let one = index.lookup(1).expect("interface 1 observed");
    assert_eq!(one.keys, vec!["192.0.2.1/24".to_string(), "192.0.2.1/32".to_string()]);
    let two = index.lookup(2).expect("interface 2 observed");
    assert_eq!(two.keys, vec!["2001:db8::1/64".to_string()]);
    assert!(index.lookup(3).is_none());
}

#[test]
fn orchestration_skips_unknown_interfaces_and_orders_families() {
    let records = vec![
        ObservedRecord { iface_index: 1, address: "192.0.2.9".to_string(), prefix_len: 24 },
        ObservedRecord { iface_index: 1, address: "2001:db8::9".to_string(), prefix_len: 64 },
    ];
    let index = build_observed_index(&records);
    let ifaces = vec![
        IfaceConf {
            name: "eth0".to_string(),
            ipv4: Some(conf(&[("192.0.2.1", 24)])),
            ipv6: Some(conf(&[("2001:db8::1", 64)])),
        },
        IfaceConf {
            name: "eth-missing".to_string(),
            ipv4: Some(conf(&[("198.51.100.1", 24)])),
            ipv6: None,
        },
    ];
    let cur = vec![Iface {
        name: "eth0".to_string(),
        index: 1,
        ipv4: Some(Ipv4Info {
            addresses: vec![Ipv4AddrInfo {
                address: "192.0.2.9".to_string(),
                prefix_len: 24,
                peer: None,
                valid_lft: "forever".to_string(),
                preferred_lft: "forever".to_string(),
            }],
        }),
        ipv6: Some(Ipv6Info { addresses: vec![] }),
    }];
    let (ops, err) = plan_change_ips(&ifaces, &cur, &index);
    // IPv4 pass first: delete the stale address, add the desired one; then
    // the IPv6 pass adds its address.  The unknown interface is skipped.
    assert_eq!(ops.len(), 3);
    assert_eq!(ops[0], del(1, "192.0.2.9/24"));
    assert_eq!(
        ops[1],
        AddrOp::Add {
            iface_index: 1,
            address: IpAddress::V4 { a: 192, b: 0, c: 2, d: 1 },
            prefix_len: 24,
        }
    );
    assert_eq!(
        ops[2],
        AddrOp::Add {
            iface_index: 1,
            address: IpAddress::V6 {
                g0: 0x2001,
                g1: 0xdb8,
                g2: 0,
                g3: 0,
                g4: 0,
                g5: 0,
                g6: 0,
                g7: 1
            },
            prefix_len: 64,
        }
    );
    assert!(err.is_none());
}

#[test]
fn plan_apply_manages_one_family() {
    let records = vec![ObservedRecord {
        iface_index: 4,
        address: "192.0.2.9".to_string(),
        prefix_len: 24,
    }];
    let index = build_observed_index(&records);
    let cur = Iface {
        name: "eth1".to_string(),
        index: 4,
        ipv4: Some(Ipv4Info {
            addresses: vec![Ipv4AddrInfo {
                address: "192.0.2.9".to_string(),
                prefix_len: 24,
                peer: None,
                valid_lft: "forever".to_string(),
                preferred_lft: "forever".to_string(),
            }],
        }),
        ipv6: None,
    };
    let desired = conf(&[("192.0.2.1", 24)]);
    let (ops, err) = desired.plan_apply(&cur, IpFamily::Ipv4, &index);
    assert_eq!(ops.len(), 2);
    assert_eq!(ops[0], del(4, "192.0.2.9/24"));
    assert_eq!(
        ops[1],
        AddrOp::Add {
            iface_index: 4,
            address: IpAddress::V4 { a: 192, b: 0, c: 2, d: 1 },
            prefix_len: 24,
        }
    );
    assert!(err.is_none());
}

#[test]
fn duplicate_entries_collapse_in_diff() {
    // Duplicates in desired or current count once in the comparison.
    let desired = conf(&[("192.0.2.1", 24), ("192.0.2.1", 24)]);
    let current = conf(&[("192.0.2.2", 24), ("192.0.2.2", 24)]);
    let keys = obs(1, &["192.0.2.2/24"]);
    let (ops, err) = plan_ip_conf(Some(&keys), 1, Some(&desired), Some(current), IpFamily::Ipv4);
    assert_eq!(
        ops,
        vec![
            del(1, "192.0.2.2/24"),
            AddrOp::Add {
                iface_index: 1,
                address: IpAddress::V4 { a: 192, b: 0, c: 2, d: 1 },
                prefix_len: 24,
            },
        ]
    );
    assert!(err.is_none());
}

#[test]
fn prefix_length_distinguishes_entries() {
    // Entries differing only in prefix length are distinct.
    let desired = conf(&[("192.0.2.1", 24)]);
    let current = conf(&[("192.0.2.1", 32)]);
    let keys = obs(1, &["192.0.2.1/32"]);
    let (ops, err) = plan_ip_conf(Some(&keys), 1, Some(&desired), Some(current), IpFamily::Ipv4);
    assert_eq!(
        ops,
        vec![
            del(1, "192.0.2.1/32"),
            AddrOp::Add {
                iface_index: 1,
                address: IpAddress::V4 { a: 192, b: 0, c: 2, d: 1 },
                prefix_len: 24,
            },
        ]
    );
    assert!(err.is_none());
}
