//! The reconciler: for one interface and one address family, given the
//! desired configuration, the current configuration and the observed-address
//! index, compute the ordered list of delete and add operations; and the
//! orchestration over interfaces, IPv4 before IPv6, deletes before adds
//! within a family.

use vstd::prelude::*;

use crate::addr::{addr_key, has_char, is_ipv6_addr, is_ipv6_unicast_link_local,
    is_ipv6_unicast_link_local_full, spec_addr_key, spec_is_unicast_link_local,
    spec_is_unicast_link_local_text, str_eq};
use crate::conf::{AddrSpec, Iface, IfaceConf, IfaceConfSpec, IfaceSpec, IpAddrConf, IpConf,
    IpFamily, spec_conf_of_info4, spec_conf_of_info6};
use crate::observed::{IfaceObserved, ObservedIndex, keys_contain, spec_index_lookup,
    spec_keys_opt};
use crate::parse::{IpAddress, ip_addr_str_to_enum, spec_parse_ip};

verus! {

/// One mutation to issue against the kernel channel: delete the observed
/// record filed under `key` on the interface, or add a structured address.
#[derive(Debug, Clone, PartialEq)]
pub enum AddrOp {
    Del { iface_index: u32, key: String },
    Add { iface_index: u32, address: IpAddress, prefix_len: u8 },
}

#[verifier::ext_equal]
pub ghost enum OpSpec {
    Del { iface_index: u32, key: Seq<char> },
    Add { iface_index: u32, address: IpAddress, prefix_len: u8 },
}

impl View for AddrOp {
    type V = OpSpec;

    open spec fn view(&self) -> OpSpec {
        match self {
            AddrOp::Del { iface_index, key } => OpSpec::Del {
                iface_index: *iface_index,
                key: key@,
            },
            AddrOp::Add { iface_index, address, prefix_len } => OpSpec::Add {
                iface_index: *iface_index,
                address: *address,
                prefix_len: *prefix_len,
            },
        }
    }
}

/// A desired address whose text parses as neither an IPv4 nor an IPv6
/// address: the configuration error that aborts a reconciliation pass.
#[derive(Debug, Clone, PartialEq)]
pub struct InvalidAddressError {
    pub address: String,
}

/// Spec view of a list of operations.
pub open spec fn ops_view(v: Seq<AddrOp>) -> Seq<OpSpec> {
    v.map_values(|op: AddrOp| op@)
}

/// Spec view of a list of address entries.
pub open spec fn conf_view(v: Seq<IpAddrConf>) -> Seq<AddrSpec> {
    v.map_values(|a: IpAddrConf| a@)
}

/// Does the exec error report exactly the spec-level malformed address?
pub open spec fn err_matches(e: Option<InvalidAddressError>, sp: Option<Seq<char>>) -> bool {
    match e {
        Some(er) => sp is Some && er.address@ == sp.unwrap(),
        None => sp is None,
    }
}

/// Does the desired configuration itself declare a unicast link-local entry?
pub open spec fn spec_has_ll(desired: Seq<AddrSpec>) -> bool {
    exists|i: int|
        0 <= i < desired.len() && spec_is_unicast_link_local(
            desired[i].address,
            desired[i].prefix_len,
        )
}

/// Is this observed key deleted by a bulk removal of the family?  IPv4
/// removes every IPv4 key; IPv6 removes every IPv6 key that is not unicast
/// link-local.
pub open spec fn spec_keep_bulk_del(k: Seq<char>, family: IpFamily) -> bool {
    match family {
        IpFamily::Ipv4 => !has_char(k, ':'),
        IpFamily::Ipv6 => has_char(k, ':') && !spec_is_unicast_link_local_text(k),
    }
}

/// Deletes issued when a family is no longer managed: every observed key of
/// the family, in index order, except retained link-local addresses.
pub open spec fn spec_bulk_removal(keys: Seq<Seq<char>>, family: IpFamily, ix: u32) -> Seq<OpSpec>
    decreases keys.len(),
{
    if keys.len() == 0 {
        Seq::empty()
    } else {
        let prefix = spec_bulk_removal(keys.drop_last(), family, ix);
        if spec_keep_bulk_del(keys.last(), family) {
            prefix.push(OpSpec::Del { iface_index: ix, key: keys.last() })
        } else {
            prefix
        }
    }
}

/// The entries of `xs` that are not in `excl`, each kept once, in order of
/// first occurrence: the set difference driving the diff.
pub open spec fn spec_dedup_diff(xs: Seq<AddrSpec>, excl: Seq<AddrSpec>) -> Seq<AddrSpec>
    decreases xs.len(),
{
    if xs.len() == 0 {
        Seq::empty()
    } else {
        let prefix = spec_dedup_diff(xs.drop_last(), excl);
        let e = xs.last();
        if excl.contains(e) || xs.drop_last().contains(e) {
            prefix
        } else {
            prefix.push(e)
        }
    }
}

/// Is this entry retained (not deleted) by the IPv6 link-local rule?
pub open spec fn spec_retained(e: AddrSpec, desired: Seq<AddrSpec>, family: IpFamily) -> bool {
    family == IpFamily::Ipv6 && !spec_has_ll(desired) && spec_is_unicast_link_local(
        e.address,
        e.prefix_len,
    )
}

/// Deletes issued for a computed removal set: one per entry that is not
/// retained and whose key the observed index resolves; an unresolvable key
/// is skipped silently.
pub open spec fn spec_diff_dels(
    rm: Seq<AddrSpec>,
    desired: Seq<AddrSpec>,
    keys: Option<Seq<Seq<char>>>,
    family: IpFamily,
    ix: u32,
) -> Seq<OpSpec>
    decreases rm.len(),
{
    if rm.len() == 0 {
        Seq::empty()
    } else {
        let prefix = spec_diff_dels(rm.drop_last(), desired, keys, family, ix);
        let e = rm.last();
        let kk = spec_addr_key(e.address, e.prefix_len);
        if !spec_retained(e, desired, family) && (match keys {
            Some(ks) => ks.contains(kk),
            None => false,
        }) {
            prefix.push(OpSpec::Del { iface_index: ix, key: kk })
        } else {
            prefix
        }
    }
}

/// Adds issued for a list of entries, in order, each address parsed first;
/// the first malformed address aborts the rest with a configuration error.
pub open spec fn spec_adds(entries: Seq<AddrSpec>, ix: u32) -> (Seq<OpSpec>, Option<Seq<char>>)
    decreases entries.len(),
{
    if entries.len() == 0 {
        (Seq::empty(), None::<Seq<char>>)
    } else {
        match spec_parse_ip(entries[0].address) {
            Some(a) => {
                let rest = spec_adds(entries.drop_first(), ix);
                (
                    seq![
                        OpSpec::Add {
                            iface_index: ix,
                            address: a,
                            prefix_len: entries[0].prefix_len,
                        },
                    ] + rest.0,
                    rest.1,
                )
            },
            None => (Seq::empty(), Some(entries[0].address)),
        }
    }
}

/// The decision table of the reconciler, for one interface and one family:
/// nothing when neither side manages the family; a bulk removal with
/// link-local retention when only the current side exists; unconditional
/// adds when only the desired side exists; and a set diff, deletes before
/// adds, when both exist.
pub open spec fn spec_plan_family(
    desired: Option<Seq<AddrSpec>>,
    current: Option<Seq<AddrSpec>>,
    keys: Option<Seq<Seq<char>>>,
    family: IpFamily,
    ix: u32,
) -> (Seq<OpSpec>, Option<Seq<char>>) {
    match desired {
        None => match current {
            None => (Seq::empty(), None::<Seq<char>>),
            Some(_) => (
                match keys {
                    Some(ks) => spec_bulk_removal(ks, family, ix),
                    None => Seq::empty(),
                },
                None::<Seq<char>>,
            ),
        },
        Some(d) => match current {
            None => spec_adds(d, ix),
            Some(c) => {
                let dels = spec_diff_dels(spec_dedup_diff(c, d), d, keys, family, ix);
                let adds = spec_adds(spec_dedup_diff(d, c), ix);
                (dels + adds.0, adds.1)
            },
        },
    }
}

/// Does a prefix of the entry list contain this entry (by value)?
fn conf_list_contains(list: &Vec<IpAddrConf>, n: usize, e: &IpAddrConf) -> (r: bool)
    requires
        n <= list.len(),
    ensures
        r == conf_view(list@).subrange(0, n as int).contains(e@),
{
    let mut i: usize = 0;
    while i < n
        invariant
            n <= list.len(),
            0 <= i <= n,
            forall|j: int| 0 <= j < i ==> (#[trigger] list@[j])@ != e@,
        decreases n - i,
    {
        if str_eq(list[i].address.as_str(), e.address.as_str()) && list[i].prefix_len
            == e.prefix_len {
            proof {
                assert(conf_view(list@).subrange(0, n as int)[i as int] == list@[i as int]@);
            }
            return true;
        }
        i += 1;
    }
    proof {
        let m = conf_view(list@).subrange(0, n as int);
        assert forall|j: int| 0 <= j < m.len() implies m[j] != e@ by {
            assert(m[j] == list@[j]@);
        }
    }
    false
}

/// Does the entry list contain this entry (by value)?
fn conf_contains(list: &Vec<IpAddrConf>, e: &IpAddrConf) -> (r: bool)
    ensures
        r == conf_view(list@).contains(e@),
{
    let r = conf_list_contains(list, list.len(), e);
    proof {
        assert(conf_view(list@).subrange(0, list@.len() as int) =~= conf_view(list@));
    }
    r
}

/// Entries of `xs` not in `excl`, each once, in first-occurrence order.
fn dedup_diff(xs: &Vec<IpAddrConf>, excl: &Vec<IpAddrConf>) -> (r: Vec<IpAddrConf>)
    ensures
        conf_view(r@) == spec_dedup_diff(conf_view(xs@), conf_view(excl@)),
{
    let mut out: Vec<IpAddrConf> = Vec::new();
    let n = xs.len();
    let mut i: usize = 0;
    while i < n
        invariant
            n == xs.len(),
            0 <= i <= n,
            conf_view(out@) =~= spec_dedup_diff(
                conf_view(xs@).subrange(0, i as int),
                conf_view(excl@),
            ),
        decreases n - i,
    {
        proof {
            assert(conf_view(xs@).subrange(0, (i + 1) as int).drop_last() =~= conf_view(
                xs@,
            ).subrange(0, i as int));
            assert(conf_view(xs@).subrange(0, (i + 1) as int).last() == xs@[i as int]@);
        }
        let e = &xs[i];
        if !conf_contains(excl, e) && !conf_list_contains(xs, i, e) {
            out.push(IpAddrConf { address: e.address.clone(), prefix_len: e.prefix_len });
            proof {
                assert(conf_view(out@) =~= spec_dedup_diff(
                    conf_view(xs@).subrange(0, (i + 1) as int),
                    conf_view(excl@),
                ));
            }
        }
        i += 1;
    }
    proof {
        assert(conf_view(xs@).subrange(0, n as int) =~= conf_view(xs@));
    }
    out
}

/// Does the configuration declare a unicast link-local entry?
fn conf_has_ll(c: &IpConf) -> (r: bool)
    ensures
        r == spec_has_ll(c@),
{
    let n = c.addresses.len();
    let mut i: usize = 0;
    while i < n
        invariant
            n == c.addresses.len(),
            0 <= i <= n,
            forall|j: int|
                0 <= j < i ==> !spec_is_unicast_link_local(
                    (#[trigger] c.addresses@[j])@.address,
                    c.addresses@[j]@.prefix_len,
                ),
        decreases n - i,
    {
        let a = &c.addresses[i];
        if is_ipv6_unicast_link_local_full(a.address.as_str(), a.prefix_len) {
            proof {
                assert(c@[i as int] == c.addresses@[i as int]@);
            }
            return true;
        }
        i += 1;
    }
    proof {
        assert forall|j: int| 0 <= j < c@.len() implies !spec_is_unicast_link_local(
            c@[j].address,
            c@[j].prefix_len,
        ) by {
            assert(c@[j] == c.addresses@[j]@);
        }
    }
    false
}

/// Deletes for a bulk removal: every observed key of the family, except
/// retained IPv6 link-local keys.
fn plan_bulk_removal(keys: &Vec<String>, family: IpFamily, ix: u32) -> (r: Vec<AddrOp>)
    ensures
        ops_view(r@) == spec_bulk_removal(keys@.map_values(|s: String| s@), family, ix),
{
    let ghost kv = keys@.map_values(|s: String| s@);
    let mut out: Vec<AddrOp> = Vec::new();
    let n = keys.len();
    let mut i: usize = 0;
    while i < n
        invariant
            n == keys.len(),
            kv == keys@.map_values(|s: String| s@),
            0 <= i <= n,
            ops_view(out@) =~= spec_bulk_removal(kv.subrange(0, i as int), family, ix),
        decreases n - i,
    {
        proof {
            assert(kv.subrange(0, (i + 1) as int).drop_last() =~= kv.subrange(0, i as int));
            assert(kv.subrange(0, (i + 1) as int).last() == keys@[i as int]@);
        }
        let k = &keys[i];
        let del = match family {
            IpFamily::Ipv4 => !is_ipv6_addr(k.as_str()),
            IpFamily::Ipv6 => is_ipv6_addr(k.as_str()) && !is_ipv6_unicast_link_local(k.as_str()),
        };
        if del {
            out.push(AddrOp::Del { iface_index: ix, key: k.clone() });
            proof {
                assert(ops_view(out@) =~= spec_bulk_removal(
                    kv.subrange(0, (i + 1) as int),
                    family,
                    ix,
                ));
            }
        }
        i += 1;
    }
    proof {
        assert(kv.subrange(0, n as int) =~= kv);
    }
    out
}

/// Deletes for a computed removal set, resolving each key in the observed
/// index and honouring the link-local retention rule.
fn plan_diff_dels(
    rm: &Vec<IpAddrConf>,
    desired: &IpConf,
    observed: Option<&IfaceObserved>,
    family: IpFamily,
    ix: u32,
) -> (r: Vec<AddrOp>)
    ensures
        ops_view(r@) == spec_diff_dels(
            conf_view(rm@),
            desired@,
            match observed {
                Some(e) => Some(e@.keys),
                None => None::<Seq<Seq<char>>>,
            },
            family,
            ix,
        ),
{
    let ghost keys: Option<Seq<Seq<char>>> = match observed {
        Some(e) => Some(e@.keys),
        None => None,
    };
    let has_ll = conf_has_ll(desired);
    let is_v6 = match family {
        IpFamily::Ipv6 => true,
        IpFamily::Ipv4 => false,
    };
    let mut out: Vec<AddrOp> = Vec::new();
    let n = rm.len();
    let mut i: usize = 0;
    while i < n
        invariant
            n == rm.len(),
            has_ll == spec_has_ll(desired@),
            is_v6 == (family == IpFamily::Ipv6),
            keys == (match observed {
                Some(e) => Some(e@.keys),
                None => None::<Seq<Seq<char>>>,
            }),
            0 <= i <= n,
            ops_view(out@) =~= spec_diff_dels(
                conf_view(rm@).subrange(0, i as int),
                desired@,
                keys,
                family,
                ix,
            ),
        decreases n - i,
    {
        proof {
            assert(conf_view(rm@).subrange(0, (i + 1) as int).drop_last() =~= conf_view(
                rm@,
            ).subrange(0, i as int));
            assert(conf_view(rm@).subrange(0, (i + 1) as int).last() == rm@[i as int]@);
        }
        let e = &rm[i];
        let retained = is_v6 && !has_ll && is_ipv6_unicast_link_local_full(
            e.address.as_str(),
            e.prefix_len,
        );
        if !retained {
            let kk = addr_key(e.address.as_str(), e.prefix_len);
            let resolved = match observed {
                Some(entry) => keys_contain(&entry.keys, kk.as_str()),
                None => false,
            };
            if resolved {
                out.push(AddrOp::Del { iface_index: ix, key: kk });
                proof {
                    assert(ops_view(out@) =~= spec_diff_dels(
                        conf_view(rm@).subrange(0, (i + 1) as int),
                        desired@,
                        keys,
                        family,
                        ix,
                    ));
                }
            }
        }
        i += 1;
    }
    proof {
        assert(conf_view(rm@).subrange(0, n as int) =~= conf_view(rm@));
    }
    out
}

/// Adds for the entries from position `i` on, each address parsed first; the
/// first malformed address aborts the rest.
fn plan_adds(entries: &Vec<IpAddrConf>, i: usize, ix: u32) -> (r: (
    Vec<AddrOp>,
    Option<InvalidAddressError>,
))
    requires
        i <= entries.len(),
    ensures
        ({
            let sp = spec_adds(conf_view(entries@).skip(i as int), ix);
            &&& ops_view(r.0@) == sp.0
            &&& err_matches(r.1, sp.1)
        }),
    decreases entries.len() - i,
{
    let ghost tail = conf_view(entries@).skip(i as int);
    if i == entries.len() {
        proof {
            assert(tail.len() == 0);
        }
        (Vec::new(), None)
    } else {
        proof {
            assert(tail[0] == entries@[i as int]@);
            assert(tail.drop_first() =~= conf_view(entries@).skip(i as int + 1));
        }
        let e = &entries[i];
        match ip_addr_str_to_enum(e.address.as_str()) {
            Some(a) => {
                let rest = plan_adds(entries, i + 1, ix);
                let mut ops = rest.0;
                ops.insert(0, AddrOp::Add { iface_index: ix, address: a, prefix_len: e.prefix_len });
                proof {
                    assert(ops_view(ops@) =~= seq![
                        OpSpec::Add { iface_index: ix, address: a, prefix_len: e.prefix_len },
                    ] + spec_adds(tail.drop_first(), ix).0);
                }
                (ops, rest.1)
            },
            None => (Vec::new(), Some(InvalidAddressError { address: e.address.clone() })),
        }
    }
}

/// A field-for-field copy whose view equals the source value's.
pub fn clone_conf(c: &IpConf) -> (r: IpConf)
    ensures
        r@ == c@,
{
    let mut out: Vec<IpAddrConf> = Vec::new();
    let n = c.addresses.len();
    let mut i: usize = 0;
    while i < n
        invariant
            n == c.addresses.len(),
            0 <= i <= n,
            conf_view(out@) =~= c@.subrange(0, i as int),
        decreases n - i,
    {
        proof {
            assert(c@.subrange(0, (i + 1) as int).drop_last() =~= c@.subrange(0, i as int));
            assert(c@.subrange(0, (i + 1) as int).last() == c@[i as int]);
            assert(c@[i as int] == c.addresses@[i as int]@);
        }
        let a = &c.addresses[i];
        out.push(IpAddrConf { address: a.address.clone(), prefix_len: a.prefix_len });
        proof {
            assert(conf_view(out@) =~= c@.subrange(0, (i + 1) as int));
        }
        i += 1;
    }
    proof {
        assert(c@.subrange(0, n as int) =~= c@);
    }
    let r = IpConf { addresses: out };
    proof {
        assert(r@ =~= c@);
    }
    r
}

/// Reconcile one family of one interface: compute the operations the kernel
/// must perform, deletes before adds, per the decision table of
/// [`spec_plan_family`].
pub fn plan_ip_conf(
    observed: Option<&IfaceObserved>,
    iface_index: u32,
    ip_conf: Option<&IpConf>,
    cur_ip_conf: Option<IpConf>,
    ip_family: IpFamily,
) -> (r: (Vec<AddrOp>, Option<InvalidAddressError>))
    ensures
        ({
            let sp = spec_plan_family(
                match ip_conf {
                    Some(d) => Some(d@),
                    None => None::<Seq<AddrSpec>>,
                },
                match cur_ip_conf {
                    Some(c) => Some(c@),
                    None => None::<Seq<AddrSpec>>,
                },
                match observed {
                    Some(e) => Some(e@.keys),
                    None => None::<Seq<Seq<char>>>,
                },
                ip_family,
                iface_index,
            );
            &&& ops_view(r.0@) == sp.0
            &&& err_matches(r.1, sp.1)
        }),
{
    match ip_conf {
        None => match cur_ip_conf {
            None => (Vec::new(), None),
            Some(_) => {
                match observed {
                    Some(e) => (plan_bulk_removal(&e.keys, ip_family, iface_index), None),
                    None => (Vec::new(), None),
                }
            },
        },
        Some(d) => match cur_ip_conf {
            None => {
                let r = plan_adds(&d.addresses, 0, iface_index);
                proof {
                    assert(conf_view(d.addresses@).skip(0) =~= d@);
                }
                r
            },
            Some(c) => {
                let rm = dedup_diff(&c.addresses, &d.addresses);
                let dels = plan_diff_dels(&rm, d, observed, ip_family, iface_index);
                let ta = dedup_diff(&d.addresses, &c.addresses);
                let adds = plan_adds(&ta, 0, iface_index);
                proof {
                    assert(conf_view(ta@).skip(0) =~= conf_view(ta@));
                    assert(conf_view(c.addresses@) =~= c@);
                    assert(conf_view(d.addresses@) =~= d@);
                }
                let mut ops = dels;
                let mut add_ops = adds.0;
                let ghost dv = ops_view(ops@);
                let ghost av = ops_view(add_ops@);
                ops.append(&mut add_ops);
                proof {
                    assert(ops_view(ops@) =~= dv + av);
                }
                (ops, adds.1)
            },
        },
    }
}

/// The plan for one interface: IPv4 reconciled before IPv6; a configuration
/// error in the IPv4 pass aborts the IPv6 pass.
pub open spec fn spec_plan_iface(
    conf: IfaceConfSpec,
    cur: IfaceSpec,
    keys: Option<Seq<Seq<char>>>,
) -> (Seq<OpSpec>, Option<Seq<char>>) {
    let cur4 = match cur.ipv4 {
        Some(i4) => Some(spec_conf_of_info4(i4)),
        None => None::<Seq<AddrSpec>>,
    };
    let p4 = spec_plan_family(conf.ipv4, cur4, keys, IpFamily::Ipv4, cur.index);
    if p4.1 is Some {
        p4
    } else {
        let cur6 = match cur.ipv6 {
            Some(i6) => Some(spec_conf_of_info6(i6)),
            None => None::<Seq<AddrSpec>>,
        };
        let p6 = spec_plan_family(conf.ipv6, cur6, keys, IpFamily::Ipv6, cur.index);
        (p4.0 + p6.0, p6.1)
    }
}

/// Reconcile both families of one interface.
pub fn plan_iface(conf: &IfaceConf, cur: &Iface, observed: &ObservedIndex) -> (r: (
    Vec<AddrOp>,
    Option<InvalidAddressError>,
))
    ensures
        ({
            let sp = spec_plan_iface(conf@, cur@, spec_keys_opt(observed@, cur@.index));
            &&& ops_view(r.0@) == sp.0
            &&& err_matches(r.1, sp.1)
        }),
{
    let entry = observed.lookup(cur.index);
    let cur4 = match &cur.ipv4 {
        Some(i) => Some(i.to_ip_conf()),
        None => None,
    };
    let p4 = plan_ip_conf(entry, cur.index, conf.ipv4.as_ref(), cur4, IpFamily::Ipv4);
    match p4.1 {
        Some(e) => (p4.0, Some(e)),
        None => {
            let cur6 = match &cur.ipv6 {
                Some(i) => Some(i.to_ip_conf()),
                None => None,
            };
            let p6 = plan_ip_conf(entry, cur.index, conf.ipv6.as_ref(), cur6, IpFamily::Ipv6);
            let mut ops = p4.0;
            let mut add_ops = p6.0;
            let ghost v4 = ops_view(ops@);
            let ghost v6 = ops_view(add_ops@);
            ops.append(&mut add_ops);
            proof {
                assert(ops_view(ops@) =~= v4 + v6);
            }
            (ops, p6.1)
        },
    }
}

/// First interface of the given name in the current-state list, if any.
pub open spec fn spec_find_iface(cur_ifaces: Seq<IfaceSpec>, name: Seq<char>) -> Option<IfaceSpec>
    decreases cur_ifaces.len(),
{
    if cur_ifaces.len() == 0 {
        None
    } else if cur_ifaces[0].name == name {
        Some(cur_ifaces[0])
    } else {
        spec_find_iface(cur_ifaces.drop_first(), name)
    }
}

/// Spec view of a list of current interfaces.
pub open spec fn cur_view(v: Seq<Iface>) -> Seq<IfaceSpec> {
    v.map_values(|e: Iface| e@)
}

/// Spec view of a list of desired interface configurations.
pub open spec fn confs_view(v: Seq<IfaceConf>) -> Seq<IfaceConfSpec> {
    v.map_values(|e: IfaceConf| e@)
}

fn find_iface_rec<'a>(v: &'a Vec<Iface>, i: usize, name: &str) -> (r: Option<&'a Iface>)
    requires
        i <= v.len(),
    ensures
        match r {
            Some(e) => spec_find_iface(cur_view(v@).skip(i as int), name@) == Some(e@),
            None => spec_find_iface(cur_view(v@).skip(i as int), name@) is None,
        },
    decreases v.len() - i,
{
    let ghost w = cur_view(v@).skip(i as int);
    if i == v.len() {
        proof {
            assert(w.len() == 0);
        }
        None
    } else {
        proof {
            assert(w[0] == v@[i as int]@);
            assert(w.drop_first() =~= cur_view(v@).skip(i as int + 1));
        }
        if str_eq(v[i].name.as_str(), name) {
            Some(&v[i])
        } else {
            find_iface_rec(v, i + 1, name)
        }
    }
}

/// The plan of a whole reconciliation run: each requested interface that has
/// an observed baseline, in the caller's order; an interface without a
/// baseline is skipped silently; the first configuration error aborts the
/// rest of the run.
pub open spec fn spec_change_ips(
    ifaces: Seq<IfaceConfSpec>,
    cur_ifaces: Seq<IfaceSpec>,
    index: Seq<crate::observed::IfaceObservedSpec>,
) -> (Seq<OpSpec>, Option<Seq<char>>)
    decreases ifaces.len(),
{
    if ifaces.len() == 0 {
        (Seq::empty(), None::<Seq<char>>)
    } else {
        let this = match spec_find_iface(cur_ifaces, ifaces[0].name) {
            Some(cur) => spec_plan_iface(ifaces[0], cur, spec_keys_opt(index, cur.index)),
            None => (Seq::empty(), None::<Seq<char>>),
        };
        if this.1 is Some {
            this
        } else {
            let rest = spec_change_ips(ifaces.drop_first(), cur_ifaces, index);
            (this.0 + rest.0, rest.1)
        }
    }
}

fn change_ips_rec(
    ifaces: &Vec<IfaceConf>,
    i: usize,
    cur_ifaces: &Vec<Iface>,
    observed: &ObservedIndex,
) -> (r: (Vec<AddrOp>, Option<InvalidAddressError>))
    requires
        i <= ifaces.len(),
    ensures
        ({
            let sp = spec_change_ips(
                confs_view(ifaces@).skip(i as int),
                cur_view(cur_ifaces@),
                observed@,
            );
            &&& ops_view(r.0@) == sp.0
            &&& err_matches(r.1, sp.1)
        }),
    decreases ifaces.len() - i,
{
    let ghost w = confs_view(ifaces@).skip(i as int);
    if i == ifaces.len() {
        proof {
            assert(w.len() == 0);
        }
        (Vec::new(), None)
    } else {
        proof {
            assert(w[0] == ifaces@[i as int]@);
            assert(w.drop_first() =~= confs_view(ifaces@).skip(i as int + 1));
        }
        let conf = &ifaces[i];
        let this = match find_iface_rec(cur_ifaces, 0, conf.name.as_str()) {
            Some(cur) => {
                proof {
                    assert(cur_view(cur_ifaces@).skip(0) =~= cur_view(cur_ifaces@));
                }
                plan_iface(conf, cur, observed)
            },
            None => {
                proof {
                    assert(cur_view(cur_ifaces@).skip(0) =~= cur_view(cur_ifaces@));
                }
                (Vec::new(), None)
            },
        };
        match this.1 {
            Some(e) => (this.0, Some(e)),
            None => {
                let rest = change_ips_rec(ifaces, i + 1, cur_ifaces, observed);
                let mut ops = this.0;
                let mut rest_ops = rest.0;
                let ghost va = ops_view(ops@);
                let ghost vb = ops_view(rest_ops@);
                ops.append(&mut rest_ops);
                proof {
                    assert(ops_view(ops@) =~= va + vb);
                }
                (ops, rest.1)
            },
        }
    }
}

/// Reconcile the requested interfaces against the current state: build the
/// full, ordered operation list of the run.
pub fn plan_change_ips(
    ifaces: &Vec<IfaceConf>,
    cur_ifaces: &Vec<Iface>,
    observed: &ObservedIndex,
) -> (r: (Vec<AddrOp>, Option<InvalidAddressError>))
    ensures
        ({
            let sp = spec_change_ips(confs_view(ifaces@), cur_view(cur_ifaces@), observed@);
            &&& ops_view(r.0@) == sp.0
            &&& err_matches(r.1, sp.1)
        }),
{
    let r = change_ips_rec(ifaces, 0, cur_ifaces, observed);
    proof {
        assert(confs_view(ifaces@).skip(0) =~= confs_view(ifaces@));
    }
    r
}

impl IpConf {
    /// Reconcile this configuration as the desired state of one family of
    /// one interface, leaving the other family unmanaged.
    pub fn plan_apply(&self, cur_iface: &Iface, family: IpFamily, observed: &ObservedIndex) -> (r:
        (Vec<AddrOp>, Option<InvalidAddressError>))
        ensures
            ({
                let conf = IfaceConfSpec {
                    name: cur_iface@.name,
                    ipv4: if family == IpFamily::Ipv4 {
                        Some(self@)
                    } else {
                        None::<Seq<AddrSpec>>
                    },
                    ipv6: if family == IpFamily::Ipv6 {
                        Some(self@)
                    } else {
                        None::<Seq<AddrSpec>>
                    },
                };
                let sp = spec_change_ips(seq![conf], seq![cur_iface@], observed@);
                &&& ops_view(r.0@) == sp.0
                &&& err_matches(r.1, sp.1)
            }),
    {
        let me = clone_conf(self);
        let iface = match family {
            IpFamily::Ipv4 => IfaceConf { name: cur_iface.name.clone(), ipv4: Some(me), ipv6: None },
            IpFamily::Ipv6 => IfaceConf { name: cur_iface.name.clone(), ipv4: None, ipv6: Some(me) },
        };
        let r = plan_iface(&iface, cur_iface, observed);
        proof {
            let confs = seq![iface@];
            let curs = seq![cur_iface@];
            assert(spec_find_iface(curs, iface@.name) == Some(cur_iface@));
            let this = spec_plan_iface(iface@, cur_iface@, spec_keys_opt(observed@, cur_iface@.index));
            if !(this.1 is Some) {
                assert(confs.drop_first().len() == 0);
                assert(spec_change_ips(confs.drop_first(), curs, observed@) == (
                    Seq::<OpSpec>::empty(),
                    None::<Seq<char>>,
                ));
                assert(this.0 + Seq::<OpSpec>::empty() =~= this.0);
            }
        }
        r
    }
}

} // verus!
