//! The properties the reconciler guarantees, stated and proved over the
//! plan specification.

use vstd::prelude::*;

use crate::conf::AddrSpec;
use crate::conf::IpFamily;
use crate::parse::spec_parse_ip;
use crate::plan::{OpSpec, spec_adds, spec_bulk_removal, spec_dedup_diff, spec_diff_dels,
    spec_keep_bulk_del, spec_plan_family};

verus! {

/// Membership in a pushed sequence.
proof fn lemma_push_contains<A>(s: Seq<A>, x: A, e: A)
    ensures
        s.push(x).contains(e) <==> (s.contains(e) || e == x),
{
    if s.push(x).contains(e) {
        let j = choose|j: int| 0 <= j < s.push(x).len() && s.push(x)[j] == e;
        if j < s.len() {
            assert(s[j] == e);
        }
    }
    if s.contains(e) {
        let j = choose|j: int| 0 <= j < s.len() && s[j] == e;
        assert(s.push(x)[j] == e);
    }
    if e == x {
        assert(s.push(x)[s.len() as int] == e);
    }
}

/// The computed difference contains exactly the entries of `xs` that are
/// not in `excl`.
pub proof fn lemma_dedup_diff_membership(xs: Seq<AddrSpec>, excl: Seq<AddrSpec>, e: AddrSpec)
    ensures
        spec_dedup_diff(xs, excl).contains(e) <==> (xs.contains(e) && !excl.contains(e)),
    decreases xs.len(),
{
    if xs.len() > 0 {
        lemma_dedup_diff_membership(xs.drop_last(), excl, e);
        let p = spec_dedup_diff(xs.drop_last(), excl);
        let last = xs.last();
        assert(xs =~= xs.drop_last().push(last));
        lemma_push_contains(xs.drop_last(), last, e);
        if excl.contains(last) || xs.drop_last().contains(last) {
            if e == last && !excl.contains(e) {
                assert(xs.drop_last().contains(e));
            }
        } else {
            lemma_push_contains(p, last, e);
        }
    }
}

/// A difference against a superset is empty.
proof fn lemma_dedup_diff_empty(xs: Seq<AddrSpec>, excl: Seq<AddrSpec>)
    requires
        forall|e: AddrSpec| xs.contains(e) ==> excl.contains(e),
    ensures
        spec_dedup_diff(xs, excl) == Seq::<AddrSpec>::empty(),
    decreases xs.len(),
{
    if xs.len() > 0 {
        assert(xs.contains(xs.last())) by {
            assert(xs[xs.len() - 1] == xs.last());
        }
        assert forall|e: AddrSpec| xs.drop_last().contains(e) implies excl.contains(e) by {
            let j = choose|j: int| 0 <= j < xs.drop_last().len() && xs.drop_last()[j] == e;
            assert(xs[j] == e);
        }
        lemma_dedup_diff_empty(xs.drop_last(), excl);
    }
}

/// Reconciling a family whose current entry set already equals the desired
/// entry set issues no operation and no error, whatever the family and
/// whatever the observed index holds.
pub proof fn lemma_reconcile_idempotent(
    desired: Seq<AddrSpec>,
    current: Seq<AddrSpec>,
    keys: Option<Seq<Seq<char>>>,
    family: IpFamily,
    ix: u32,
)
    requires
        desired.to_set() == current.to_set(),
    ensures
        spec_plan_family(Some(desired), Some(current), keys, family, ix).0 == Seq::<
            OpSpec,
        >::empty(),
        spec_plan_family(Some(desired), Some(current), keys, family, ix).1 is None,
{
    assert forall|e: AddrSpec| current.contains(e) implies desired.contains(e) by {
        assert(current.to_set().contains(e));
        assert(desired.to_set().contains(e));
    }
    assert forall|e: AddrSpec| desired.contains(e) implies current.contains(e) by {
        assert(desired.to_set().contains(e));
        assert(current.to_set().contains(e));
    }
    lemma_dedup_diff_empty(current, desired);
    lemma_dedup_diff_empty(desired, current);
    let dels = spec_diff_dels(spec_dedup_diff(current, desired), desired, keys, family, ix);
    let adds = spec_adds(spec_dedup_diff(desired, current), ix);
    assert(dels =~= Seq::<OpSpec>::empty());
    assert(adds.0 =~= Seq::<OpSpec>::empty());
    assert(dels + adds.0 =~= Seq::<OpSpec>::empty());
}

/// The set view of the diff: what is removed is exactly current minus
/// desired, what is added is exactly desired minus current, and an entry on
/// both sides is touched by neither, whatever order the entries come in.
pub proof fn lemma_set_symmetry(desired: Seq<AddrSpec>, current: Seq<AddrSpec>)
    ensures
        spec_dedup_diff(current, desired).to_set() =~= current.to_set().difference(
            desired.to_set(),
        ),
        spec_dedup_diff(desired, current).to_set() =~= desired.to_set().difference(
            current.to_set(),
        ),
        forall|b: AddrSpec|
            desired.contains(b) && current.contains(b) ==> !spec_dedup_diff(
                current,
                desired,
            ).contains(b) && !spec_dedup_diff(desired, current).contains(b),
{
    assert forall|e: AddrSpec|
        spec_dedup_diff(current, desired).to_set().contains(e) <==> current.to_set().difference(
            desired.to_set(),
        ).contains(e) by {
        lemma_dedup_diff_membership(current, desired, e);
    }
    assert forall|e: AddrSpec|
        spec_dedup_diff(desired, current).to_set().contains(e) <==> desired.to_set().difference(
            current.to_set(),
        ).contains(e) by {
        lemma_dedup_diff_membership(desired, current, e);
    }
    assert forall|b: AddrSpec| desired.contains(b) && current.contains(b) implies !spec_dedup_diff(
        current,
        desired,
    ).contains(b) && !spec_dedup_diff(desired, current).contains(b) by {
        lemma_dedup_diff_membership(current, desired, b);
        lemma_dedup_diff_membership(desired, current, b);
    }
}

/// A bulk removal deletes only observed keys of its own family, and, for
/// IPv6, never a unicast link-local key: exactly the keys that pass the
/// family's filter, each on the right interface.
pub proof fn lemma_bulk_removal_retains(keys: Seq<Seq<char>>, family: IpFamily, ix: u32)
    ensures
        forall|j: int|
            0 <= j < spec_bulk_removal(keys, family, ix).len() ==> ((
            #[trigger] spec_bulk_removal(keys, family, ix)[j]) matches OpSpec::Del {
                iface_index,
                key,
            } && iface_index == ix && keys.contains(key) && spec_keep_bulk_del(
                key,
                family,
            )),
        forall|k: Seq<char>|
            keys.contains(k) && spec_keep_bulk_del(k, family) ==> exists|j: int|
                0 <= j < spec_bulk_removal(keys, family, ix).len()
                    && spec_bulk_removal(keys, family, ix)[j] == (OpSpec::Del {
                    iface_index: ix,
                    key: k,
                }),
    decreases keys.len(),
{
    if keys.len() > 0 {
        lemma_bulk_removal_retains(keys.drop_last(), family, ix);
        let prefix = spec_bulk_removal(keys.drop_last(), family, ix);
        let whole = spec_bulk_removal(keys, family, ix);
        assert forall|j: int| 0 <= j < whole.len() implies ((#[trigger] whole[j]) matches
            OpSpec::Del { iface_index, key } && iface_index == ix && keys.contains(key)
            && spec_keep_bulk_del(key, family)) by {
            if j < prefix.len() {
                assert(whole[j] == prefix[j]);
                match prefix[j] {
                    OpSpec::Del { iface_index, key } => {
                        let t = choose|t: int|
                            0 <= t < keys.drop_last().len() && keys.drop_last()[t] == key;
                        assert(keys[t] == key);
                    },
                    OpSpec::Add { .. } => {},
                }
            } else {
                assert(keys[keys.len() - 1] == keys.last());
            }
        }
        assert forall|k: Seq<char>|
            keys.contains(k) && spec_keep_bulk_del(k, family) implies exists|j: int|
                0 <= j < whole.len() && whole[j] == (OpSpec::Del { iface_index: ix, key: k }) by {
            let t = choose|t: int| 0 <= t < keys.len() && keys[t] == k;
            if t < keys.len() - 1 {
                assert(keys.drop_last()[t] == k);
                assert(keys.drop_last().contains(k));
                let j = choose|j: int|
                    0 <= j < prefix.len() && prefix[j] == (OpSpec::Del {
                        iface_index: ix,
                        key: k,
                    });
                assert(whole[j] == prefix[j]);
            } else {
                assert(keys.last() == k);
                assert(whole[whole.len() - 1] == (OpSpec::Del { iface_index: ix, key: k }));
            }
        }
    }
}

/// Every delete of a diff names a key the observed index resolves, on the
/// right interface: a removal entry whose key is absent from the index
/// contributes no operation, and removals never produce an error.
pub proof fn lemma_removals_resolve_in_index(
    rm: Seq<AddrSpec>,
    desired: Seq<AddrSpec>,
    keys: Option<Seq<Seq<char>>>,
    family: IpFamily,
    ix: u32,
)
    ensures
        spec_diff_dels(rm, desired, keys, family, ix).len() <= rm.len(),
        forall|j: int|
            0 <= j < spec_diff_dels(rm, desired, keys, family, ix).len() ==> ((#[trigger] spec_diff_dels(
                rm,
                desired,
                keys,
                family,
                ix,
            )[j]) matches OpSpec::Del { iface_index, key } && iface_index == ix && keys is Some
                && keys.unwrap().contains(key)),
        keys is None ==> spec_diff_dels(rm, desired, keys, family, ix).len() == 0,
    decreases rm.len(),
{
    if rm.len() > 0 {
        lemma_removals_resolve_in_index(rm.drop_last(), desired, keys, family, ix);
    }
}

/// What the add pass issues: an error exactly when some entry's address is
/// malformed, and every issued add carries the parsed value of a desired
/// entry — a malformed entry yields no operation.
pub proof fn lemma_adds_exact(entries: Seq<AddrSpec>, ix: u32)
    ensures
        spec_adds(entries, ix).1 is None <==> (forall|i: int|
            0 <= i < entries.len() ==> spec_parse_ip((#[trigger] entries[i]).address) is Some),
        spec_adds(entries, ix).1 matches Some(a) ==> spec_parse_ip(a) is None && exists|i: int|
            0 <= i < entries.len() && (#[trigger] entries[i]).address == a,
        forall|j: int|
            0 <= j < spec_adds(entries, ix).0.len() ==> ((#[trigger] spec_adds(
                entries,
                ix,
            ).0[j]) matches OpSpec::Add { iface_index, address, prefix_len } && iface_index == ix
                && exists|i: int|
                0 <= i < entries.len() && spec_parse_ip((#[trigger] entries[i]).address)
                    == Some(address) && entries[i].prefix_len == prefix_len),
    decreases entries.len(),
{
    if entries.len() > 0 {
        lemma_adds_exact(entries.drop_first(), ix);
        let tail = entries.drop_first();
        let adds = spec_adds(entries, ix);
        match spec_parse_ip(entries[0].address) {
            Some(a) => {
                let rest = spec_adds(tail, ix);
                if rest.1 is None {
                    assert forall|i: int|
                        0 <= i < entries.len() implies spec_parse_ip(
                        (#[trigger] entries[i]).address,
                    ) is Some by {
                        if i > 0 {
                            assert(tail[i - 1] == entries[i]);
                        }
                    }
                } else {
                    let aa = rest.1.unwrap();
                    let i = choose|i: int|
                        0 <= i < tail.len() && (#[trigger] tail[i]).address == aa;
                    assert(entries[i + 1].address == aa);
                }
                assert forall|j: int| 0 <= j < adds.0.len() implies ((#[trigger] adds.0[j]) matches
                    OpSpec::Add { iface_index, address, prefix_len } && iface_index == ix
                    && exists|i: int|
                    0 <= i < entries.len() && spec_parse_ip((#[trigger] entries[i]).address)
                        == Some(address) && entries[i].prefix_len == prefix_len) by {
                    if j == 0 {
                        assert(adds.0[0] == OpSpec::Add {
                            iface_index: ix,
                            address: a,
                            prefix_len: entries[0].prefix_len,
                        });
                        assert(spec_parse_ip((entries[0]).address) == Some(a));
                    } else {
                        assert(adds.0[j] == rest.0[j - 1]);
                        match adds.0[j] {
                            OpSpec::Add { iface_index, address, prefix_len } => {
                                let i = choose|i: int|
                                    0 <= i < tail.len() && spec_parse_ip(
                                        (#[trigger] tail[i]).address,
                                    ) == Some(address) && tail[i].prefix_len == prefix_len;
                                assert(entries[i + 1] == tail[i]);
                            },
                            OpSpec::Del { .. } => {},
                        }
                    }
                }
            },
            None => {
                assert(entries[0].address == adds.1.unwrap());
            },
        }
    }
}

} // verus!
