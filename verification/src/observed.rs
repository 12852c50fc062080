//! The observed-address index: for each interface (by kernel index), the
//! `address/prefixLength` keys of the address records the kernel reported in
//! one query.  The raw records themselves are the caller's to keep; the
//! reconciler only needs to know which keys exist, and names a key in each
//! delete operation it emits.

use vstd::prelude::*;

use crate::addr::{addr_key, spec_addr_key, str_eq};

verus! {

/// One kernel-reported address record, reduced to the plain values the index
/// is built from.
#[derive(Debug, Clone, PartialEq)]
pub struct ObservedRecord {
    pub iface_index: u32,
    pub address: String,
    pub prefix_len: u8,
}

/// The observed keys of one interface.
#[derive(Debug, Clone, PartialEq)]
pub struct IfaceObserved {
    pub index: u32,
    pub keys: Vec<String>,
}

#[verifier::ext_equal]
pub ghost struct IfaceObservedSpec {
    pub index: u32,
    pub keys: Seq<Seq<char>>,
}

impl View for IfaceObserved {
    type V = IfaceObservedSpec;

    open spec fn view(&self) -> IfaceObservedSpec {
        IfaceObservedSpec { index: self.index, keys: self.keys@.map_values(|s: String| s@) }
    }
}

/// The index over all interfaces, built once per reconciliation run.
#[derive(Debug, Clone, PartialEq)]
pub struct ObservedIndex {
    pub ifaces: Vec<IfaceObserved>,
}

impl View for ObservedIndex {
    type V = Seq<IfaceObservedSpec>;

    open spec fn view(&self) -> Seq<IfaceObservedSpec> {
        self.ifaces@.map_values(|e: IfaceObserved| e@)
    }
}

/// Spec view of a list of interface entries.
pub open spec fn ifaces_view(v: Seq<IfaceObserved>) -> Seq<IfaceObservedSpec> {
    v.map_values(|e: IfaceObserved| e@)
}

/// Interfaces appear at most once, and an interface's keys are distinct.
pub open spec fn wf_observed(v: Seq<IfaceObservedSpec>) -> bool {
    &&& forall|i: int, j: int|
        0 <= i < j < v.len() ==> v[i].index != v[j].index
    &&& forall|e: int, i: int, j: int|
        0 <= e < v.len() && 0 <= i < j < v[e].keys.len() ==> v[e].keys[i] != v[e].keys[j]
}

/// Is some interface filed under this kernel index?
pub open spec fn index_has(v: Seq<IfaceObservedSpec>, ix: u32) -> bool {
    exists|j: int| 0 <= j < v.len() && v[j].index == ix
}

/// First entry filed under this kernel index, if any.
pub open spec fn spec_index_lookup(v: Seq<IfaceObservedSpec>, ix: u32) -> Option<
    IfaceObservedSpec,
>
    decreases v.len(),
{
    if v.len() == 0 {
        None
    } else if v[0].index == ix {
        Some(v[0])
    } else {
        spec_index_lookup(v.drop_first(), ix)
    }
}

/// The keys filed under this kernel index, if any.
pub open spec fn spec_keys_opt(v: Seq<IfaceObservedSpec>, ix: u32) -> Option<Seq<Seq<char>>> {
    match spec_index_lookup(v, ix) {
        Some(e) => Some(e.keys),
        None => None,
    }
}

/// Does a key list contain this key?
pub fn keys_contain(keys: &Vec<String>, k: &str) -> (r: bool)
    ensures
        r == keys@.map_values(|s: String| s@).contains(k@),
{
    let n = keys.len();
    let mut i: usize = 0;
    while i < n
        invariant
            n == keys.len(),
            0 <= i <= n,
            forall|j: int| 0 <= j < i ==> (#[trigger] keys@[j])@ != k@,
        decreases n - i,
    {
        if str_eq(keys[i].as_str(), k) {
            proof {
                assert(keys@.map_values(|s: String| s@)[i as int] == k@);
            }
            return true;
        }
        i += 1;
    }
    proof {
        let m = keys@.map_values(|s: String| s@);
        assert forall|j: int| 0 <= j < m.len() implies m[j] != k@ by {
            assert(m[j] == keys@[j]@);
        }
    }
    false
}

/// Position of the entry filed under a kernel index.
fn find_iface_pos(v: &Vec<IfaceObserved>, ix: u32) -> (r: Option<usize>)
    ensures
        match r {
            Some(j) => j < v.len() && v@.map_values(|e: IfaceObserved| e@)[j as int].index == ix,
            None => !index_has(v@.map_values(|e: IfaceObserved| e@), ix),
        },
{
    let n = v.len();
    let mut i: usize = 0;
    while i < n
        invariant
            n == v.len(),
            0 <= i <= n,
            forall|j: int| 0 <= j < i ==> (#[trigger] v@[j]).index != ix,
        decreases n - i,
    {
        if v[i].index == ix {
            proof {
                assert(v@.map_values(|e: IfaceObserved| e@)[i as int].index == ix);
            }
            return Some(i);
        }
        i += 1;
    }
    proof {
        let m = v@.map_values(|e: IfaceObserved| e@);
        assert forall|j: int| 0 <= j < m.len() implies m[j].index != ix by {
            assert(m[j] == v@[j]@);
        }
    }
    None
}

impl ObservedIndex {
    /// Entry of one interface, by its kernel index.
    pub fn lookup(&self, ix: u32) -> (r: Option<&IfaceObserved>)
        ensures
            match r {
                Some(e) => spec_index_lookup(self@, ix) == Some(e@),
                None => spec_index_lookup(self@, ix) is None,
            },
    {
        lookup_rec(&self.ifaces, 0, ix)
    }
}

fn lookup_rec(v: &Vec<IfaceObserved>, i: usize, ix: u32) -> (r: Option<&IfaceObserved>)
    requires
        i <= v.len(),
    ensures
        match r {
            Some(e) => spec_index_lookup(v@.map_values(|e0: IfaceObserved| e0@).skip(i as int), ix)
                == Some(e@),
            None => spec_index_lookup(
                v@.map_values(|e0: IfaceObserved| e0@).skip(i as int),
                ix,
            ) is None,
        },
        i == 0 ==> (match r {
            Some(e) => spec_index_lookup(v@.map_values(|e0: IfaceObserved| e0@), ix) == Some(e@),
            None => spec_index_lookup(v@.map_values(|e0: IfaceObserved| e0@), ix) is None,
        }),
    decreases v.len() - i,
{
    let ghost w = v@.map_values(|e0: IfaceObserved| e0@);
    proof {
        if i == 0 {
            assert(w.skip(0) =~= w);
        }
    }
    if i == v.len() {
        proof {
            assert(w.skip(i as int).len() == 0);
        }
        None
    } else {
        proof {
            assert(w.skip(i as int)[0] == w[i as int]);
            assert(w.skip(i as int).drop_first() =~= w.skip(i as int + 1));
        }
        if v[i].index == ix {
            Some(&v[i])
        } else {
            lookup_rec(v, i + 1, ix)
        }
    }
}

/// Build the observed index from the kernel's reported records: one entry per
/// reported interface, holding the key of every record reported for it, each
/// key kept once.
pub fn build_observed_index(records: &Vec<ObservedRecord>) -> (r: ObservedIndex)
    ensures
        wf_observed(r@),
        forall|ix: u32|
            #[trigger] index_has(r@, ix) <==> exists|t: int|
                0 <= t < records@.len() && records@[t].iface_index == ix,
        forall|j: int, k: Seq<char>|
            0 <= j < r@.len() ==> (#[trigger] r@[j].keys.contains(k) <==> exists|t: int|
                0 <= t < records@.len() && records@[t].iface_index == r@[j].index
                    && spec_addr_key(records@[t].address@, records@[t].prefix_len) == k),
{
    let mut out: Vec<IfaceObserved> = Vec::new();
    let n = records.len();
    let mut i: usize = 0;
    while i < n
        invariant
            n == records.len(),
            0 <= i <= n,
            wf_observed(ifaces_view(out@)),
            forall|ix: u32|
                #[trigger] index_has(ifaces_view(out@), ix) <==> exists|t: int|
                    0 <= t < i && records@[t].iface_index == ix,
            forall|j: int, k: Seq<char>|
                0 <= j < out@.len() ==> (#[trigger] ifaces_view(out@)[j].keys
                    .contains(k) <==> exists|t: int|
                    0 <= t < i && records@[t].iface_index == out@.map_values(
                        |e: IfaceObserved| e@,
                    )[j].index && spec_addr_key(records@[t].address@, records@[t].prefix_len) == k),
        decreases n - i,
    {
        let ghost oldv = ifaces_view(out@);
        let rec = &records[i];
        let x = rec.iface_index;
        let key = addr_key(rec.address.as_str(), rec.prefix_len);
        let ghost kk = key@;
        match find_iface_pos(&out, x) {
            None => {
                let mut ks: Vec<String> = Vec::new();
                ks.push(key);
                let e = IfaceObserved { index: x, keys: ks };
                proof {
                    assert(e@.keys =~= seq![kk]);
                }
                out.push(e);
                proof {
                    let newv = ifaces_view(out@);
                    assert(newv =~= oldv.push(e@));
                    assert forall|ix: u32| #[trigger]
                        index_has(newv, ix) <==> exists|t: int|
                            0 <= t < i + 1 && records@[t].iface_index == ix by {
                        if ix == x {
                            assert(newv[oldv.len() as int].index == x);
                            assert(records@[i as int].iface_index == x);
                            assert(index_has(newv, ix));
                        } else {
                            if index_has(newv, ix) {
                                let j = choose|j: int|
                                    0 <= j < newv.len() && newv[j].index == ix;
                                assert(j < oldv.len());
                                assert(oldv[j].index == ix);
                                assert(index_has(oldv, ix));
                            }
                            if exists|t: int| 0 <= t < i + 1 && records@[t].iface_index == ix {
                                let t = choose|t: int|
                                    0 <= t < i + 1 && records@[t].iface_index == ix;
                                assert(t < i);
                                assert(index_has(oldv, ix));
                                let j = choose|j: int|
                                    0 <= j < oldv.len() && oldv[j].index == ix;
                                assert(newv[j].index == ix);
                            }
                        }
                    }
                    assert forall|j: int, k: Seq<char>|
                        0 <= j < newv.len() implies (#[trigger] newv[j].keys.contains(k)
                        <==> exists|t: int|
                            0 <= t < i + 1 && records@[t].iface_index == newv[j].index
                                && spec_addr_key(records@[t].address@, records@[t].prefix_len)
                                == k) by {
                        if j < oldv.len() {
                            assert(newv[j] == oldv[j]);
                            assert(newv[j].index != x) by {
                                assert(!index_has(oldv, x));
                            }
                            if newv[j].keys.contains(k) {
                                let t = choose|t: int|
                                    0 <= t < i && records@[t].iface_index == oldv[j].index
                                        && spec_addr_key(
                                        records@[t].address@,
                                        records@[t].prefix_len,
                                    ) == k;
                                assert(0 <= t < i + 1 && records@[t].iface_index == newv[j].index
                                    && spec_addr_key(records@[t].address@, records@[t].prefix_len)
                                    == k);
                            }
                            if exists|t: int|
                                0 <= t < i + 1 && records@[t].iface_index == newv[j].index
                                    && spec_addr_key(records@[t].address@, records@[t].prefix_len)
                                    == k {
                                let t = choose|t: int|
                                    0 <= t < i + 1 && records@[t].iface_index == newv[j].index
                                        && spec_addr_key(
                                        records@[t].address@,
                                        records@[t].prefix_len,
                                    ) == k;
                                assert(t < i);
                            }
                        } else {
                            assert(newv[j] == e@);
                            assert(e@.keys == seq![kk]);
                            if newv[j].keys.contains(k) {
                                assert(k == kk);
                                assert(records@[i as int].iface_index == x && spec_addr_key(
                                    records@[i as int].address@,
                                    records@[i as int].prefix_len,
                                ) == kk);
                            }
                            if exists|t: int|
                                0 <= t < i + 1 && records@[t].iface_index == newv[j].index
                                    && spec_addr_key(records@[t].address@, records@[t].prefix_len)
                                    == k {
                                let t = choose|t: int|
                                    0 <= t < i + 1 && records@[t].iface_index == newv[j].index
                                        && spec_addr_key(
                                        records@[t].address@,
                                        records@[t].prefix_len,
                                    ) == k;
                                if t < i {
                                    assert(index_has(oldv, x));
                                    assert(false);
                                }
                                assert(k == kk);
                                assert(newv[j].keys[0] == kk);
                            }
                        }
                    }
                    assert(wf_observed(newv)) by {
                        assert(!index_has(oldv, x));
                        assert forall|a: int, b: int|
                            0 <= a < b < newv.len() implies newv[a].index != newv[b].index by {
                            if b == newv.len() - 1 {
                                assert(oldv[a].index != x);
                            }
                        }
                    }
                }
            },
            Some(j) => {
                if keys_contain(&out[j].keys, key.as_str()) {
                    proof {
                        let newv = ifaces_view(out@);
                        assert(newv =~= oldv);
                        assert forall|jj: int, k: Seq<char>|
                            0 <= jj < newv.len() implies (#[trigger] newv[jj].keys.contains(k)
                            <==> exists|t: int|
                                0 <= t < i + 1 && records@[t].iface_index == newv[jj].index
                                    && spec_addr_key(records@[t].address@, records@[t].prefix_len)
                                    == k) by {
                            if newv[jj].keys.contains(k) {
                                let t = choose|t: int|
                                    0 <= t < i && records@[t].iface_index == newv[jj].index
                                        && spec_addr_key(
                                        records@[t].address@,
                                        records@[t].prefix_len,
                                    ) == k;
                                assert(0 <= t < i + 1);
                            }
                            if exists|t: int|
                                0 <= t < i + 1 && records@[t].iface_index == newv[jj].index
                                    && spec_addr_key(records@[t].address@, records@[t].prefix_len)
                                    == k {
                                let t = choose|t: int|
                                    0 <= t < i + 1 && records@[t].iface_index == newv[jj].index
                                        && spec_addr_key(
                                        records@[t].address@,
                                        records@[t].prefix_len,
                                    ) == k;
                                if t == i {
                                    // The record's interface already holds this key.
                                    assert(newv[jj].index == x);
                                    assert(jj == j) by {
                                        assert(newv[j as int].index == x);
                                        if jj < j {
                                            assert(newv[jj].index != newv[j as int].index);
                                        } else if j < jj {
                                            assert(newv[j as int].index != newv[jj].index);
                                        }
                                    }
                                    assert(newv[jj].keys.contains(k));
                                }
                            }
                        }
                        assert forall|ix: u32| #[trigger]
                            index_has(newv, ix) <==> exists|t: int|
                                0 <= t < i + 1 && records@[t].iface_index == ix by {
                            if exists|t: int| 0 <= t < i + 1 && records@[t].iface_index == ix {
                                let t = choose|t: int|
                                    0 <= t < i + 1 && records@[t].iface_index == ix;
                                if t == i {
                                    assert(newv[j as int].index == x);
                                } else {
                                    assert(index_has(oldv, ix));
                                }
                            }
                        }
                    }
                } else {
                    let mut entry = out.remove(j);
                    entry.keys.push(key);
                    let ghost enew = entry@;
                    out.insert(j, entry);
                    proof {
                        let newv = ifaces_view(out@);
                        assert(newv =~= oldv.update(j as int, enew));
                        assert(enew.index == x);
                        assert(enew.keys =~= oldv[j as int].keys.push(kk));
                        assert(!oldv[j as int].keys.contains(kk));
                        assert forall|ix: u32| #[trigger]
                            index_has(newv, ix) <==> exists|t: int|
                                0 <= t < i + 1 && records@[t].iface_index == ix by {
                            if index_has(newv, ix) {
                                let jj = choose|jj: int|
                                    0 <= jj < newv.len() && newv[jj].index == ix;
                                assert(oldv[jj].index == ix);
                                assert(index_has(oldv, ix));
                            }
                            if exists|t: int| 0 <= t < i + 1 && records@[t].iface_index == ix {
                                let t = choose|t: int|
                                    0 <= t < i + 1 && records@[t].iface_index == ix;
                                if t == i {
                                    assert(newv[j as int].index == x);
                                } else {
                                    assert(index_has(oldv, ix));
                                    let jj = choose|jj: int|
                                        0 <= jj < oldv.len() && oldv[jj].index == ix;
                                    assert(newv[jj].index == ix);
                                }
                            }
                        }
                        assert forall|jj: int, k: Seq<char>|
                            0 <= jj < newv.len() implies (#[trigger] newv[jj].keys.contains(k)
                            <==> exists|t: int|
                                0 <= t < i + 1 && records@[t].iface_index == newv[jj].index
                                    && spec_addr_key(records@[t].address@, records@[t].prefix_len)
                                    == k) by {
                            if jj != j {
                                assert(newv[jj] == oldv[jj]);
                                assert(newv[jj].index != x) by {
                                    assert(oldv[j as int].index == x);
                                    if jj < j {
                                        assert(oldv[jj].index != oldv[j as int].index);
                                    } else {
                                        assert(oldv[j as int].index != oldv[jj].index);
                                    }
                                }
                                if newv[jj].keys.contains(k) {
                                    let t = choose|t: int|
                                        0 <= t < i && records@[t].iface_index == oldv[jj].index
                                            && spec_addr_key(
                                            records@[t].address@,
                                            records@[t].prefix_len,
                                        ) == k;
                                    assert(0 <= t < i + 1);
                                }
                                if exists|t: int|
                                    0 <= t < i + 1 && records@[t].iface_index == newv[jj].index
                                        && spec_addr_key(
                                        records@[t].address@,
                                        records@[t].prefix_len,
                                    ) == k {
                                    let t = choose|t: int|
                                        0 <= t < i + 1 && records@[t].iface_index
                                            == newv[jj].index && spec_addr_key(
                                            records@[t].address@,
                                            records@[t].prefix_len,
                                        ) == k;
                                    assert(t < i);
                                }
                            } else {
                                if newv[jj].keys.contains(k) {
                                    let p = choose|p: int|
                                        0 <= p < enew.keys.len() && enew.keys[p] == k;
                                    if p < oldv[j as int].keys.len() {
                                        assert(oldv[j as int].keys.contains(k));
                                        let t = choose|t: int|
                                            0 <= t < i && records@[t].iface_index == oldv[
                                                j as int
                                            ].index && spec_addr_key(
                                                records@[t].address@,
                                                records@[t].prefix_len,
                                            ) == k;
                                        assert(0 <= t < i + 1);
                                    } else {
                                        assert(k == kk);
                                        assert(records@[i as int].iface_index == x
                                            && spec_addr_key(
                                            records@[i as int].address@,
                                            records@[i as int].prefix_len,
                                        ) == kk);
                                    }
                                }
                                if exists|t: int|
                                    0 <= t < i + 1 && records@[t].iface_index == newv[jj].index
                                        && spec_addr_key(
                                        records@[t].address@,
                                        records@[t].prefix_len,
                                    ) == k {
                                    let t = choose|t: int|
                                        0 <= t < i + 1 && records@[t].iface_index
                                            == newv[jj].index && spec_addr_key(
                                            records@[t].address@,
                                            records@[t].prefix_len,
                                        ) == k;
                                    if t == i {
                                        assert(enew.keys[enew.keys.len() - 1] == kk);
                                        assert(newv[jj].keys.contains(k));
                                    } else {
                                        assert(oldv[j as int].keys.contains(k));
                                        let p = choose|p: int|
                                            0 <= p < oldv[j as int].keys.len() && oldv[
                                                j as int
                                            ].keys[p] == k;
                                        assert(enew.keys[p] == k);
                                        assert(newv[jj].keys.contains(k));
                                    }
                                }
                            }
                        }
                        assert(wf_observed(newv)) by {
                            assert forall|a: int, b: int|
                                0 <= a < b < newv.len() implies newv[a].index != newv[b].index by {
                                assert(newv[a].index == oldv[a].index);
                                assert(newv[b].index == oldv[b].index);
                            }
                            assert forall|e: int, a: int, b: int|
                                0 <= e < newv.len() && 0 <= a < b < newv[e].keys.len()
                                    implies newv[e].keys[a] != newv[e].keys[b] by {
                                if e == j {
                                    if b == enew.keys.len() - 1 {
                                        assert(enew.keys[b] == kk);
                                        assert(oldv[j as int].keys[a] == enew.keys[a]);
                                        assert(!oldv[j as int].keys.contains(kk));
                                        if enew.keys[a] == kk {
                                            assert(oldv[j as int].keys.contains(kk));
                                        }
                                    } else {
                                        assert(enew.keys[a] == oldv[j as int].keys[a]);
                                        assert(enew.keys[b] == oldv[j as int].keys[b]);
                                    }
                                } else {
                                    assert(newv[e] == oldv[e]);
                                }
                            }
                        }
                    }
                }
            },
        }
        i += 1;
    }
    ObservedIndex { ifaces: out }
}

} // verus!
