//! The data model: observed per-family address snapshots, comparison-ready
//! address configurations, and per-interface desired/current state.

use vstd::prelude::*;

use crate::addr::str_eq;

verus! {

/// Spec-level value of one comparable address entry.
#[verifier::ext_equal]
pub ghost struct AddrSpec {
    pub address: Seq<char>,
    pub prefix_len: u8,
}

/// Spec-level value of one observed IPv4 address record.
#[verifier::ext_equal]
pub ghost struct Info4Spec {
    pub address: Seq<char>,
    pub prefix_len: u8,
    pub peer: Option<Seq<char>>,
    pub valid_lft: Seq<char>,
    pub preferred_lft: Seq<char>,
}

/// Spec-level value of one observed IPv6 address record.
#[verifier::ext_equal]
pub ghost struct Info6Spec {
    pub address: Seq<char>,
    pub prefix_len: u8,
    pub valid_lft: Seq<char>,
    pub preferred_lft: Seq<char>,
}

/// One observed IPv4 address with its lifetime metadata.
#[derive(Debug, Clone, PartialEq)]
pub struct Ipv4AddrInfo {
    pub address: String,
    pub prefix_len: u8,
    pub peer: Option<String>,
    /// The remaining seconds for this address to be valid, or `forever`.
    pub valid_lft: String,
    /// The remaining seconds for this address to be preferred, or `forever`.
    pub preferred_lft: String,
}

impl View for Ipv4AddrInfo {
    type V = Info4Spec;

    open spec fn view(&self) -> Info4Spec {
        Info4Spec {
            address: self.address@,
            prefix_len: self.prefix_len,
            peer: match self.peer {
                Some(p) => Some(p@),
                None => None,
            },
            valid_lft: self.valid_lft@,
            preferred_lft: self.preferred_lft@,
        }
    }
}

/// The observed IPv4 state of one interface.
#[derive(Debug, Clone, PartialEq)]
pub struct Ipv4Info {
    pub addresses: Vec<Ipv4AddrInfo>,
}

impl View for Ipv4Info {
    type V = Seq<Info4Spec>;

    open spec fn view(&self) -> Seq<Info4Spec> {
        self.addresses@.map_values(|a: Ipv4AddrInfo| a@)
    }
}

/// One observed IPv6 address with its lifetime metadata.
#[derive(Debug, Clone, PartialEq)]
pub struct Ipv6AddrInfo {
    pub address: String,
    pub prefix_len: u8,
    /// The remaining seconds for this address to be valid, or `forever`.
    pub valid_lft: String,
    /// The remaining seconds for this address to be preferred, or `forever`.
    pub preferred_lft: String,
}

impl View for Ipv6AddrInfo {
    type V = Info6Spec;

    open spec fn view(&self) -> Info6Spec {
        Info6Spec {
            address: self.address@,
            prefix_len: self.prefix_len,
            valid_lft: self.valid_lft@,
            preferred_lft: self.preferred_lft@,
        }
    }
}

/// The observed IPv6 state of one interface.
#[derive(Debug, Clone, PartialEq)]
pub struct Ipv6Info {
    pub addresses: Vec<Ipv6AddrInfo>,
}

impl View for Ipv6Info {
    type V = Seq<Info6Spec>;

    open spec fn view(&self) -> Seq<Info6Spec> {
        self.addresses@.map_values(|a: Ipv6AddrInfo| a@)
    }
}

/// One address of a desired or current configuration: the unit of set
/// comparison, equal exactly when both fields are equal.
#[derive(Debug, Clone, PartialEq, Eq, Hash)]
pub struct IpAddrConf {
    pub address: String,
    pub prefix_len: u8,
}

impl View for IpAddrConf {
    type V = AddrSpec;

    open spec fn view(&self) -> AddrSpec {
        AddrSpec { address: self.address@, prefix_len: self.prefix_len }
    }
}

/// A per-family address configuration: the comparison-ready collection of
/// address entries.
#[derive(Debug, Clone, PartialEq)]
pub struct IpConf {
    pub addresses: Vec<IpAddrConf>,
}

impl View for IpConf {
    type V = Seq<AddrSpec>;

    open spec fn view(&self) -> Seq<AddrSpec> {
        self.addresses@.map_values(|a: IpAddrConf| a@)
    }
}

/// The address family an operation applies to.
#[derive(Debug, Clone, Copy, PartialEq, Eq, Structural)]
pub enum IpFamily {
    Ipv4,
    Ipv6,
}

/// The desired per-interface state: `None` for a family means the family is
/// not managed for this interface, as opposed to `Some` of an empty
/// configuration, which means no addresses are desired.
#[derive(Debug, Clone, PartialEq)]
pub struct IfaceConf {
    pub name: String,
    pub ipv4: Option<IpConf>,
    pub ipv6: Option<IpConf>,
}

#[verifier::ext_equal]
pub ghost struct IfaceConfSpec {
    pub name: Seq<char>,
    pub ipv4: Option<Seq<AddrSpec>>,
    pub ipv6: Option<Seq<AddrSpec>>,
}

impl View for IfaceConf {
    type V = IfaceConfSpec;

    open spec fn view(&self) -> IfaceConfSpec {
        IfaceConfSpec {
            name: self.name@,
            ipv4: match self.ipv4 {
                Some(c) => Some(c@),
                None => None,
            },
            ipv6: match self.ipv6 {
                Some(c) => Some(c@),
                None => None,
            },
        }
    }
}

/// The currently observed state of one interface, as supplied by the
/// interface/model layer: its stable kernel index and the per-family
/// snapshots.
#[derive(Debug, Clone, PartialEq)]
pub struct Iface {
    pub name: String,
    pub index: u32,
    pub ipv4: Option<Ipv4Info>,
    pub ipv6: Option<Ipv6Info>,
}

#[verifier::ext_equal]
pub ghost struct IfaceSpec {
    pub name: Seq<char>,
    pub index: u32,
    pub ipv4: Option<Seq<Info4Spec>>,
    pub ipv6: Option<Seq<Info6Spec>>,
}

impl View for Iface {
    type V = IfaceSpec;

    open spec fn view(&self) -> IfaceSpec {
        IfaceSpec {
            name: self.name@,
            index: self.index,
            ipv4: match self.ipv4 {
                Some(c) => Some(c@),
                None => None,
            },
            ipv6: match self.ipv6 {
                Some(c) => Some(c@),
                None => None,
            },
        }
    }
}

/// The entries of an IPv4 snapshot that carry an unbounded lifetime, reduced
/// to comparable address entries, in snapshot order.
pub open spec fn spec_conf_of_info4(infos: Seq<Info4Spec>) -> Seq<AddrSpec>
    decreases infos.len(),
{
    if infos.len() == 0 {
        Seq::empty()
    } else {
        let prefix = spec_conf_of_info4(infos.drop_last());
        if infos.last().valid_lft == "forever"@ {
            prefix.push(
                AddrSpec { address: infos.last().address, prefix_len: infos.last().prefix_len },
            )
        } else {
            prefix
        }
    }
}

/// The entries of an IPv6 snapshot that carry an unbounded lifetime, reduced
/// to comparable address entries, in snapshot order.
pub open spec fn spec_conf_of_info6(infos: Seq<Info6Spec>) -> Seq<AddrSpec>
    decreases infos.len(),
{
    if infos.len() == 0 {
        Seq::empty()
    } else {
        let prefix = spec_conf_of_info6(infos.drop_last());
        if infos.last().valid_lft == "forever"@ {
            prefix.push(
                AddrSpec { address: infos.last().address, prefix_len: infos.last().prefix_len },
            )
        } else {
            prefix
        }
    }
}

impl Ipv4Info {
    /// Reduce the snapshot to a comparison-ready configuration, keeping only
    /// addresses whose valid lifetime is the unbounded sentinel `forever`.
    pub fn to_ip_conf(&self) -> (r: IpConf)
        ensures
            r@ == spec_conf_of_info4(self@),
    {
        let mut out: Vec<IpAddrConf> = Vec::new();
        let n = self.addresses.len();
        let mut i: usize = 0;
        while i < n
            invariant
                n == self.addresses.len(),
                0 <= i <= n,
                out@.map_values(|a: IpAddrConf| a@) =~= spec_conf_of_info4(
                    self@.subrange(0, i as int),
                ),
            decreases n - i,
        {
            proof {
                assert(self@.subrange(0, (i + 1) as int).drop_last() =~= self@.subrange(
                    0,
                    i as int,
                ));
                assert(self@.subrange(0, (i + 1) as int).last() == self.addresses@[i as int]@);
            }
            let info = &self.addresses[i];
            if str_eq(info.valid_lft.as_str(), "forever") {
                out.push(
                    IpAddrConf { address: info.address.clone(), prefix_len: info.prefix_len },
                );
            }
            i += 1;
        }
        proof {
            assert(self@.subrange(0, n as int) =~= self@);
        }
        IpConf { addresses: out }
    }
}

impl Ipv6Info {
    /// Reduce the snapshot to a comparison-ready configuration, keeping only
    /// addresses whose valid lifetime is the unbounded sentinel `forever`.
    pub fn to_ip_conf(&self) -> (r: IpConf)
        ensures
            r@ == spec_conf_of_info6(self@),
    {
        let mut out: Vec<IpAddrConf> = Vec::new();
        let n = self.addresses.len();
        let mut i: usize = 0;
        while i < n
            invariant
                n == self.addresses.len(),
                0 <= i <= n,
                out@.map_values(|a: IpAddrConf| a@) =~= spec_conf_of_info6(
                    self@.subrange(0, i as int),
                ),
            decreases n - i,
        {
            proof {
                assert(self@.subrange(0, (i + 1) as int).drop_last() =~= self@.subrange(
                    0,
                    i as int,
                ));
                assert(self@.subrange(0, (i + 1) as int).last() == self.addresses@[i as int]@);
            }
            let info = &self.addresses[i];
            if str_eq(info.valid_lft.as_str(), "forever") {
                out.push(
                    IpAddrConf { address: info.address.clone(), prefix_len: info.prefix_len },
                );
            }
            i += 1;
        }
        proof {
            assert(self@.subrange(0, n as int) =~= self@);
        }
        IpConf { addresses: out }
    }
}

/// Membership in a derived configuration is exactly membership of an
/// unbounded-lifetime record: an observed record with a finite valid
/// lifetime never contributes an entry.
pub proof fn lemma_transient_excluded_v4(infos: Seq<Info4Spec>, e: AddrSpec)
    ensures
        spec_conf_of_info4(infos).contains(e) <==> exists|i: int|
            0 <= i < infos.len() && infos[i].valid_lft == "forever"@ && infos[i].address
                == e.address && infos[i].prefix_len == e.prefix_len,
    decreases infos.len(),
{
    if infos.len() > 0 {
        lemma_transient_excluded_v4(infos.drop_last(), e);
        let prefix = spec_conf_of_info4(infos.drop_last());
        if infos.last().valid_lft == "forever"@ {
            let pushed = prefix.push(
                AddrSpec { address: infos.last().address, prefix_len: infos.last().prefix_len },
            );
            assert(spec_conf_of_info4(infos) == pushed);
            if pushed.contains(e) {
                let j = choose|j: int| 0 <= j < pushed.len() && pushed[j] == e;
                if j < prefix.len() {
                    assert(prefix[j] == e);
                    let i = choose|i: int|
                        0 <= i < infos.drop_last().len() && infos.drop_last()[i].valid_lft
                            == "forever"@ && infos.drop_last()[i].address == e.address
                            && infos.drop_last()[i].prefix_len == e.prefix_len;
                    assert(infos[i] == infos.drop_last()[i]);
                } else {
                    assert(infos.last().address == e.address && infos.last().prefix_len
                        == e.prefix_len);
                    assert(infos[infos.len() - 1] == infos.last());
                }
            }
            if exists|i: int|
                0 <= i < infos.len() && infos[i].valid_lft == "forever"@ && infos[i].address
                    == e.address && infos[i].prefix_len == e.prefix_len {
                let i = choose|i: int|
                    0 <= i < infos.len() && infos[i].valid_lft == "forever"@ && infos[i].address
                        == e.address && infos[i].prefix_len == e.prefix_len;
                if i < infos.len() - 1 {
                    assert(infos.drop_last()[i] == infos[i]);
                    assert(prefix.contains(e));
                    let j = choose|j: int| 0 <= j < prefix.len() && prefix[j] == e;
                    assert(pushed[j] == e);
                } else {
                    assert(pushed.last() =~= e);
                    assert(pushed[pushed.len() - 1] == e);
                }
            }
        } else {
            assert forall|i: int|
                0 <= i < infos.len() && infos[i].valid_lft == "forever"@ && infos[i].address
                    == e.address && infos[i].prefix_len == e.prefix_len implies 0 <= i < infos.len()
                - 1 by {
                if i == infos.len() - 1 {
                    assert(infos[i] == infos.last());
                }
            }
            assert forall|i: int| 0 <= i < infos.len() - 1 implies infos.drop_last()[i]
                == infos[i] by {}
        }
    }
}

/// The IPv6 twin of [`lemma_transient_excluded_v4`].
pub proof fn lemma_transient_excluded_v6(infos: Seq<Info6Spec>, e: AddrSpec)
    ensures
        spec_conf_of_info6(infos).contains(e) <==> exists|i: int|
            0 <= i < infos.len() && infos[i].valid_lft == "forever"@ && infos[i].address
                == e.address && infos[i].prefix_len == e.prefix_len,
    decreases infos.len(),
{
    if infos.len() > 0 {
        lemma_transient_excluded_v6(infos.drop_last(), e);
        let prefix = spec_conf_of_info6(infos.drop_last());
        if infos.last().valid_lft == "forever"@ {
            let pushed = prefix.push(
                AddrSpec { address: infos.last().address, prefix_len: infos.last().prefix_len },
            );
            assert(spec_conf_of_info6(infos) == pushed);
            if pushed.contains(e) {
                let j = choose|j: int| 0 <= j < pushed.len() && pushed[j] == e;
                if j < prefix.len() {
                    assert(prefix[j] == e);
                    let i = choose|i: int|
                        0 <= i < infos.drop_last().len() && infos.drop_last()[i].valid_lft
                            == "forever"@ && infos.drop_last()[i].address == e.address
                            && infos.drop_last()[i].prefix_len == e.prefix_len;
                    assert(infos[i] == infos.drop_last()[i]);
                } else {
                    assert(infos.last().address == e.address && infos.last().prefix_len
                        == e.prefix_len);
                    assert(infos[infos.len() - 1] == infos.last());
                }
            }
            if exists|i: int|
                0 <= i < infos.len() && infos[i].valid_lft == "forever"@ && infos[i].address
                    == e.address && infos[i].prefix_len == e.prefix_len {
                let i = choose|i: int|
                    0 <= i < infos.len() && infos[i].valid_lft == "forever"@ && infos[i].address
                        == e.address && infos[i].prefix_len == e.prefix_len;
                if i < infos.len() - 1 {
                    assert(infos.drop_last()[i] == infos[i]);
                    assert(prefix.contains(e));
                    let j = choose|j: int| 0 <= j < prefix.len() && prefix[j] == e;
                    assert(pushed[j] == e);
                } else {
                    assert(pushed.last() =~= e);
                    assert(pushed[pushed.len() - 1] == e);
                }
            }
        } else {
            assert forall|i: int|
                0 <= i < infos.len() && infos[i].valid_lft == "forever"@ && infos[i].address
                    == e.address && infos[i].prefix_len == e.prefix_len implies 0 <= i < infos.len()
                - 1 by {
                if i == infos.len() - 1 {
                    assert(infos[i] == infos.last());
                }
            }
            assert forall|i: int| 0 <= i < infos.len() - 1 implies infos.drop_last()[i]
                == infos[i] by {}
        }
    }
}

} // verus!
