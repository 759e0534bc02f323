use vstd::prelude::*;

use crate::types::IpVersion;

verus! {

broadcast use vstd::std_specs::vec::group_vec_axioms;

/// A resolved peer address, as plain values: its family and its socket
/// address text (for example `203.0.113.7:443` or `[2001:db8::7]:443`).
#[derive(Debug)]
pub struct PeerAddr {
    pub is_v6: bool,
    pub text: String,
}

/// Selection failed: the resolver offered no address of the wanted family.
#[derive(Debug, Clone, Copy, PartialEq, Eq, Structural)]
pub enum ResolveError {
    NoAddress,
}

/// The plain view of an address: its family and its text.
pub open spec fn pv(p: PeerAddr) -> (bool, Seq<char>) {
    (p.is_v6, p.text@)
}

/// The plain views of a run of addresses.
pub open spec fn pvs(s: Seq<PeerAddr>) -> Seq<(bool, Seq<char>)> {
    Seq::new(s.len(), |i: int| pv(s[i]))
}

/// The first address, optionally restricted to one family.
pub open spec fn sel_first(s: Seq<(bool, Seq<char>)>, need: Option<bool>) -> Option<
    (bool, Seq<char>),
>
    decreases s.len(),
{
    if s.len() == 0 {
        None
    } else if (match need {
        Some(b) => s[0].0 == b,
        None => true,
    }) {
        Some(s[0])
    } else {
        sel_first(s.subrange(1, s.len() as int), need)
    }
}

proof fn lemma_sel_first_skip(s: Seq<(bool, Seq<char>)>, need: Option<bool>, i: int)
    requires
        0 <= i <= s.len(),
        forall|x: int|
            0 <= x < i ==> match need {
                Some(b) => (#[trigger] s[x]).0 != b,
                None => false,
            },
    ensures
        sel_first(s, need) == sel_first(s.subrange(i, s.len() as int), need),
    decreases i,
{
    if i == 0 {
        assert(s.subrange(0, s.len() as int) =~= s);
    } else {
        lemma_sel_first_skip(s.subrange(1, s.len() as int), need, i - 1);
        assert(s.subrange(1, s.len() as int).subrange(i - 1, s.len() - 1) =~= s.subrange(
            i,
            s.len() as int,
        ));
    }
}

/// A copy of an address.
pub fn clone_peer(p: &PeerAddr) -> (r: PeerAddr)
    ensures
        pv(r) == pv(*p),
{
    PeerAddr { is_v6: p.is_v6, text: p.text.clone() }
}

/// The first address of the wanted family, `None` standing for any family.
fn find_first(addrs: &Vec<PeerAddr>, need: Option<bool>) -> (r: Option<PeerAddr>)
    ensures
        match r {
            Some(p) => sel_first(pvs(addrs@), need) == Some(pv(p)),
            None => sel_first(pvs(addrs@), need) is None,
        },
{
    let ghost vs = pvs(addrs@);
    let n: usize = addrs.len();
    let mut i: usize = 0;
    while i < n
        invariant
            n == addrs@.len(),
            0 <= i <= n,
            vs == pvs(addrs@),
            forall|x: int|
                0 <= x < i ==> match need {
                    Some(b) => (#[trigger] vs[x]).0 != b,
                    None => false,
                },
        decreases n - i,
    {
        let hit = match need {
            Some(b) => addrs[i].is_v6 == b,
            None => true,
        };
        if hit {
            proof {
                lemma_sel_first_skip(vs, need, i as int);
                assert(vs.subrange(i as int, n as int)[0] == vs[i as int]);
            }
            return Some(clone_peer(&addrs[i]));
        }
        i += 1;
    }
    proof {
        lemma_sel_first_skip(vs, need, n as int);
        assert(vs.subrange(n as int, n as int) =~= Seq::<(bool, Seq<char>)>::empty());
    }
    None
}

/// Picks one resolved address honoring an explicit family preference:
/// `Auto` takes the resolver's first address, `Ipv4` and `Ipv6` the first of
/// that class. `Both` is served by `resolve_peers_for_both`.
pub fn resolve_peer(addrs: &Vec<PeerAddr>, family: IpVersion) -> (r: Result<PeerAddr, ResolveError>)
    requires
        family != IpVersion::Both,
    ensures
        ({
            let need = match family {
                IpVersion::Auto => None::<bool>,
                IpVersion::Ipv4 => Some(false),
                IpVersion::Ipv6 => Some(true),
                IpVersion::Both => None::<bool>,
            };
            match r {
                Ok(p) => sel_first(pvs(addrs@), need) == Some(pv(p)),
                Err(e) => sel_first(pvs(addrs@), need) is None && e == ResolveError::NoAddress,
            }
        }),
{
    let need = match family {
        IpVersion::Auto => None,
        IpVersion::Ipv4 => Some(false),
        IpVersion::Ipv6 => Some(true),
        IpVersion::Both => None,
    };
    match find_first(addrs, need) {
        Some(p) => Ok(p),
        None => Err(ResolveError::NoAddress),
    }
}

/// Picks at most one IPv4 and one IPv6 address, failing only when neither
/// family resolved.
pub fn resolve_peers_for_both(addrs: &Vec<PeerAddr>) -> (r: Result<
    (Option<PeerAddr>, Option<PeerAddr>),
    ResolveError,
>)
    ensures
        ({
            let v4 = sel_first(pvs(addrs@), Some(false));
            let v6 = sel_first(pvs(addrs@), Some(true));
            match r {
                Ok(pair) => {
                    &&& (match pair.0 {
                        Some(p) => v4 == Some(pv(p)),
                        None => v4 is None,
                    })
                    &&& (match pair.1 {
                        Some(p) => v6 == Some(pv(p)),
                        None => v6 is None,
                    })
                    &&& (v4 is Some || v6 is Some)
                },
                Err(e) => v4 is None && v6 is None && e == ResolveError::NoAddress,
            }
        }),
{
    let v4 = find_first(addrs, Some(false));
    let v6 = find_first(addrs, Some(true));
    let none4 = match &v4 {
        Some(_) => false,
        None => true,
    };
    let none6 = match &v6 {
        Some(_) => false,
        None => true,
    };
    if none4 && none6 {
        return Err(ResolveError::NoAddress);
    }
    Ok((v4, v6))
}

/// The per-attempt target list for a family choice: for `Both`, the first
/// IPv4 then the first IPv6 address; otherwise the single pick with its
/// observed family.
pub fn resolve_targets(addrs: &Vec<PeerAddr>, family: IpVersion) -> (r: Result<
    Vec<(IpVersion, PeerAddr)>,
    ResolveError,
>)
    ensures
        ({
            let v4 = sel_first(pvs(addrs@), Some(false));
            let v6 = sel_first(pvs(addrs@), Some(true));
            match family {
                IpVersion::Both => match r {
                    Ok(v) => {
                        &&& v@.len() == (if v4 is Some {
                            1int
                        } else {
                            0int
                        }) + (if v6 is Some {
                            1int
                        } else {
                            0int
                        })
                        &&& (v4 matches Some(a) ==> v@[0].0 == IpVersion::Ipv4 && pv(v@[0].1) == a)
                        &&& (v6 matches Some(a) ==> {
                            let at = if v4 is Some {
                                1int
                            } else {
                                0int
                            };
                            v@[at].0 == IpVersion::Ipv6 && pv(v@[at].1) == a
                        })
                        &&& (v4 is Some || v6 is Some)
                    },
                    Err(e) => v4 is None && v6 is None && e == ResolveError::NoAddress,
                },
                _ => {
                    let need = match family {
                        IpVersion::Auto => None::<bool>,
                        IpVersion::Ipv4 => Some(false),
                        IpVersion::Ipv6 => Some(true),
                        IpVersion::Both => None::<bool>,
                    };
                    match r {
                        Ok(v) => {
                            &&& v@.len() == 1
                            &&& sel_first(pvs(addrs@), need) == Some(pv(v@[0].1))
                            &&& v@[0].0 == (if v@[0].1.is_v6 {
                                IpVersion::Ipv6
                            } else {
                                IpVersion::Ipv4
                            })
                        },
                        Err(e) => sel_first(pvs(addrs@), need) is None && e
                            == ResolveError::NoAddress,
                    }
                },
            }
        }),
{
    match family {
        IpVersion::Both => {
            match resolve_peers_for_both(addrs) {
                Ok(pair) => {
                    let mut out: Vec<(IpVersion, PeerAddr)> = Vec::new();
                    let (v4, v6) = pair;
                    match v4 {
                        Some(a) => {
                            out.push((IpVersion::Ipv4, a));
                        },
                        None => {},
                    }
                    match v6 {
                        Some(a) => {
                            out.push((IpVersion::Ipv6, a));
                        },
                        None => {},
                    }
                    Ok(out)
                },
                Err(e) => Err(e),
            }
        },
        _ => {
            match resolve_peer(addrs, family) {
                Ok(a) => {
                    let fam = if a.is_v6 {
                        IpVersion::Ipv6
                    } else {
                        IpVersion::Ipv4
                    };
                    let mut out: Vec<(IpVersion, PeerAddr)> = Vec::new();
                    out.push((fam, a));
                    Ok(out)
                },
                Err(e) => Err(e),
            }
        },
    }
}

} // verus!
