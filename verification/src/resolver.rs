//! Name resolution: which of the addresses that a lookup finds are used, and
//! for how long they are remembered.
use vstd::hash_map::StringHashMap;
use vstd::prelude::*;

use crate::address::{is_global, is_global_ip, IpAddr};

verus! {

/// For how many nanoseconds addresses are remembered: one minute.
pub const CACHE_NANOS: u64 = 60_000_000_000;

/// An address with a port.
#[derive(Clone, Copy, Debug)]
pub struct SocketAddr {
    pub ip: IpAddr,
    pub port: u16,
}

/// Addresses of a host, and when they were found, in nanoseconds.
pub struct CacheEntry {
    pub addrs: Vec<SocketAddr>,
    pub found_at: u64,
}

/// A resolver that uses version 4 addresses only, and only those that can be
/// reached from everywhere, unless private ones are allowed.
pub struct Ipv4Resolver {
    pub cache: StringHashMap<CacheEntry>,
    pub allow_private: bool,
}

/// The address is one that the resolver uses.
pub open spec fn is_usable(ip: IpAddr, allow_private: bool) -> bool {
    ip is V4 && (allow_private || is_global(ip))
}

/// The usable ones of the addresses found, in their order, with port 0, which
/// stands for the port of the request.
pub open spec fn usable(found: Seq<SocketAddr>, allow_private: bool) -> Seq<SocketAddr>
    decreases found.len(),
{
    if found.len() == 0 {
        seq![]
    } else {
        let rest = usable(found.drop_last(), allow_private);
        if is_usable(found.last().ip, allow_private) {
            rest.push(SocketAddr { ip: found.last().ip, port: 0 })
        } else {
            rest
        }
    }
}

impl Ipv4Resolver {
    /// What is remembered of a host at a time: the addresses, where some were
    /// found less than a minute before.
    pub open spec fn remembered(self, host: Seq<char>, now: u64) -> Option<Seq<SocketAddr>> {
        if self.cache@.contains_key(host) {
            let entry = self.cache@[host];
            if entry.addrs@.len() > 0 && now - entry.found_at < CACHE_NANOS {
                Some(entry.addrs@)
            } else {
                None
            }
        } else {
            None
        }
    }

    /// Every address that is remembered is one that the resolver uses, with port 0.
    pub open spec fn wf(self) -> bool {
        forall|host: Seq<char>, i: int|
            #![trigger self.cache@[host].addrs@[i]]
            self.cache@.contains_key(host) && 0 <= i < self.cache@[host].addrs@.len()
                ==> is_usable(self.cache@[host].addrs@[i].ip, self.allow_private)
                && self.cache@[host].addrs@[i].port == 0
    }

    /// A resolver that remembers nothing.
    pub fn new(allow_private: bool) -> (r: Self)
        ensures
            r.wf(),
            r.allow_private == allow_private,
            forall|host: Seq<char>, now: u64| #[trigger] r.remembered(host, now) is None,
    {
        Ipv4Resolver { cache: StringHashMap::new(), allow_private }
    }

    /// The addresses of a host that are still remembered.
    pub fn cached(&self, host: &str, now: u64) -> (r: Option<Vec<SocketAddr>>)
        ensures
            r is Some <==> self.remembered(host@, now) is Some,
            r matches Some(addrs) ==> Some(addrs@) == self.remembered(host@, now),
    {
        match self.cache.get(host) {
            Some(entry) => {
                let age: u64 = if now >= entry.found_at {
                    now - entry.found_at
                } else {
                    0
                };
                if age < CACHE_NANOS && entry.addrs.len() > 0 {
                    Some(copy_addrs(&entry.addrs))
                } else {
                    None
                }
            },
            None => None,
        }
    }

    /// Takes the addresses that a lookup found for a host: remembers and gives
    /// back the usable ones, or says that there are none.
    pub fn resolve(&mut self, host: &str, found: &Vec<SocketAddr>, now: u64) -> (r: Result<
        Vec<SocketAddr>,
        String,
    >)
        requires
            old(self).wf(),
        ensures
            final(self).wf(),
            final(self).allow_private == old(self).allow_private,
            usable(found@, old(self).allow_private).len() == 0 <==> r is Err,
            r matches Err(e) ==> e@ == "no global A record for "@ + host@ && *final(self) == *old(self),
            r matches Ok(addrs) ==> {
                &&& addrs@ == usable(found@, old(self).allow_private)
                &&& forall|t: u64|
                    #[trigger] final(self).remembered(host@, t) == if t - now < CACHE_NANOS {
                        Some(addrs@)
                    } else {
                        None
                    }
                &&& forall|other: Seq<char>, t: u64|
                    other != host@ ==> #[trigger] final(self).remembered(other, t) == old(
                        self,
                    ).remembered(other, t)
            },
    {
        let n: usize = found.len();
        let mut out: Vec<SocketAddr> = Vec::new();
        for i in 0..n
            invariant
                n == found@.len(),
                out@ == usable(found@.take(i as int), self.allow_private),
        {
            let ip = found[i].ip;
            let v4 = match ip {
                IpAddr::V4(..) => true,
                IpAddr::V6(..) => false,
            };
            proof {
                assert(found@.take(i + 1).drop_last() =~= found@.take(i as int));
            }
            if v4 && (self.allow_private || is_global_ip(ip)) {
                out.push(SocketAddr { ip, port: 0 });
            }
        }
        assert(found@.take(n as int) =~= found@);
        if out.len() == 0 {
            return Err("no global A record for ".to_owned().concat(host));
        }
        proof {
            lemma_usable(found@, self.allow_private);
        }
        let kept = copy_addrs(&out);
        self.cache.insert(host.to_owned(), CacheEntry { addrs: kept, found_at: now });
        Ok(out)
    }
}

/// Every address that is remembered is a version 4 address, and one that can be
/// reached from everywhere unless private ones are allowed.
pub proof fn law_remembered_is_usable(resolver: Ipv4Resolver, host: Seq<char>, now: u64, i: int)
    requires
        resolver.wf(),
        resolver.remembered(host, now) is Some,
        0 <= i < resolver.remembered(host, now)->0.len(),
    ensures
        is_usable(resolver.remembered(host, now)->0[i].ip, resolver.allow_private),
        resolver.remembered(host, now)->0[i].port == 0,
{
    assert(resolver.cache@[host].addrs@[i] == resolver.remembered(host, now)->0[i]);
}

/// Every address that a lookup found and that is used is one of those found,
/// and a usable one; and no usable one is left out.
pub proof fn law_usable_is_found(found: Seq<SocketAddr>, allow_private: bool, ip: IpAddr)
    ensures
        (exists|i: int|
            0 <= i < usable(found, allow_private).len() && #[trigger] usable(found, allow_private)[i]
                == (SocketAddr { ip, port: 0 })) <==> is_usable(ip, allow_private) && (exists|j: int|
            0 <= j < found.len() && #[trigger] found[j].ip == ip),
    decreases found.len(),
{
    let used = usable(found, allow_private);
    if found.len() > 0 {
        let init = found.drop_last();
        let rest = usable(init, allow_private);
        law_usable_is_found(init, allow_private, ip);
        if exists|j: int| 0 <= j < found.len() && #[trigger] found[j].ip == ip {
            let j = choose|j: int| 0 <= j < found.len() && #[trigger] found[j].ip == ip;
            if is_usable(ip, allow_private) {
                if j < init.len() {
                    assert(init[j].ip == ip);
                    let k = choose|k: int|
                        0 <= k < rest.len() && #[trigger] rest[k] == (SocketAddr { ip, port: 0 });
                    assert(used[k] == rest[k]);
                } else {
                    assert(used[used.len() - 1] == (SocketAddr { ip, port: 0 }));
                }
            }
        }
        if exists|i: int| 0 <= i < used.len() && #[trigger] used[i] == (SocketAddr { ip, port: 0 }) {
            let i = choose|i: int|
                0 <= i < used.len() && #[trigger] used[i] == (SocketAddr { ip, port: 0 });
            lemma_usable(found, allow_private);
            assert(is_usable(used[i].ip, allow_private));
            if i < rest.len() {
                assert(rest[i] == used[i]);
                let j = choose|j: int| 0 <= j < init.len() && #[trigger] init[j].ip == ip;
                assert(found[j].ip == ip);
            } else {
                assert(found[found.len() - 1].ip == ip);
            }
        }
    }
}

/// A copy of some addresses.
fn copy_addrs(addrs: &Vec<SocketAddr>) -> (r: Vec<SocketAddr>)
    ensures
        r@ == addrs@,
{
    let n: usize = addrs.len();
    let mut out: Vec<SocketAddr> = Vec::new();
    for i in 0..n
        invariant
            n == addrs@.len(),
            out@ == addrs@.take(i as int),
    {
        out.push(addrs[i]);
    }
    assert(addrs@.take(n as int) =~= addrs@);
    out
}

/// Usable addresses are usable, and have port 0.
proof fn lemma_usable(found: Seq<SocketAddr>, allow_private: bool)
    ensures
        forall|i: int|
            0 <= i < usable(found, allow_private).len() ==> is_usable(
                #[trigger] usable(found, allow_private)[i].ip,
                allow_private,
            ) && usable(found, allow_private)[i].port == 0,
    decreases found.len(),
{
    if found.len() > 0 {
        lemma_usable(found.drop_last(), allow_private);
    }
}

} // verus!
