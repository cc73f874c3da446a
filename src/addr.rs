//! How a client reaches a server, and the order in which resolved
//! addresses are tried.

use vstd::prelude::*;

verus! {

/// Where and how to connect.
#[derive(Clone, Debug)]
pub enum ConnectionArgs {
    /// hostname: `(hostname|ip):[<port>]`
    Quic { hostname: String, prefer_ipv6: bool, validate_tls: bool },
    /// hostname: `(hostname|ip):[<port>]`
    Tcp { hostname: String, prefer_ipv6: bool },
    /// SRV lookup. Such a lookup carries no port: the record gives it. A
    /// hostname that holds a port falls back to TCP.
    Srv { hostname: String, prefer_ipv6: bool, validate_tls: bool, use_quic: bool },
    Mpsc(u64),
}

impl ConnectionArgs {
    /// The port used when the address names none.
    pub const DEFAULT_PORT: u16 = 14004;
}

/// An IP address, version 4 or 6.
#[derive(Clone, Copy, Debug, PartialEq, Eq)]
pub enum IpAddress {
    V4([u8; 4]),
    V6([u16; 8]),
}

/// A resolved socket address: an IP address and a port.
#[derive(Clone, Copy, Debug, PartialEq, Eq)]
pub struct HostAddr {
    pub ip: IpAddress,
    pub port: u16,
}

/// The addresses of `s` whose family is IPv6 exactly when `v6` holds, in
/// their order in `s`.
pub open spec fn of_family(s: Seq<HostAddr>, v6: bool) -> Seq<HostAddr>
    decreases s.len(),
{
    if s.len() == 0 {
        Seq::empty()
    } else if (s.last().ip is V6) == v6 {
        of_family(s.drop_last(), v6).push(s.last())
    } else {
        of_family(s.drop_last(), v6)
    }
}

impl HostAddr {
    /// Whether the address is an IPv6 one.
    pub fn is_ipv6(&self) -> (r: bool)
        ensures
            r == (self.ip is V6),
    {
        match self.ip {
            IpAddress::V6(_) => true,
            IpAddress::V4(_) => false,
        }
    }
}

/// The addresses of the preferred family first, then the others; each group
/// keeps the order it had in `addrs`.
pub fn sort_ipv6(addrs: Vec<HostAddr>, prefer_ipv6: bool) -> (r: Vec<HostAddr>)
    ensures
        r@ == of_family(addrs@, prefer_ipv6) + of_family(addrs@, !prefer_ipv6),
{
    let mut first: Vec<HostAddr> = Vec::new();
    let mut second: Vec<HostAddr> = Vec::new();
    let mut i: usize = 0;
    while i < addrs.len()
        invariant
            i <= addrs@.len(),
            first@ == of_family(addrs@.take(i as int), prefer_ipv6),
            second@ == of_family(addrs@.take(i as int), !prefer_ipv6),
        decreases addrs@.len() - i,
    {
        let a = addrs[i];
        proof {
            assert(addrs@.take(i + 1).drop_last() =~= addrs@.take(i as int));
            assert(addrs@.take(i + 1).last() == a);
        }
        if a.is_ipv6() == prefer_ipv6 {
            first.push(a);
        } else {
            second.push(a);
        }
        i = i + 1;
    }
    proof {
        assert(addrs@.take(addrs@.len() as int) =~= addrs@);
    }
    let mut k: usize = 0;
    let ghost head = first@;
    while k < second.len()
        invariant
            k <= second@.len(),
            first@ == head + second@.take(k as int),
        decreases second@.len() - k,
    {
        first.push(second[k]);
        k = k + 1;
        proof {
            assert(first@ =~= head + second@.take(k as int));
        }
    }
    proof {
        assert(second@.take(second@.len() as int) =~= second@);
    }
    first
}

} // verus!
