//! Names and the addresses that they resolve to.

use vstd::prelude::*;

pub mod gai;

use crate::net::ipv4_of_text;
use crate::net::ipv6_of_text;
use crate::net::parse_ipv4;
use crate::net::parse_ipv6;
use crate::net::Ipv4Addr;
use crate::net::Ipv6Addr;
use crate::net::SocketAddr;
use crate::net::SocketAddrV4;
use crate::net::SocketAddrV6;
use crate::text::chars_of;

verus! {

/// A domain name to resolve into IP addresses.
#[derive(Debug, Hash, Eq, PartialEq)]
pub struct Name {
    host: String,
}

/// Error indicating a given string was not a valid domain name.
#[derive(Debug)]
pub struct InvalidNameError {
    pub reason: (),
}

impl InvalidNameError {
    /// What the error says.
    pub fn text(&self) -> (r: &'static str)
        ensures
            r@ == "Not a valid domain name"@,
    {
        "Not a valid domain name"
    }
}

impl View for Name {
    type V = Seq<char>;

    closed spec fn view(&self) -> Seq<char> {
        self.host@
    }
}

impl Name {
    /// A name.
    pub fn new(host: String) -> (r: Name)
        ensures
            r@ == host@,
    {
        Name { host }
    }

    /// View the hostname as a string slice.
    pub fn as_str(&self) -> (r: &str)
        ensures
            r@ == self@,
    {
        self.host.as_str()
    }

    /// Reads a name. Every text is one.
    pub fn from_str(host: &str) -> (r: Result<Name, InvalidNameError>)
        ensures
            r matches Ok(name) && name@ == host@,
    {
        Ok(Name::new(host.to_owned()))
    }
}

impl Clone for Name {
    fn clone(&self) -> (r: Self)
        ensures
            r == *self,
    {
        Name { host: self.host.clone() }
    }
}

/// The addresses that are left to try, in order.
#[derive(Debug)]
pub struct SocketAddrs {
    addrs: Vec<SocketAddr>,
    next: usize,
}

impl View for SocketAddrs {
    type V = Seq<SocketAddr>;

    closed spec fn view(&self) -> Seq<SocketAddr> {
        self.addrs@.skip(self.next as int)
    }
}

/// Whether an address is of the IPv6 family.
pub open spec fn is_v6(addr: SocketAddr) -> bool {
    addr is V6
}

/// The addresses of one family, in order.
pub open spec fn of_family(addrs: Seq<SocketAddr>, v6: bool) -> Seq<SocketAddr>
    decreases addrs.len(),
{
    if addrs.len() == 0 {
        Seq::empty()
    } else {
        let before = of_family(addrs.drop_last(), v6);
        if is_v6(addrs.last()) == v6 {
            before.push(addrs.last())
        } else {
            before
        }
    }
}

/// The addresses to try first and those to fall back to. A single local address leaves only its
/// own family; otherwise the family of the first address is preferred.
pub open spec fn preference(
    addrs: Seq<SocketAddr>,
    local_ipv4: Option<Ipv4Addr>,
    local_ipv6: Option<Ipv6Addr>,
) -> (Seq<SocketAddr>, Seq<SocketAddr>) {
    if local_ipv4 is Some && local_ipv6 is None {
        (of_family(addrs, false), Seq::empty())
    } else if local_ipv4 is None && local_ipv6 is Some {
        (of_family(addrs, true), Seq::empty())
    } else {
        let v6 = addrs.len() > 0 && is_v6(addrs[0]);
        (of_family(addrs, v6), of_family(addrs, !v6))
    }
}

impl SocketAddrs {
    /// Not more addresses were taken than there were.
    #[verifier::type_invariant]
    closed spec fn next_in_range(self) -> bool {
        self.next <= self.addrs@.len()
    }

    /// Addresses to try in order.
    pub fn new(addrs: Vec<SocketAddr>) -> (r: Self)
        ensures
            r@ == addrs@,
    {
        let r = SocketAddrs { addrs, next: 0 };
        assert(r@ =~= addrs@);
        r
    }

    /// The address that a host is, if it is written as one.
    pub fn try_parse(host: &str, port: u16) -> (r: Option<SocketAddrs>)
        ensures
            match r {
                Some(addrs) => addrs@.len() == 1 && match addrs@[0] {
                    SocketAddr::V4(a) => ipv4_of_text(host@) == Some(a.ip@) && a.port == port,
                    SocketAddr::V6(a) => ipv4_of_text(host@) is None && ipv6_of_text(host@) == Some(
                        a.ip@,
                    ) && a.port == port && a.flowinfo == 0 && a.scope_id == 0,
                },
                None => ipv4_of_text(host@) is None && ipv6_of_text(host@) is None,
            },
    {
        let chars = chars_of(host);
        if let Some(ip) = parse_ipv4(chars.as_slice()) {
            let mut addrs: Vec<SocketAddr> = Vec::new();
            addrs.push(SocketAddr::V4(SocketAddrV4 { ip, port }));
            return Some(SocketAddrs::new(addrs));
        }
        if let Some(ip) = parse_ipv6(chars.as_slice()) {
            let mut addrs: Vec<SocketAddr> = Vec::new();
            addrs.push(SocketAddr::V6(SocketAddrV6 { ip, port, flowinfo: 0, scope_id: 0 }));
            return Some(SocketAddrs::new(addrs));
        }
        None
    }

    /// The addresses of one family.
    fn filter(&self, v6: bool) -> (r: SocketAddrs)
        ensures
            r@ == of_family(self@, v6),
    {
        proof {
            use_type_invariant(self);
        }
        let ghost all = self@;
        let mut kept: Vec<SocketAddr> = Vec::new();
        let mut i: usize = self.next;
        let start: usize = self.next;
        assert(all.take(0) =~= Seq::<SocketAddr>::empty());
        while i < self.addrs.len()
            invariant
                start <= i <= self.addrs@.len(),
                all == self.addrs@.skip(start as int),
                kept@ == of_family(all.take(i - start), v6),
            decreases self.addrs@.len() - i,
        {
            let addr = self.addrs[i];
            let ghost more = all.take(i - start + 1);
            assert(more.drop_last() == all.take(i - start));
            assert(more.last() == addr);
            let addr_v6 = match addr {
                SocketAddr::V4(_) => false,
                SocketAddr::V6(_) => true,
            };
            if addr_v6 == v6 {
                kept.push(addr);
            }
            i = i + 1;
        }
        assert(all.take(all.len() as int) == all);
        SocketAddrs::new(kept)
    }

    /// Splits the addresses into those to try first and those to fall back to.
    pub fn split_by_preference(
        self,
        local_addr_ipv4: Option<Ipv4Addr>,
        local_addr_ipv6: Option<Ipv6Addr>,
    ) -> (r: (SocketAddrs, SocketAddrs))
        ensures
            (r.0@, r.1@) == preference(self@, local_addr_ipv4, local_addr_ipv6),
    {
        proof {
            use_type_invariant(&self);
        }
        match (local_addr_ipv4, local_addr_ipv6) {
            (Some(_), None) => (self.filter(false), SocketAddrs::new(Vec::new())),
            (None, Some(_)) => (self.filter(true), SocketAddrs::new(Vec::new())),
            _ => {
                let preferring_v6 = if self.next < self.addrs.len() {
                    match self.addrs[self.next] {
                        SocketAddr::V4(_) => false,
                        SocketAddr::V6(_) => true,
                    }
                } else {
                    false
                };
                (self.filter(preferring_v6), self.filter(!preferring_v6))
            },
        }
    }

    /// Whether no address is left.
    pub fn is_empty(&self) -> (r: bool)
        ensures
            r == (self@.len() == 0),
    {
        proof {
            use_type_invariant(self);
        }
        self.next == self.addrs.len()
    }

    /// How many addresses are left.
    pub fn len(&self) -> (r: usize)
        ensures
            r == self@.len(),
    {
        proof {
            use_type_invariant(self);
        }
        self.addrs.len() - self.next
    }

    /// Takes the next address.
    pub fn next(&mut self) -> (r: Option<SocketAddr>)
        ensures
            match r {
                Some(addr) => old(self)@.len() > 0 && addr == old(self)@[0] && final(self)@ == old(
                    self,
                )@.skip(1),
                None => old(self)@.len() == 0 && final(self)@ == old(self)@,
            },
    {
        proof {
            use_type_invariant(&*self);
        }
        if self.next < self.addrs.len() {
            let addr = self.addrs[self.next];
            let ghost before = self@;
            self.next = self.next + 1;
            assert(self@ =~= before.skip(1));
            Some(addr)
        } else {
            None
        }
    }
}

/// Every address goes to exactly one of two families.
pub proof fn lemma_families_partition(addrs: Seq<SocketAddr>, v6: bool)
    ensures
        of_family(addrs, v6).len() + of_family(addrs, !v6).len() == addrs.len(),
        of_family(addrs, v6).to_multiset().add(of_family(addrs, !v6).to_multiset())
            == addrs.to_multiset(),
        forall|i: int|
            0 <= i < of_family(addrs, v6).len() ==> is_v6(#[trigger] of_family(addrs, v6)[i]) == v6,
    decreases addrs.len(),
{
    broadcast use vstd::seq_lib::group_to_multiset_ensures;

    if addrs.len() > 0 {
        let init = addrs.drop_last();
        lemma_families_partition(init, v6);
        assert(addrs =~= init.push(addrs.last()));
        if is_v6(addrs.last()) == v6 {
            assert(of_family(addrs, v6) == of_family(init, v6).push(addrs.last()));
            assert(of_family(addrs, !v6) == of_family(init, !v6));
        } else {
            assert(of_family(addrs, !v6) == of_family(init, !v6).push(addrs.last()));
            assert(of_family(addrs, v6) == of_family(init, v6));
        }
        assert(of_family(addrs, v6).to_multiset().add(of_family(addrs, !v6).to_multiset())
            =~= addrs.to_multiset());
    } else {
        assert(addrs =~= Seq::<SocketAddr>::empty());
        assert(of_family(addrs, v6).to_multiset().add(of_family(addrs, !v6).to_multiset())
            =~= addrs.to_multiset());
    }
}

/// Unless a single local address rules a family out, no address is lost: each is either tried
/// first or fallen back to.
pub proof fn lemma_no_address_lost(
    addrs: Seq<SocketAddr>,
    local_ipv4: Option<Ipv4Addr>,
    local_ipv6: Option<Ipv6Addr>,
)
    requires
        local_ipv4 is Some <==> local_ipv6 is Some,
    ensures
        ({
            let (preferred, fallback) = preference(addrs, local_ipv4, local_ipv6);
            &&& preferred.to_multiset().add(fallback.to_multiset()) == addrs.to_multiset()
            &&& addrs.len() > 0 ==> preferred.len() > 0
        }),
{
    let v6 = addrs.len() > 0 && is_v6(addrs[0]);
    lemma_families_partition(addrs, v6);
    if addrs.len() > 0 {
        lemma_first_kept(addrs, v6);
    }
}

/// The first address is the first of its family.
pub proof fn lemma_first_kept(addrs: Seq<SocketAddr>, v6: bool)
    requires
        addrs.len() > 0,
        is_v6(addrs[0]) == v6,
    ensures
        of_family(addrs, v6).len() > 0,
        of_family(addrs, v6)[0] == addrs[0],
    decreases addrs.len(),
{
    if addrs.len() > 1 {
        lemma_first_kept(addrs.drop_last(), v6);
    } else {
        reveal_with_fuel(of_family, 2);
    }
}

/// With one local address only the addresses of its family are tried. With none or both, the family
/// of the first address is preferred and the other one is left to fall back to.
pub proof fn lemma_preference(
    addrs: Seq<SocketAddr>,
    local_ipv4: Option<Ipv4Addr>,
    local_ipv6: Option<Ipv6Addr>,
    addr: SocketAddr,
)
    ensures
        ({
            let (first, second) = preference(addrs, local_ipv4, local_ipv6);
            let only_v4 = local_ipv4 is Some && local_ipv6 is None;
            let only_v6 = local_ipv4 is None && local_ipv6 is Some;
            &&& only_v4 ==> second.len() == 0 && (first.contains(addr) <==> addrs.contains(addr)
                && addr is V4)
            &&& only_v6 ==> second.len() == 0 && (first.contains(addr) <==> addrs.contains(addr)
                && addr is V6)
            &&& !only_v4 && !only_v6 && addrs.len() > 0 ==> {
                &&& first.len() > 0 && first[0] == addrs[0]
                &&& first.contains(addr) <==> addrs.contains(addr) && (addr is V6 <==> addrs[0] is V6)
                &&& second.contains(addr) <==> addrs.contains(addr) && !(addr is V6 <==> addrs[0]
                    is V6)
            }
        }),
{
    lemma_family_members(addrs, true, addr);
    lemma_family_members(addrs, false, addr);
    if addrs.len() > 0 {
        lemma_first_kept(addrs, is_v6(addrs[0]));
    }
}

/// The addresses of a family are those of the list that are of it.
proof fn lemma_family_members(addrs: Seq<SocketAddr>, v6: bool, addr: SocketAddr)
    ensures
        of_family(addrs, v6).contains(addr) <==> addrs.contains(addr) && (addr is V6) == v6,
    decreases addrs.len(),
{
    if addrs.len() > 0 {
        let less = addrs.drop_last();
        let last = addrs.last();
        let before = of_family(less, v6);
        lemma_family_members(less, v6, addr);
        assert(less.push(last) =~= addrs);
        if less.contains(addr) {
            let i = choose|i: int| 0 <= i < less.len() && less[i] == addr;
            assert(addrs[i] == addr);
        }
        if addrs.contains(addr) && !less.contains(addr) {
            let i = choose|i: int| 0 <= i < addrs.len() && addrs[i] == addr;
            if i < less.len() {
                assert(less[i] == addr);
            }
        }
        assert(addrs[addrs.len() - 1] == last);
        let all = of_family(addrs, v6);
        if before.contains(addr) {
            let i = choose|i: int| 0 <= i < before.len() && before[i] == addr;
            assert(all[i] == addr);
        }
        if (last is V6) == v6 {
            assert(all[before.len() as int] == last);
            if all.contains(addr) && !before.contains(addr) {
                let i = choose|i: int| 0 <= i < all.len() && all[i] == addr;
                if i < before.len() {
                    assert(before[i] == addr);
                }
            }
        }
    }
}

} // verus!
