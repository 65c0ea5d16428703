//! Destinations that bypass a proxy.

use vstd::prelude::*;

use vstd::arithmetic::power2::lemma2_to64;
use vstd::arithmetic::power2::pow2;

use crate::net::ip_of_text;
use crate::net::parse_ip;
use crate::net::IpAddr;
use crate::net::Ipv4Addr;
use crate::net::Ipv6Addr;
use crate::text::chars_of;
use crate::text::fields;
use crate::text::joined;
use crate::text::lemma_join_fields;
use crate::text::same_bytes;
use crate::text::same_chars;
use crate::text::split_fields;
use crate::text::string_of;
use crate::text::texts;
use crate::text::trim;
use crate::text::trimmed;
use crate::text::trimmed_end;
use crate::text::trimmed_start;
use crate::text::CharClass;

verus! {

/// Domain names, each with its subdomains.
#[derive(Debug)]
pub struct DomainMatcher(pub Vec<String>);

/// Addresses and networks.
#[derive(Debug)]
pub struct IpMatcher(pub Vec<Ip>);

/// An address or a network.
#[derive(Debug)]
pub enum Ip {
    Address(IpAddr),
    Network(IpNet),
}

/// The destinations that bypass a proxy.
#[derive(Debug)]
pub struct NoProxy {
    pub ips: IpMatcher,
    pub domains: DomainMatcher,
}

/// A network: an address in it, and how many leading bits its addresses share.
#[derive(Debug)]
pub struct IpNet {
    addr: IpAddr,
    prefix_len: u8,
}

/// What a network is: the octets of an address in it, and the number of shared bits.
#[verifier::ext_equal]
pub struct IpNetView {
    pub octets: Seq<u8>,
    pub prefix_len: nat,
}

/// What an entry for addresses is.
#[verifier::ext_equal]
pub enum IpView {
    Address(Seq<u8>),
    Network(IpNetView),
}

impl View for IpNet {
    type V = IpNetView;

    closed spec fn view(&self) -> IpNetView {
        IpNetView { octets: self.addr@, prefix_len: self.prefix_len as nat }
    }
}

impl View for Ip {
    type V = IpView;

    open spec fn view(&self) -> IpView {
        match self {
            Ip::Address(a) => IpView::Address(a@),
            Ip::Network(n) => IpView::Network(n@),
        }
    }
}

/// How many values share the leading `bits` bits of an octet.
pub open spec fn octet_span(bits: int) -> int {
    if bits == 1 {
        128
    } else if bits == 2 {
        64
    } else if bits == 3 {
        32
    } else if bits == 4 {
        16
    } else if bits == 5 {
        8
    } else if bits == 6 {
        4
    } else {
        2
    }
}

impl IpNetView {
    /// Whether an address is in the network: it is of the same family, and its leading bits are
    /// those of the network.
    pub open spec fn has(self, octets: Seq<u8>) -> bool {
        let whole = (self.prefix_len / 8) as int;
        let rest = (self.prefix_len % 8) as int;
        &&& octets.len() == self.octets.len()
        &&& octets.take(whole) == self.octets.take(whole)
        &&& rest > 0 ==> octets[whole] / octet_span(rest) as u8 == self.octets[whole] / octet_span(
            rest,
        ) as u8
    }
}

/// The bit of an address at a place, counted from the most significant one.
pub open spec fn bit_at(octets: Seq<u8>, k: int) -> bool {
    octets[k / 8] as int / pow2((7 - k % 8) as nat) as int % 2 == 1
}

/// The bits of an octet, one by one.
proof fn lemma_bits_of_octet(a: Seq<u8>, i: int)
    requires
        0 <= i < a.len(),
    ensures
        bit_at(a, 8 * i) == (a[i] / 128 % 2 == 1),
        bit_at(a, 8 * i + 1) == (a[i] / 64 % 2 == 1),
        bit_at(a, 8 * i + 2) == (a[i] / 32 % 2 == 1),
        bit_at(a, 8 * i + 3) == (a[i] / 16 % 2 == 1),
        bit_at(a, 8 * i + 4) == (a[i] / 8 % 2 == 1),
        bit_at(a, 8 * i + 5) == (a[i] / 4 % 2 == 1),
        bit_at(a, 8 * i + 6) == (a[i] / 2 % 2 == 1),
        bit_at(a, 8 * i + 7) == (a[i] % 2 == 1),
{
    lemma2_to64();
    assert((8 * i) / 8 == i && (8 * i) % 8 == 0);
    assert((8 * i + 1) / 8 == i && (8 * i + 1) % 8 == 1);
    assert((8 * i + 2) / 8 == i && (8 * i + 2) % 8 == 2);
    assert((8 * i + 3) / 8 == i && (8 * i + 3) % 8 == 3);
    assert((8 * i + 4) / 8 == i && (8 * i + 4) % 8 == 4);
    assert((8 * i + 5) / 8 == i && (8 * i + 5) % 8 == 5);
    assert((8 * i + 6) / 8 == i && (8 * i + 6) % 8 == 6);
    assert((8 * i + 7) / 8 == i && (8 * i + 7) % 8 == 7);
    assert(pow2(0) == 1);
    assert(a[i] as int / 1 == a[i]);
}

/// Whether two octets have the same bit at a place.
spec fn same_bit(a: Seq<u8>, b: Seq<u8>, k: int) -> bool {
    bit_at(a, k) == bit_at(b, k)
}

/// The bits of two octets, one by one.
proof fn lemma_octet_bits(a: Seq<u8>, b: Seq<u8>, i: int)
    requires
        0 <= i < a.len(),
        a.len() == b.len(),
    ensures
        a[i] / 128 == b[i] / 128 <==> same_bit(a, b, 8 * i),
        a[i] / 64 == b[i] / 64 <==> a[i] / 128 == b[i] / 128 && same_bit(a, b, 8 * i + 1),
        a[i] / 32 == b[i] / 32 <==> a[i] / 64 == b[i] / 64 && same_bit(a, b, 8 * i + 2),
        a[i] / 16 == b[i] / 16 <==> a[i] / 32 == b[i] / 32 && same_bit(a, b, 8 * i + 3),
        a[i] / 8 == b[i] / 8 <==> a[i] / 16 == b[i] / 16 && same_bit(a, b, 8 * i + 4),
        a[i] / 4 == b[i] / 4 <==> a[i] / 8 == b[i] / 8 && same_bit(a, b, 8 * i + 5),
        a[i] / 2 == b[i] / 2 <==> a[i] / 4 == b[i] / 4 && same_bit(a, b, 8 * i + 6),
        a[i] == b[i] <==> a[i] / 2 == b[i] / 2 && same_bit(a, b, 8 * i + 7),
{
    lemma_bits_of_octet(a, i);
    lemma_bits_of_octet(b, i);
    let x = a[i];
    let y = b[i];
    assert(x / 128 == y / 128 <==> x / 128 % 2 == y / 128 % 2) by (bit_vector);
    assert(x / 64 == y / 64 <==> x / 128 == y / 128 && x / 64 % 2 == y / 64 % 2) by (bit_vector);
    assert(x / 32 == y / 32 <==> x / 64 == y / 64 && x / 32 % 2 == y / 32 % 2) by (bit_vector);
    assert(x / 16 == y / 16 <==> x / 32 == y / 32 && x / 16 % 2 == y / 16 % 2) by (bit_vector);
    assert(x / 8 == y / 8 <==> x / 16 == y / 16 && x / 8 % 2 == y / 8 % 2) by (bit_vector);
    assert(x / 4 == y / 4 <==> x / 8 == y / 8 && x / 4 % 2 == y / 4 % 2) by (bit_vector);
    assert(x / 2 == y / 2 <==> x / 4 == y / 4 && x / 2 % 2 == y / 2 % 2) by (bit_vector);
    assert(x == y <==> x / 2 == y / 2 && x % 2 == y % 2) by (bit_vector);
}

/// The leading bits of a network's last shared octet decide, and no others.
proof fn lemma_octet_span(a: Seq<u8>, b: Seq<u8>, i: int, rest: int)
    requires
        0 <= i < a.len(),
        a.len() == b.len(),
        1 <= rest <= 7,
    ensures
        a[i] / octet_span(rest) as u8 == b[i] / octet_span(rest) as u8 <==> (forall|k: int|
            8 * i <= k < 8 * i + rest ==> #[trigger] bit_at(a, k) == bit_at(b, k)),
{
    lemma_octet_bits(a, b, i);
    let all = forall|k: int|
        8 * i <= k < 8 * i + rest ==> #[trigger] bit_at(a, k) == bit_at(b, k);
    if a[i] / octet_span(rest) as u8 == b[i] / octet_span(rest) as u8 {
        assert forall|k: int| 8 * i <= k < 8 * i + rest implies #[trigger] bit_at(a, k) == bit_at(
            b,
            k,
        ) by {
            let j = k - 8 * i;
            assert(j == 0 || j == 1 || j == 2 || j == 3 || j == 4 || j == 5 || j == 6);
        }
    }
    if all {
        assert(forall|j: int|
            0 <= j < rest ==> #[trigger] bit_at(a, 8 * i + j) == bit_at(b, 8 * i + j));
    }
}

/// An address is in a network exactly when it is of the same family and has each of the leading
/// bits of the network, as many as its prefix is long.
pub proof fn lemma_network_bits(net: IpNetView, octets: Seq<u8>)
    requires
        net.prefix_len <= 8 * net.octets.len(),
    ensures
        net.has(octets) <==> octets.len() == net.octets.len() && (forall|k: int|
            0 <= k < net.prefix_len ==> #[trigger] bit_at(octets, k) == bit_at(net.octets, k)),
{
    let own = net.octets;
    let whole = (net.prefix_len / 8) as int;
    let rest = (net.prefix_len % 8) as int;
    if octets.len() == own.len() {
        if net.has(octets) {
            assert forall|k: int| 0 <= k < net.prefix_len implies #[trigger] bit_at(octets, k)
                == bit_at(own, k) by {
                let i = k / 8;
                if i < whole {
                    assert(octets.take(whole)[i] == own.take(whole)[i]);
                } else {
                    lemma_octet_span(octets, own, whole, rest);
                }
            }
        }
        if forall|k: int|
            0 <= k < net.prefix_len ==> #[trigger] bit_at(octets, k) == bit_at(own, k) {
            assert forall|i: int| 0 <= i < whole implies octets[i] == own[i] by {
                lemma_octet_bits(octets, own, i);
                assert(bit_at(octets, 8 * i + 0) == bit_at(own, 8 * i + 0));
                assert(bit_at(octets, 8 * i + 1) == bit_at(own, 8 * i + 1));
                assert(bit_at(octets, 8 * i + 2) == bit_at(own, 8 * i + 2));
                assert(bit_at(octets, 8 * i + 3) == bit_at(own, 8 * i + 3));
                assert(bit_at(octets, 8 * i + 4) == bit_at(own, 8 * i + 4));
                assert(bit_at(octets, 8 * i + 5) == bit_at(own, 8 * i + 5));
                assert(bit_at(octets, 8 * i + 6) == bit_at(own, 8 * i + 6));
                assert(bit_at(octets, 8 * i + 7) == bit_at(own, 8 * i + 7));
            }
            assert(octets.take(whole) =~= own.take(whole));
            if rest > 0 {
                lemma_octet_span(octets, own, whole, rest);
            }
        }
    }
}

impl IpView {
    /// Whether the entry covers an address.
    pub open spec fn covers(self, octets: Seq<u8>) -> bool {
        match self {
            IpView::Address(a) => a == octets,
            IpView::Network(n) => n.has(octets),
        }
    }
}

/// What the `ipnet` crate reads in a text.
pub uninterp spec fn ipnet_of_text(s: Seq<char>) -> Option<IpNetView>;

impl IpNet {
    /// No more bits are shared than the address has.
    #[verifier::type_invariant]
    closed spec fn prefix_in_range(self) -> bool {
        self.prefix_len <= 8 * self.addr@.len()
    }

    /// `str::parse::<ipnet::IpNet>` reads a network: an address, a slash and a number of bits that
    /// is at most the length of the address. Which texts it accepts is left to the name
    /// `ipnet_of_text`.
    #[verifier::external_body]
    fn ipnet_parse(s: &str) -> (r: Option<IpNet>)
        ensures
            match r {
                Some(n) => ipnet_of_text(s@) == Some(n@),
                None => ipnet_of_text(s@) is None,
            },
    {
        match s.parse::<ipnet::IpNet>().ok()? {
            ipnet::IpNet::V4(n) => Some(
                IpNet {
                    addr: IpAddr::V4(Ipv4Addr { octets: n.addr().octets() }),
                    prefix_len: n.prefix_len(),
                },
            ),
            ipnet::IpNet::V6(n) => Some(
                IpNet {
                    addr: IpAddr::V6(Ipv6Addr { octets: n.addr().octets() }),
                    prefix_len: n.prefix_len(),
                },
            ),
        }
    }

    /// Reads a network from text.
    pub fn parse(s: &str) -> (r: Option<IpNet>)
        ensures
            match r {
                Some(n) => ipnet_of_text(s@) == Some(n@),
                None => ipnet_of_text(s@) is None,
            },
    {
        IpNet::ipnet_parse(s)
    }

    /// A network of an address and a number of shared bits, at most as many as the address has.
    pub fn new(addr: IpAddr, prefix_len: u8) -> (r: Option<IpNet>)
        ensures
            match r {
                Some(n) => n@ == (IpNetView { octets: addr@, prefix_len: prefix_len as nat })
                    && prefix_len <= 8 * addr@.len(),
                None => prefix_len > 8 * addr@.len(),
            },
    {
        let bits: u8 = match addr {
            IpAddr::V4(_) => 32,
            IpAddr::V6(_) => 128,
        };
        if prefix_len <= bits {
            Some(IpNet { addr, prefix_len })
        } else {
            None
        }
    }

    /// Whether an address is in the network.
    pub fn contains(&self, addr: &IpAddr) -> (r: bool)
        ensures
            r == self@.has(addr@),
            r <==> addr@.len() == self@.octets.len() && (forall|k: int|
                0 <= k < self@.prefix_len ==> #[trigger] bit_at(addr@, k) == bit_at(
                    self@.octets,
                    k,
                )),
    {
        proof {
            use_type_invariant(self);
            lemma_network_bits(self@, addr@);
        }
        let own: &[u8] = match &self.addr {
            IpAddr::V4(a) => &a.octets,
            IpAddr::V6(a) => &a.octets,
        };
        let other: &[u8] = match addr {
            IpAddr::V4(a) => &a.octets,
            IpAddr::V6(a) => &a.octets,
        };
        assert(own@ =~= self@.octets);
        assert(other@ =~= addr@);
        if own.len() != other.len() {
            return false;
        }
        let whole: usize = (self.prefix_len / 8) as usize;
        let rest: u8 = self.prefix_len % 8;
        assert(other@.subrange(0, whole as int) == other@.take(whole as int));
        assert(own@.subrange(0, whole as int) == own@.take(whole as int));
        if !same_bytes(&other[0..whole], &own[0..whole]) {
            return false;
        }
        if rest == 0 {
            return true;
        }
        let span: u8 = match rest {
            1 => 128,
            2 => 64,
            3 => 32,
            4 => 16,
            5 => 8,
            6 => 4,
            _ => 2,
        };
        other[whole] / span == own[whole] / span
    }
}

/// The views of a list of entries.
pub open spec fn ip_views(v: Seq<Ip>) -> Seq<IpView> {
    Seq::new(v.len(), |i: int| v[i]@)
}

impl IpMatcher {
    /// Whether an entry covers the address.
    pub open spec fn covers(self, octets: Seq<u8>) -> bool {
        exists|i: int| 0 <= i < self.0@.len() && #[trigger] self.0@[i]@.covers(octets)
    }

    /// Whether the address is one of the entries or in one of them.
    pub fn contains(&self, addr: IpAddr) -> (r: bool)
        ensures
            r == self.covers(addr@),
    {
        let mut i: usize = 0;
        while i < self.0.len()
            invariant
                i <= self.0@.len(),
                forall|j: int| 0 <= j < i ==> !#[trigger] self.0@[j]@.covers(addr@),
            decreases self.0@.len() - i,
        {
            let found = match &self.0[i] {
                Ip::Address(address) => {
                    match (address, &addr) {
                        (IpAddr::V4(a), IpAddr::V4(b)) => same_bytes(&a.octets, &b.octets),
                        (IpAddr::V6(a), IpAddr::V6(b)) => same_bytes(&a.octets, &b.octets),
                        (IpAddr::V4(a), IpAddr::V6(b)) => {
                            assert(a@.len() != b@.len());
                            false
                        },
                        (IpAddr::V6(a), IpAddr::V4(b)) => {
                            assert(a@.len() != b@.len());
                            false
                        },
                    }
                },
                Ip::Network(net) => net.contains(&addr),
            };
            assert(found == self.0@[i as int]@.covers(addr@));
            if found {
                return true;
            }
            i = i + 1;
        }
        false
    }
}

/// Whether `s` ends with `suffix`.
pub open spec fn has_suffix(s: Seq<char>, suffix: Seq<char>) -> bool {
    suffix.len() <= s.len() && s.skip(s.len() - suffix.len()) == suffix
}

/// Whether an entry covers a host name. `*` covers every name; any other entry covers the name,
/// with or without a leading dot, and all of its subdomains.
pub open spec fn domain_covers(entry: Seq<char>, host: Seq<char>) -> bool {
    ||| entry == "*"@
    ||| entry == host
    ||| entry.len() > 0 && entry[0] == '.' && entry.skip(1) == host
    ||| has_suffix(host, entry) && entry.len() > 0 && entry[0] == '.'
    ||| has_suffix(host, entry) && host.len() > entry.len() && host[host.len() - entry.len() - 1]
        == '.'
}

fn entry_covers(entry: &[char], host: &[char]) -> (r: bool)
    ensures
        r == domain_covers(entry@, host@),
{
    let star = chars_of("*");
    if same_chars(entry, star.as_slice()) || same_chars(entry, host) {
        return true;
    }
    let dotted = entry.len() > 0 && entry[0] == '.';
    if dotted {
        assert(entry@.subrange(1, entry@.len() as int) == entry@.skip(1));
        if same_chars(&entry[1..entry.len()], host) {
            return true;
        }
    }
    if entry.len() > host.len() {
        return false;
    }
    let at: usize = host.len() - entry.len();
    assert(host@.subrange(at as int, host@.len() as int) == host@.skip(at as int));
    if !same_chars(&host[at..host.len()], entry) {
        return false;
    }
    dotted || (at > 0 && host[at - 1] == '.')
}

impl DomainMatcher {
    /// Whether an entry covers the host name.
    pub open spec fn covers(self, host: Seq<char>) -> bool {
        exists|i: int| 0 <= i < self.0@.len() && domain_covers(#[trigger] self.0@[i]@, host)
    }

    /// Whether the host name, or a domain that it is in, is one of the entries.
    pub fn contains(&self, domain: &str) -> (r: bool)
        ensures
            r == self.covers(domain@),
    {
        let host = chars_of(domain);
        let mut i: usize = 0;
        while i < self.0.len()
            invariant
                i <= self.0@.len(),
                host@ == domain@,
                forall|j: int| 0 <= j < i ==> !domain_covers(#[trigger] self.0@[j]@, domain@),
            decreases self.0@.len() - i,
        {
            let entry = chars_of(self.0[i].as_str());
            if entry_covers(entry.as_slice(), host.as_slice()) {
                return true;
            }
            i = i + 1;
        }
        false
    }
}

/// Whether a host is a name, or ends in a dot and that name.
pub open spec fn within_domain(host: Seq<char>, name: Seq<char>) -> bool {
    let at = host.len() - name.len();
    &&& at >= 0
    &&& at == 0 || host[at - 1] == '.'
    &&& forall|i: int| 0 <= i < name.len() ==> host[at + i] == #[trigger] name[i]
}

/// An entry other than `*` covers the hosts within its domain, a dot before the name of which is no
/// part of it.
pub proof fn lemma_domain_covers(entry: Seq<char>, host: Seq<char>)
    ensures
        entry == "*"@ ==> domain_covers(entry, host),
        entry != "*"@ && (entry.len() == 0 || entry[0] != '.') ==> (domain_covers(entry, host)
            <==> within_domain(host, entry)),
        entry.len() > 0 && entry[0] == '.' ==> (domain_covers(entry, host) <==> within_domain(
            host,
            entry.skip(1),
        )),
{
    reveal_strlit("*");
    assert("*"@ =~= seq!['*']);
    let dotted = entry.len() > 0 && entry[0] == '.';
    let name = if dotted {
        entry.skip(1)
    } else {
        entry
    };
    let at = host.len() - name.len();
    if dotted {
        assert("*"@[0] == '*');
        assert(entry != "*"@);
    }
    if domain_covers(entry, host) && entry != "*"@ {
        if entry == host {
            assert(host.skip(0) =~= host);
            assert(has_suffix(host, entry));
        }
        if has_suffix(host, entry) {
            let tail = host.skip(host.len() - entry.len());
            assert forall|i: int| 0 <= i < name.len() implies host[at + i] == #[trigger] name[i] by {
                if dotted {
                    assert(name[i] == entry[i + 1]);
                    assert(tail[i + 1] == host[at + i]);
                } else {
                    assert(tail[i] == host[at + i]);
                }
            }
            if dotted {
                assert(tail[0] == host[at - 1]);
            }
        }
        assert(within_domain(host, name));
    }
    if within_domain(host, name) && entry != "*"@ {
        if at == 0 {
            assert(host =~= name);
        } else {
            assert forall|i: int| 0 <= i < entry.len() implies host.skip(
                host.len() - entry.len(),
            )[i] == entry[i] by {
                if dotted && i > 0 {
                    assert(name[i - 1] == entry[i]);
                    assert(host[at + (i - 1)] == name[i - 1]);
                } else if !dotted {
                    assert(host[at + i] == name[i]);
                }
            }
            assert(host.skip(host.len() - entry.len()) =~= entry);
            assert(has_suffix(host, entry));
        }
        assert(domain_covers(entry, host));
    }
}

/// An entry that is an address covers that address alone.
pub proof fn lemma_address_entry(a: Seq<u8>, octets: Seq<u8>)
    ensures
        IpView::Address(a).covers(octets) <==> octets.len() == a.len() && (forall|i: int|
            0 <= i < a.len() ==> octets[i] == #[trigger] a[i]),
{
    if octets.len() == a.len() && (forall|i: int| 0 <= i < a.len() ==> octets[i] == #[trigger] a[i]) {
        assert(octets =~= a);
    }
}

/// A leading dot makes no difference: `google.com` and `.google.com` are equivalent. (An entry
/// `*` is a wildcard, and one more dot before a dotted entry leaves out the bare name.)
pub proof fn lemma_leading_dot(entry: Seq<char>, host: Seq<char>)
    requires
        entry != "*"@,
        entry.len() == 0 || entry[0] != '.',
    ensures
        domain_covers(seq!['.'] + entry, host) == domain_covers(entry, host),
{
    let dotted = seq!['.'] + entry;
    assert(dotted.skip(1) =~= entry);
    reveal_strlit("*");
    assert(dotted != "*"@) by {
        assert(dotted[0] == '.');
        assert("*"@[0] == '*');
    }
    if has_suffix(host, dotted) {
        let tail = host.skip(host.len() - dotted.len());
        assert(tail == dotted);
        assert(host.skip(host.len() - entry.len()) =~= tail.skip(1));
        assert(host[host.len() - entry.len() - 1] == tail[0]);
    }
    if has_suffix(host, entry) && host.len() > entry.len() && host[host.len() - entry.len() - 1]
        == '.' {
        assert(host.skip(host.len() - dotted.len()) =~= dotted) by {
            assert(host.skip(host.len() - entry.len()) == entry);
            assert forall|i: int| 0 <= i < dotted.len() implies host.skip(
                host.len() - dotted.len(),
            )[i] == dotted[i] by {
                if i > 0 {
                    assert(host.skip(host.len() - entry.len())[i - 1] == entry[i - 1]);
                }
            }
        }
    }
}

/// An entry covers its name and every subdomain of it.
pub proof fn lemma_subdomains(entry: Seq<char>, label: Seq<char>)
    ensures
        domain_covers(entry, entry),
        domain_covers(entry, label + seq!['.'] + entry),
{
    let host = label + seq!['.'] + entry;
    assert(host.skip(host.len() - entry.len()) =~= entry);
    assert(host[host.len() - entry.len() - 1] == '.');
}

/// A name that merely ends in the same letters is not covered.
pub proof fn lemma_no_partial_label(entry: Seq<char>, prefix: Seq<char>)
    requires
        entry != "*"@,
        entry.len() > 0,
        entry[0] != '.',
        prefix.len() > 0,
        prefix.last() != '.',
    ensures
        !domain_covers(entry, prefix + entry),
{
    let host = prefix + entry;
    assert(host.len() > entry.len());
    assert(host[host.len() - entry.len() - 1] == prefix.last());
}

/// `*` covers every host name.
pub proof fn lemma_wildcard(host: Seq<char>)
    ensures
        domain_covers("*"@, host),
{
}

/// The entry for addresses that a text is, if it is one: a network, or else an address.
pub open spec fn ip_entry(s: Seq<char>) -> Option<IpView> {
    match ipnet_of_text(s) {
        Some(n) => Some(IpView::Network(n)),
        None => match ip_of_text(s) {
            Some(octets) => Some(IpView::Address(octets)),
            None => None,
        },
    }
}

/// The entries of a comma-separated list, without whitespace around them.
pub open spec fn list_entries(list: Seq<char>) -> Seq<Seq<char>> {
    fields(list, ',').map_values(|part: Seq<char>| trimmed(part, CharClass::Whitespace))
}

/// The entries for addresses of a list, in order.
pub open spec fn ip_entries(entries: Seq<Seq<char>>) -> Seq<IpView>
    decreases entries.len(),
{
    if entries.len() == 0 {
        Seq::empty()
    } else {
        let before = ip_entries(entries.drop_last());
        match ip_entry(entries.last()) {
            Some(ip) => before.push(ip),
            None => before,
        }
    }
}

/// The other entries of a list, in order: those are domain names.
pub open spec fn domain_entries(entries: Seq<Seq<char>>) -> Seq<Seq<char>>
    decreases entries.len(),
{
    if entries.len() == 0 {
        Seq::empty()
    } else {
        let before = domain_entries(entries.drop_last());
        match ip_entry(entries.last()) {
            Some(_) => before,
            None => before.push(entries.last()),
        }
    }
}

/// Every entry of a list is kept: as a network or an address if it is one, as a domain name if it is
/// neither, and nothing else is kept.
pub proof fn lemma_entries_kept(entries: Seq<Seq<char>>, ip: IpView, name: Seq<char>)
    ensures
        ip_entries(entries).len() + domain_entries(entries).len() == entries.len(),
        ip_entries(entries).contains(ip) <==> exists|i: int|
            0 <= i < entries.len() && {
                let entry = #[trigger] entries[i];
                match ip {
                    IpView::Network(n) => ipnet_of_text(entry) == Some(n),
                    IpView::Address(a) => ipnet_of_text(entry) is None && ip_of_text(entry) == Some(
                        a,
                    ),
                }
            },
        domain_entries(entries).contains(name) <==> exists|i: int|
            0 <= i < entries.len() && #[trigger] entries[i] == name && ipnet_of_text(name) is None
                && ip_of_text(name) is None,
    decreases entries.len(),
{
    if entries.len() > 0 {
        let less = entries.drop_last();
        let last = entries.last();
        lemma_entries_kept(less, ip, name);
        let ips = ip_entries(less);
        let names = domain_entries(less);
        if ip_entries(entries).contains(ip) {
            if ips.contains(ip) {
                let i = choose|i: int|
                    0 <= i < less.len() && {
                        let entry = #[trigger] less[i];
                        match ip {
                            IpView::Network(n) => ipnet_of_text(entry) == Some(n),
                            IpView::Address(a) => ipnet_of_text(entry) is None && ip_of_text(entry)
                                == Some(a),
                        }
                    };
                assert(entries[i] == less[i]);
            } else {
                let j = choose|j: int|
                    0 <= j < ip_entries(entries).len() && ip_entries(entries)[j] == ip;
                if j < ips.len() {
                    assert(ips[j] == ip);
                }
                assert(entries[entries.len() - 1] == last);
            }
        }
        assert forall|i: int|
            0 <= i < entries.len() && {
                let entry = #[trigger] entries[i];
                match ip {
                    IpView::Network(n) => ipnet_of_text(entry) == Some(n),
                    IpView::Address(a) => ipnet_of_text(entry) is None && ip_of_text(entry) == Some(
                        a,
                    ),
                }
            } implies ip_entries(entries).contains(ip) by {
            if i < less.len() {
                assert(less[i] == entries[i]);
                let j = choose|j: int| 0 <= j < ips.len() && ips[j] == ip;
                assert(ip_entries(entries)[j] == ip);
            } else {
                assert(ip_entries(entries)[ips.len() as int] == ip);
            }
        }
        if domain_entries(entries).contains(name) {
            if names.contains(name) {
                let i = choose|i: int|
                    0 <= i < less.len() && #[trigger] less[i] == name && ipnet_of_text(name) is None
                        && ip_of_text(name) is None;
                assert(entries[i] == less[i]);
            } else {
                let j = choose|j: int|
                    0 <= j < domain_entries(entries).len() && domain_entries(entries)[j] == name;
                if j < names.len() {
                    assert(names[j] == name);
                }
                assert(entries[entries.len() - 1] == last);
            }
        }
        assert forall|i: int|
            0 <= i < entries.len() && #[trigger] entries[i] == name && ipnet_of_text(name) is None
                && ip_of_text(name) is None implies domain_entries(entries).contains(name) by {
            if i < less.len() {
                assert(less[i] == entries[i]);
                let j = choose|j: int| 0 <= j < names.len() && names[j] == name;
                assert(domain_entries(entries)[j] == name);
            } else {
                assert(domain_entries(entries)[names.len() as int] == name);
            }
        }
    }
}

/// The brackets of an IPv6 literal make no difference, and a host without them stays as it is.
pub proof fn lemma_brackets_ignored(no: NoProxy, host: Seq<char>)
    requires
        host.len() > 0,
        forall|i: int| 0 <= i < host.len() ==> #[trigger] host[i] != '[' && host[i] != ']',
    ensures
        bare_host(host) == host,
        bare_host(seq!['['] + host + seq![']']) == host,
        no.covers(seq!['['] + host + seq![']']) == no.covers(host),
{
    let bracketed = seq!['['] + host + seq![']'];
    let class = CharClass::Brackets;
    assert(host[0] != '[' && host[0] != ']');
    assert(host[host.len() - 1] != ']' && host[host.len() - 1] != '[');
    let inner = bracketed.skip(1);
    assert(inner =~= host + seq![']']);
    assert(inner[0] == host[0]);
    assert(trimmed_start(inner, class) == inner);
    assert(trimmed_start(bracketed, class) == inner);
    assert(inner.drop_last() =~= host);
    assert(trimmed_end(host, class) == host);
    assert(trimmed_end(inner, class) == host);
}

/// The host without the brackets of an IPv6 literal.
pub open spec fn bare_host(host: Seq<char>) -> Seq<char> {
    if host.len() > 0 && host[0] == '[' {
        trimmed(host, CharClass::Brackets)
    } else {
        host
    }
}

impl NoProxy {
    /// Whether the host bypasses the proxy: as an address by the entries for addresses, as a name
    /// by the domain names.
    pub open spec fn covers(self, host: Seq<char>) -> bool {
        match ip_of_text(bare_host(host)) {
            Some(octets) => self.ips.covers(octets),
            None => self.domains.covers(bare_host(host)),
        }
    }

    /// No destination bypasses the proxy.
    pub fn empty() -> (r: NoProxy)
        ensures
            r.ips.0@ == Seq::<Ip>::empty(),
            r.domains.0@ == Seq::<String>::empty(),
    {
        NoProxy { ips: IpMatcher(Vec::new()), domains: DomainMatcher(Vec::new()) }
    }

    /// Adds an entry. `net` is the network that the entry is, if it is one.
    pub fn add_entry(&mut self, part: &[char], net: Option<IpNet>)
        ensures
            ({
                let entry = match net {
                    Some(n) => Some(IpView::Network(n@)),
                    None => match ip_of_text(part@) {
                        Some(octets) => Some(IpView::Address(octets)),
                        None => None,
                    },
                };
                match entry {
                    Some(ip) => {
                        &&& ip_views(final(self).ips.0@) == ip_views(old(self).ips.0@).push(ip)
                        &&& texts(final(self).domains.0@) == texts(old(self).domains.0@)
                    },
                    None => {
                        &&& ip_views(final(self).ips.0@) == ip_views(old(self).ips.0@)
                        &&& texts(final(self).domains.0@) == texts(old(self).domains.0@).push(part@)
                    },
                }
            }),
    {
        let ghost ips = self.ips.0@;
        let ghost domains = self.domains.0@;
        match net {
            Some(n) => {
                self.ips.0.push(Ip::Network(n));
                assert(ip_views(self.ips.0@) =~= ip_views(ips).push(IpView::Network(n@)));
            },
            None => match parse_ip(part) {
                Some(addr) => {
                    self.ips.0.push(Ip::Address(addr));
                    assert(ip_views(self.ips.0@) =~= ip_views(ips).push(IpView::Address(addr@)));
                },
                None => {
                    self.domains.0.push(string_of(part));
                    assert(texts(self.domains.0@) =~= texts(domains).push(part@));
                },
            },
        }
    }

    /// Reads a list of destinations that bypass the proxy.
    ///
    /// * Entries are comma-separated (whitespace between entries is ignored)
    /// * IP addresses (both IPv4 and IPv6) are allowed, as are optional subnet masks (by adding
    ///   /size, for example "`192.168.1.0/24`").
    /// * An entry "`*`" matches all hostnames (this is the only wildcard allowed)
    /// * Any other entry is considered a domain name (and may contain a leading dot, for example
    ///   `google.com` and `.google.com` are equivalent) and would match both that domain AND all
    ///   subdomains.
    pub fn from_string(no_proxy_list: &str) -> (r: NoProxy)
        ensures
            ip_views(r.ips.0@) == ip_entries(list_entries(no_proxy_list@)),
            texts(r.domains.0@) == domain_entries(list_entries(no_proxy_list@)),
    {
        let chars = chars_of(no_proxy_list);
        let parts = split_fields(chars.as_slice(), ',');
        let ghost entries = list_entries(no_proxy_list@);
        assert(entries.len() == parts@.len());
        let mut r = NoProxy::empty();
        let mut i: usize = 0;
        assert(ip_views(r.ips.0@) =~= ip_entries(entries.take(0)));
        assert(texts(r.domains.0@) =~= domain_entries(entries.take(0)));
        while i < parts.len()
            invariant
                i <= parts@.len(),
                entries == list_entries(no_proxy_list@),
                entries.len() == parts@.len(),
                crate::text::views(parts@) == fields(no_proxy_list@, ','),
                ip_views(r.ips.0@) == ip_entries(entries.take(i as int)),
                texts(r.domains.0@) == domain_entries(entries.take(i as int)),
            decreases parts@.len() - i,
        {
            let part = trim(parts[i].as_slice(), CharClass::Whitespace);
            assert(crate::text::views(parts@)[i as int] == parts@[i as int]@);
            assert(part@ == entries[i as int]);
            let ghost more = entries.take(i + 1);
            assert(more.drop_last() == entries.take(i as int));
            assert(more.last() == part@);
            let net = IpNet::parse(string_of(part).as_str());
            r.add_entry(part, net);
            i = i + 1;
        }
        assert(entries.take(entries.len() as int) == entries);
        r
    }

    /// Whether the host bypasses the proxy.
    pub fn contains(&self, host: &str) -> (r: bool)
        ensures
            r == self.covers(host@),
    {
        let chars = chars_of(host);
        let bare: &[char] = if chars.len() > 0 && chars[0] == '[' {
            trim(chars.as_slice(), CharClass::Brackets)
        } else {
            chars.as_slice()
        };
        match parse_ip(bare) {
            Some(ip) => self.ips.contains(ip),
            None => self.domains.contains(string_of(bare).as_str()),
        }
    }
}

/// The entries of a list stand between commas, and space around them does not count.
pub proof fn lemma_list_entries(parts: Seq<Seq<char>>)
    requires
        parts.len() >= 1,
        forall|i: int| 0 <= i < parts.len() ==> !(#[trigger] parts[i]).contains(','),
    ensures
        list_entries(joined(parts, seq![','])).len() == parts.len(),
        forall|i: int|
            0 <= i < parts.len() ==> #[trigger] list_entries(joined(parts, seq![',']))[i] == trimmed(
                parts[i],
                CharClass::Whitespace,
            ),
{
    lemma_join_fields(parts, ',');
}

/// A host that is an address bypasses the proxy by an entry for addresses alone, and a name by a
/// domain name alone. Each entry does for itself.
pub proof fn lemma_bypass(no: NoProxy, host: Seq<char>)
    requires
        host.len() == 0 || host[0] != '[',
    ensures
        ip_of_text(host) matches Some(octets) ==> (no.covers(host) <==> exists|i: int|
            0 <= i < no.ips.0@.len() && #[trigger] no.ips.0@[i]@.covers(octets)),
        ip_of_text(host) is None ==> (no.covers(host) <==> exists|i: int|
            0 <= i < no.domains.0@.len() && domain_covers(#[trigger] no.domains.0@[i]@, host)),
        no.ips.0@.len() == 0 && no.domains.0@.len() == 0 ==> !no.covers(host),
{
}

} // verus!
