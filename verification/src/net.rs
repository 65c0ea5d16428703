//! Internet addresses: their bytes, and the notations in which they are written.

use vstd::prelude::*;

use crate::text::all_decimal;
use crate::text::decimal;
use crate::text::decimal_value;
use crate::text::fields;
use crate::text::joined;
use crate::text::lemma_decimal_canonical;
use crate::text::lemma_decimal_roundtrip;
use crate::text::lemma_fields_join;
use crate::text::lemma_join_fields;
use crate::text::split_fields;

verus! {

/// An IPv4 address.
#[derive(Debug, Clone, Copy, PartialEq, Eq)]
pub struct Ipv4Addr {
    pub octets: [u8; 4],
}

/// An IPv6 address, its sixteen octets in network order.
#[derive(Debug, Clone, Copy, PartialEq, Eq)]
pub struct Ipv6Addr {
    pub octets: [u8; 16],
}

/// An address of either family.
#[derive(Debug, Clone, Copy, PartialEq, Eq)]
pub enum IpAddr {
    V4(Ipv4Addr),
    V6(Ipv6Addr),
}

impl View for Ipv4Addr {
    type V = Seq<u8>;

    open spec fn view(&self) -> Seq<u8> {
        self.octets@
    }
}

impl View for Ipv6Addr {
    type V = Seq<u8>;

    open spec fn view(&self) -> Seq<u8> {
        self.octets@
    }
}

/// The octets of the address: four of them for IPv4, sixteen for IPv6.
impl View for IpAddr {
    type V = Seq<u8>;

    open spec fn view(&self) -> Seq<u8> {
        match self {
            IpAddr::V4(a) => a@,
            IpAddr::V6(a) => a@,
        }
    }
}

/// An IPv4 address with a port.
#[derive(Debug, Clone, Copy, PartialEq, Eq)]
pub struct SocketAddrV4 {
    pub ip: Ipv4Addr,
    pub port: u16,
}

/// An IPv6 address with a port, and the flow and scope that the system attached to it.
#[derive(Debug, Clone, Copy, PartialEq, Eq)]
pub struct SocketAddrV6 {
    pub ip: Ipv6Addr,
    pub port: u16,
    pub flowinfo: u32,
    pub scope_id: u32,
}

/// An address of either family with a port.
#[derive(Debug, Clone, Copy, PartialEq, Eq)]
pub enum SocketAddr {
    V4(SocketAddrV4),
    V6(SocketAddrV6),
}

impl SocketAddr {
    /// The port of the address.
    pub open spec fn port_spec(self) -> u16 {
        match self {
            SocketAddr::V4(a) => a.port,
            SocketAddr::V6(a) => a.port,
        }
    }

    /// The address without its port.
    pub open spec fn ip_spec(self) -> IpAddr {
        match self {
            SocketAddr::V4(a) => IpAddr::V4(a.ip),
            SocketAddr::V6(a) => IpAddr::V6(a.ip),
        }
    }

    /// The same address with another port.
    pub open spec fn with_port_spec(self, port: u16) -> SocketAddr {
        match self {
            SocketAddr::V4(a) => SocketAddr::V4(SocketAddrV4 { ip: a.ip, port }),
            SocketAddr::V6(a) => SocketAddr::V6(
                SocketAddrV6 { ip: a.ip, port, flowinfo: a.flowinfo, scope_id: a.scope_id },
            ),
        }
    }

    /// An address and port, with no flow and no scope.
    pub open spec fn new_spec(ip: IpAddr, port: u16) -> SocketAddr {
        match ip {
            IpAddr::V4(ip) => SocketAddr::V4(SocketAddrV4 { ip, port }),
            IpAddr::V6(ip) => SocketAddr::V6(SocketAddrV6 { ip, port, flowinfo: 0, scope_id: 0 }),
        }
    }

    /// Makes an address and port, with no flow and no scope.
    pub fn new(ip: IpAddr, port: u16) -> (r: SocketAddr)
        ensures
            r == SocketAddr::new_spec(ip, port),
    {
        match ip {
            IpAddr::V4(ip) => SocketAddr::V4(SocketAddrV4 { ip, port }),
            IpAddr::V6(ip) => SocketAddr::V6(SocketAddrV6 { ip, port, flowinfo: 0, scope_id: 0 }),
        }
    }

    /// The address without its port.
    pub fn ip(&self) -> (r: IpAddr)
        ensures
            r == self.ip_spec(),
    {
        match self {
            SocketAddr::V4(a) => IpAddr::V4(a.ip),
            SocketAddr::V6(a) => IpAddr::V6(a.ip),
        }
    }

    /// The port of the address.
    pub fn port(&self) -> (r: u16)
        ensures
            r == self.port_spec(),
    {
        match self {
            SocketAddr::V4(a) => a.port,
            SocketAddr::V6(a) => a.port,
        }
    }

    /// The same address with another port.
    pub fn with_port(self, port: u16) -> (r: SocketAddr)
        ensures
            r == self.with_port_spec(port),
    {
        match self {
            SocketAddr::V4(a) => SocketAddr::V4(SocketAddrV4 { ip: a.ip, port }),
            SocketAddr::V6(a) => SocketAddr::V6(
                SocketAddrV6 { ip: a.ip, port, flowinfo: a.flowinfo, scope_id: a.scope_id },
            ),
        }
    }
}

/// An address keeps the host and the port that it was made of, and another port changes nothing
/// else.
pub proof fn lemma_address_parts(ip: IpAddr, port: u16, addr: SocketAddr)
    ensures
        SocketAddr::new_spec(ip, port).ip_spec() == ip,
        SocketAddr::new_spec(ip, port).port_spec() == port,
        addr.with_port_spec(port).port_spec() == port,
        addr.with_port_spec(port).ip_spec() == addr.ip_spec(),
        addr.with_port_spec(port).with_port_spec(addr.port_spec()) == addr,
        addr is V4 <==> addr.ip_spec() is V4,
{
}

/// The value of a digit in bases up to sixteen, in either case of letters.
pub open spec fn digit_value(c: char) -> nat {
    let u = c as u32;
    if 0x30 <= u <= 0x39 {
        (u - 0x30) as nat
    } else if 0x61 <= u <= 0x66 {
        (u - 0x61 + 10) as nat
    } else if 0x41 <= u <= 0x46 {
        (u - 0x41 + 10) as nat
    } else {
        16
    }
}

/// Whether every character is a digit in the given base.
pub open spec fn all_digits(s: Seq<char>, radix: nat) -> bool {
    forall|i: int| 0 <= i < s.len() ==> digit_value(#[trigger] s[i]) < radix
}

/// The number that the digits write in the given base.
pub open spec fn digits_value(s: Seq<char>, radix: nat) -> nat
    decreases s.len(),
{
    if s.len() == 0 {
        0
    } else {
        digits_value(s.drop_last(), radix) * radix + digit_value(s.last())
    }
}

fn digit_of(c: char) -> (r: u32)
    ensures
        r == digit_value(c),
{
    let u: u32 = c as u32;
    if 0x30 <= u && u <= 0x39 {
        u - 0x30
    } else if 0x61 <= u && u <= 0x66 {
        u - 0x61 + 10
    } else if 0x41 <= u && u <= 0x46 {
        u - 0x41 + 10
    } else {
        16
    }
}

/// Reads a number of at most four digits.
fn short_number(s: &[char], radix: u32) -> (r: Option<u32>)
    requires
        radix == 10 || radix == 16,
    ensures
        r is Some <==> 1 <= s@.len() <= 4 && all_digits(s@, radix as nat),
        r matches Some(n) ==> n == digits_value(s@, radix as nat) && n < 65536,
{
    if s.len() == 0 || s.len() > 4 {
        return None;
    }
    let mut n: u32 = 0;
    let mut i: usize = 0;
    while i < s.len()
        invariant
            radix == 10 || radix == 16,
            i <= s.len() <= 4,
            n == digits_value(s@.take(i as int), radix as nat),
            all_digits(s@.take(i as int), radix as nat),
            i == 0 ==> n < 1,
            i == 1 ==> n < 16,
            i == 2 ==> n < 256,
            i == 3 ==> n < 4096,
            i == 4 ==> n < 65536,
        decreases s.len() - i,
    {
        let d = digit_of(s[i]);
        let ghost head = s@.take(i as int);
        let ghost more = s@.take(i + 1);
        assert(more.drop_last() == head);
        assert(more.last() == s@[i as int]);
        if d >= radix {
            assert(!all_digits(s@, radix as nat));
            return None;
        }
        assert(all_digits(more, radix as nat)) by {
            assert forall|j: int| 0 <= j < more.len() implies digit_value(#[trigger] more[j])
                < radix by {
                if j < i {
                    assert(more[j] == head[j]);
                }
            }
        }
        n = n * radix + d;
        i = i + 1;
    }
    assert(s@.take(s@.len() as int) == s@);
    Some(n)
}

/// Whether a field writes an octet in decimal: up to three digits without a leading zero, at most
/// 255.
pub open spec fn is_octet(s: Seq<char>) -> bool {
    &&& 1 <= s.len() <= 3
    &&& all_digits(s, 10)
    &&& (s.len() == 1 || s[0] != '0')
    &&& digits_value(s, 10) <= 255
}

/// The octets of an address in dotted decimal notation.
pub open spec fn ipv4_of_text(s: Seq<char>) -> Option<Seq<u8>> {
    let f = fields(s, '.');
    if f.len() == 4 && (forall|i: int| 0 <= i < 4 ==> is_octet(#[trigger] f[i])) {
        Some(Seq::new(4, |i: int| digits_value(f[i], 10) as u8))
    } else {
        None
    }
}

fn parse_octet(s: &[char]) -> (r: Option<u8>)
    ensures
        r is Some <==> is_octet(s@),
        r matches Some(n) ==> n == digits_value(s@, 10),
{
    if s.len() > 3 {
        return None;
    }
    if s.len() > 1 && s[0] == '0' {
        return None;
    }
    match short_number(s, 10) {
        Some(n) => {
            if n <= 255 {
                Some(n as u8)
            } else {
                None
            }
        },
        None => None,
    }
}

/// Reads an IPv4 address in dotted decimal notation.
pub fn parse_ipv4(s: &[char]) -> (r: Option<Ipv4Addr>)
    ensures
        match r {
            Some(a) => ipv4_of_text(s@) == Some(a@),
            None => ipv4_of_text(s@) is None,
        },
{
    let parts = split_fields(s, '.');
    let ghost f = fields(s@, '.');
    assert(f.len() == parts@.len());
    assert(forall|i: int| 0 <= i < parts@.len() ==> f[i] == parts@[i]@);
    if parts.len() != 4 {
        return None;
    }
    match (
        parse_octet(&parts[0]),
        parse_octet(&parts[1]),
        parse_octet(&parts[2]),
        parse_octet(&parts[3]),
    ) {
        (Some(a), Some(b), Some(c), Some(d)) => {
            let r = Ipv4Addr { octets: [a, b, c, d] };
            assert(r@ =~= Seq::new(4, |i: int| digits_value(f[i], 10) as u8));
            Some(r)
        },
        _ => {
            assert(!(is_octet(f[0]) && is_octet(f[1]) && is_octet(f[2]) && is_octet(f[3])));
            None
        },
    }
}

/// The digits of either case have the values from zero to fifteen, and nothing else is a digit.
pub proof fn lemma_digits(d: int, c: char)
    requires
        0 <= d < 16,
    ensures
        digit_value("0123456789abcdef"@[d]) == d,
        digit_value("0123456789ABCDEF"@[d]) == d,
        digit_value(c) < 16 ==> c == "0123456789abcdef"@[digit_value(c) as int] || c
            == "0123456789ABCDEF"@[digit_value(c) as int],
{
    reveal_strlit("0123456789abcdef");
    reveal_strlit("0123456789ABCDEF");
}

/// The decimal digits are those of a value below ten.
proof fn lemma_decimal_digit(c: char)
    ensures
        digit_value(c) < 10 <==> '0' <= c && c <= '9',
        '0' <= c && c <= '9' ==> digit_value(c) == c as u32 - '0' as u32,
{
}

/// In base ten the digits write what they write in decimal notation.
proof fn lemma_digits_decimal(s: Seq<char>)
    ensures
        all_digits(s, 10) <==> all_decimal(s),
        all_digits(s, 10) ==> digits_value(s, 10) == decimal_value(s),
    decreases s.len(),
{
    if all_digits(s, 10) {
        assert forall|i: int| 0 <= i < s.len() implies '0' <= #[trigger] s[i] <= '9' by {
            assert(digit_value(s[i]) < 10);
            lemma_decimal_digit(s[i]);
        }
        if s.len() > 0 {
            let head = s.drop_last();
            assert forall|i: int| 0 <= i < head.len() implies digit_value(#[trigger] head[i])
                < 10 by {
                assert(digit_value(s[i]) < 10);
            }
            lemma_digits_decimal(head);
            assert(digit_value(s[s.len() - 1]) < 10);
            lemma_decimal_digit(s.last());
        }
    }
    if all_decimal(s) {
        assert forall|i: int| 0 <= i < s.len() implies digit_value(#[trigger] s[i]) < 10 by {
            assert('0' <= s[i] <= '9');
            lemma_decimal_digit(s[i]);
        }
    }
}

/// Four numbers of at most 255 in decimal notation, without leading zeros and with dots between
/// them, and nothing else, are an IPv4 address.
pub proof fn lemma_ipv4_text(s: Seq<char>, a: u8, b: u8, c: u8, d: u8)
    ensures
        ipv4_of_text(s) == Some(seq![a, b, c, d]) <==> s == decimal(a as nat) + seq!['.'] + decimal(
            b as nat,
        ) + seq!['.'] + decimal(c as nat) + seq!['.'] + decimal(d as nat),
        ipv4_of_text(s) is Some ==> ipv4_of_text(s)->0.len() == 4,
{
    let parts = seq![
        decimal(a as nat),
        decimal(b as nat),
        decimal(c as nat),
        decimal(d as nat),
    ];
    let dot = seq!['.'];
    let text = decimal(a as nat) + dot + decimal(b as nat) + dot + decimal(c as nat) + dot
        + decimal(d as nat);
    assert(joined(parts, dot) =~= text) by {
        let p3 = parts.drop_last();
        let p2 = p3.drop_last();
        let p1 = p2.drop_last();
        assert(joined(p1, dot) == decimal(a as nat));
        assert(joined(p2, dot) == joined(p1, dot) + dot + decimal(b as nat));
        assert(joined(p3, dot) == joined(p2, dot) + dot + decimal(c as nat));
        assert(joined(parts, dot) == joined(p3, dot) + dot + decimal(d as nat));
    }
    lemma_octet_written(a);
    lemma_octet_written(b);
    lemma_octet_written(c);
    lemma_octet_written(d);
    lemma_join_fields(parts, '.');
    if s == text {
        let f = fields(s, '.');
        assert(f == parts);
        assert(Seq::new(4, |i: int| digits_value(f[i], 10) as u8) =~= seq![a, b, c, d]);
    }
    if ipv4_of_text(s) == Some(seq![a, b, c, d]) {
        let f = fields(s, '.');
        lemma_fields_join(s, '.');
        let o = Seq::new(4, |i: int| digits_value(f[i], 10) as u8);
        assert(o == seq![a, b, c, d]);
        assert(o[0] == a && o[1] == b && o[2] == c && o[3] == d);
        assert forall|i: int| 0 <= i < 4 implies f[i] == decimal(digits_value(f[i], 10)) by {
            assert(is_octet(f[i]));
            lemma_digits_decimal(f[i]);
            lemma_decimal_canonical(f[i]);
        }
        assert forall|i: int| 0 <= i < 4 implies o[i] == digits_value(f[i], 10) by {
            assert(is_octet(f[i]));
        }
        assert(f[0] == parts[0] && f[1] == parts[1] && f[2] == parts[2] && f[3] == parts[3]);
        assert(f =~= parts);
    }
}

/// An octet in decimal notation is read as that octet.
proof fn lemma_octet_written(n: u8)
    ensures
        is_octet(decimal(n as nat)),
        digits_value(decimal(n as nat), 10) == n,
        !decimal(n as nat).contains('.'),
{
    let s = decimal(n as nat);
    lemma_decimal_roundtrip(n as nat);
    lemma_digits_decimal(s);
    if n >= 10 {
        assert(decimal((n / 10) as nat).len() <= 2) by {
            if n >= 100 {
                assert(decimal(((n / 10) / 10) as nat).len() == 1);
            }
        }
    }
    assert forall|i: int| 0 <= i < s.len() implies s[i] != '.' by {
        assert('0' <= s[i] <= '9');
    }
}

/// Whether a field writes a group of an IPv6 address: up to four hexadecimal digits.
pub open spec fn is_group(s: Seq<char>) -> bool {
    1 <= s.len() <= 4 && all_digits(s, 16)
}

/// The values of fields that are all groups.
pub open spec fn group_values(f: Seq<Seq<char>>) -> Seq<u16> {
    Seq::new(f.len(), |i: int| digits_value(f[i], 16) as u16)
}

/// Two groups made of the four octets of an IPv4 address.
pub open spec fn groups_of_octets(o: Seq<u8>) -> Seq<u16> {
    seq![(o[0] * 256 + o[1]) as u16, (o[2] * 256 + o[3]) as u16]
}

/// The groups that a text separates by single colons. Where `ipv4_tail` allows it, the last two
/// may be written as an IPv4 address.
pub open spec fn groups_of_text(s: Seq<char>, ipv4_tail: bool) -> Option<Seq<u16>> {
    if s.len() == 0 {
        Some(Seq::empty())
    } else {
        let f = fields(s, ':');
        let front = f.drop_last();
        if !(forall|i: int| 0 <= i < front.len() ==> is_group(#[trigger] front[i])) {
            None
        } else if is_group(f.last()) {
            Some(group_values(f))
        } else if ipv4_tail && ipv4_of_text(f.last()) is Some {
            Some(group_values(front) + groups_of_octets(ipv4_of_text(f.last())->0))
        } else {
            None
        }
    }
}

/// Where two colons in a row first stand, or the length of the text if nowhere.
pub open spec fn double_colon(s: Seq<char>) -> int
    decreases s.len(),
{
    if s.len() < 2 {
        s.len() as int
    } else if s[0] == ':' && s[1] == ':' {
        0
    } else {
        1 + double_colon(s.skip(1))
    }
}

/// The eight groups of an IPv6 address in text. Two colons in a row stand, once, for one or more
/// groups of zeros.
pub open spec fn ipv6_groups_of_text(s: Seq<char>) -> Option<Seq<u16>> {
    let k = double_colon(s);
    if k < s.len() {
        match (groups_of_text(s.take(k), false), groups_of_text(s.skip(k + 2), true)) {
            (Some(head), Some(tail)) => if head.len() + tail.len() <= 7 {
                Some(head + Seq::new((8 - head.len() - tail.len()) as nat, |i: int| 0u16) + tail)
            } else {
                None
            },
            _ => None,
        }
    } else {
        match groups_of_text(s, true) {
            Some(groups) => if groups.len() == 8 {
                Some(groups)
            } else {
                None
            },
            None => None,
        }
    }
}

/// The octets of eight groups, in network order.
pub open spec fn octets_of_groups(g: Seq<u16>) -> Seq<u8> {
    Seq::new(
        16,
        |i: int|
            if i % 2 == 0 {
                (g[i / 2] / 256) as u8
            } else {
                (g[i / 2] % 256) as u8
            },
    )
}

/// The octets of an IPv6 address in text.
pub open spec fn ipv6_of_text(s: Seq<char>) -> Option<Seq<u8>> {
    match ipv6_groups_of_text(s) {
        Some(g) => Some(octets_of_groups(g)),
        None => None,
    }
}

/// The octets of an address of either family in text.
pub open spec fn ip_of_text(s: Seq<char>) -> Option<Seq<u8>> {
    match ipv4_of_text(s) {
        Some(o) => Some(o),
        None => ipv6_of_text(s),
    }
}

fn parse_group(s: &[char]) -> (r: Option<u16>)
    ensures
        r is Some <==> is_group(s@),
        r matches Some(n) ==> n == digits_value(s@, 16),
{
    match short_number(s, 16) {
        Some(n) => Some(n as u16),
        None => None,
    }
}

fn parse_groups(s: &[char], ipv4_tail: bool) -> (r: Option<Vec<u16>>)
    ensures
        match r {
            Some(g) => groups_of_text(s@, ipv4_tail) == Some(g@),
            None => groups_of_text(s@, ipv4_tail) is None,
        },
{
    let mut groups: Vec<u16> = Vec::new();
    if s.len() == 0 {
        assert(groups@ =~= Seq::<u16>::empty());
        return Some(groups);
    }
    let parts = split_fields(s, ':');
    let ghost f = fields(s@, ':');
    let ghost front = f.drop_last();
    assert(f.len() == parts@.len());
    assert(forall|i: int| 0 <= i < parts@.len() ==> f[i] == parts@[i]@);
    let last: usize = parts.len() - 1;
    let mut i: usize = 0;
    while i < last
        invariant
            i <= last,
            last == parts@.len() - 1,
            f == fields(s@, ':'),
            front == f.drop_last(),
            f.len() == parts@.len(),
            s@.len() > 0,
            forall|j: int| 0 <= j < parts@.len() ==> f[j] == parts@[j]@,
            forall|j: int| 0 <= j < i ==> is_group(#[trigger] front[j]),
            groups@.len() == i,
            forall|j: int| 0 <= j < i ==> groups@[j] == digits_value(f[j], 16) as u16,
        decreases last - i,
    {
        match parse_group(&parts[i]) {
            Some(g) => {
                groups.push(g);
            },
            None => {
                assert(!is_group(front[i as int]));
                return None;
            },
        }
        i = i + 1;
    }
    assert(groups@ =~= group_values(front));
    assert(parts@[last as int]@ == f.last());
    match parse_group(&parts[last]) {
        Some(g) => {
            groups.push(g);
            assert(groups@ =~= group_values(f));
            return Some(groups);
        },
        None => {},
    }
    if !ipv4_tail {
        return None;
    }
    match parse_ipv4(&parts[last]) {
        Some(a) => {
            let ghost before = groups@;
            groups.push(a.octets[0] as u16 * 256 + a.octets[1] as u16);
            groups.push(a.octets[2] as u16 * 256 + a.octets[3] as u16);
            assert(groups@ =~= before + groups_of_octets(a@));
            Some(groups)
        },
        None => None,
    }
}

/// `double_colon` is the first place at which two colons stand in a row.
pub proof fn lemma_double_colon(s: Seq<char>, k: int)
    requires
        0 <= k <= s.len(),
        forall|j: int| 0 <= j < k && j + 1 < s.len() ==> !(#[trigger] s[j] == ':' && s[j + 1] == ':'),
        k < s.len() ==> k + 1 < s.len() && s[k] == ':' && s[k + 1] == ':',
    ensures
        double_colon(s) == k,
    decreases s.len(),
{
    if s.len() >= 2 {
        if k == 0 {
        } else {
            assert(!(s[0] == ':' && s[0int + 1] == ':'));
            let t = s.skip(1);
            assert forall|j: int| 0 <= j < k - 1 && j + 1 < t.len() implies !(#[trigger] t[j] == ':'
                && t[j + 1] == ':') by {
                assert(!(s[j + 1] == ':' && s[j + 2] == ':'));
            }
            lemma_double_colon(t, k - 1);
        }
    }
}

/// Whether every text is made of hexadecimal digits.
pub open spec fn hex_groups(f: Seq<Seq<char>>) -> bool {
    forall|i: int, j: int|
        0 <= i < f.len() && 0 <= j < f[i].len() ==> digit_value(#[trigger] f[i][j]) < 16
}

/// Texts that are not empty and hold no colon have no two colons in a row between them.
proof fn lemma_single_colons(f: Seq<Seq<char>>)
    requires
        forall|i: int| 0 <= i < f.len() ==> (#[trigger] f[i]).len() >= 1 && !f[i].contains(':'),
    ensures
        ({
            let s = joined(f, seq![':']);
            &&& f.len() > 0 ==> s.len() > 0
            &&& s.len() > 0 ==> s[0] != ':' && s.last() != ':'
            &&& forall|j: int|
                0 <= j && j + 1 < s.len() ==> !(#[trigger] s[j] == ':' && s[j + 1] == ':')
        }),
    decreases f.len(),
{
    let s = joined(f, seq![':']);
    if f.len() > 0 {
        let last = f[f.len() - 1];
        assert(last.len() >= 1 && !last.contains(':'));
        assert(last.contains(last[0]) && last.contains(last.last()));
        if f.len() == 1 {
            assert forall|j: int| 0 <= j < s.len() implies #[trigger] s[j] != ':' by {
                assert(last.contains(last[j]));
            }
        } else {
            let less = f.drop_last();
            assert forall|i: int| 0 <= i < less.len() implies (#[trigger] less[i]).len() >= 1
                && !less[i].contains(':') by {
                assert(less[i] == f[i]);
            }
            lemma_single_colons(less);
            let head = joined(less, seq![':']);
            assert(s == head + seq![':'] + last);
            assert(s[0] == head[0]);
            assert(s.last() == last.last());
            assert forall|j: int| 0 <= j && j + 1 < s.len() implies !(#[trigger] s[j] == ':' && s[j
                + 1] == ':') by {
                if j + 1 < head.len() {
                    assert(s[j] == head[j] && s[j + 1] == head[j + 1]);
                } else if j + 1 == head.len() {
                    assert(s[j] == head.last());
                } else {
                    let i = j - head.len();
                    assert(s[j + 1] == last[i]);
                    assert(last.contains(last[i]));
                }
            }
        }
    }
}

/// A text of hexadecimal digits holds no colon.
proof fn lemma_hex_no_colon(t: Seq<char>)
    requires
        forall|j: int| 0 <= j < t.len() ==> digit_value(#[trigger] t[j]) < 16,
    ensures
        !t.contains(':'),
        all_digits(t, 16),
{
    assert forall|j: int| 0 <= j < t.len() implies t[j] != ':' by {
        assert(digit_value(t[j]) < 16);
    }
}

/// What groups with colons between them are read as, and where an IPv4 address may stand last.
proof fn lemma_groups(f: Seq<Seq<char>>, ipv4_tail: bool)
    requires
        hex_groups(f),
        forall|i: int| 0 <= i < f.len() ==> 1 <= (#[trigger] f[i]).len() <= 4,
    ensures
        groups_of_text(joined(f, seq![':']), ipv4_tail) == Some(group_values(f)),
        forall|i: int| 0 <= i < f.len() ==> !(#[trigger] f[i]).contains(':') && is_group(f[i]),
{
    let s = joined(f, seq![':']);
    assert forall|i: int| 0 <= i < f.len() implies !(#[trigger] f[i]).contains(':') && is_group(
        f[i],
    ) by {
        assert forall|j: int| 0 <= j < f[i].len() implies digit_value(#[trigger] f[i][j]) < 16 by {}
        lemma_hex_no_colon(f[i]);
    }
    if f.len() == 0 {
        assert(group_values(f) =~= Seq::<u16>::empty());
    } else {
        lemma_single_colons(f);
        lemma_join_fields(f, ':');
        assert(is_group(f[f.len() - 1]));
        let front = f.drop_last();
        assert forall|i: int| 0 <= i < front.len() implies is_group(#[trigger] front[i]) by {
            assert(front[i] == f[i]);
        }
    }
}

/// Eight groups of one to four hexadecimal digits, with colons between them, are an IPv6 address:
/// each group is the number that two octets write, the greater one first. Fewer or more groups are
/// none.
pub proof fn lemma_ipv6_text(f: Seq<Seq<char>>)
    requires
        f.len() >= 1,
        hex_groups(f),
        forall|i: int| 0 <= i < f.len() ==> 1 <= (#[trigger] f[i]).len() <= 4,
    ensures
        ({
            let o = ipv6_of_text(joined(f, seq![':']))->0;
            &&& ipv6_of_text(joined(f, seq![':'])) is Some <==> f.len() == 8
            &&& f.len() == 8 ==> o.len() == 16
            &&& forall|i: int|
                0 <= i < 8 && f.len() == 8 ==> o[2 * i] * 256 + o[2 * i + 1] == digits_value(#[trigger] f[i], 16)
        }),
{
    let s = joined(f, seq![':']);
    lemma_groups(f, true);
    lemma_single_colons(f);
    lemma_double_colon(s, s.len() as int);
    let g = group_values(f);
    let o = octets_of_groups(g);
    assert forall|i: int| 0 <= i < 8 && f.len() == 8 implies o[2 * i] * 256 + o[2 * i + 1]
        == digits_value(#[trigger] f[i], 16) by {
        lemma_group_bound(f[i]);
        lemma_octets_of_groups(g, i);
    }
}

/// Four hexadecimal digits write less than two octets hold.
proof fn lemma_group_bound(t: Seq<char>)
    requires
        t.len() <= 4,
        all_digits(t, 16),
    ensures
        digits_value(t, 16) < 65536,
        t.len() <= 3 ==> digits_value(t, 16) < 4096,
        t.len() <= 2 ==> digits_value(t, 16) < 256,
        t.len() <= 1 ==> digits_value(t, 16) < 16,
        t.len() == 0 ==> digits_value(t, 16) < 1,
    decreases t.len(),
{
    if t.len() > 0 {
        let head = t.drop_last();
        assert forall|j: int| 0 <= j < head.len() implies digit_value(#[trigger] head[j]) < 16 by {
            assert(digit_value(t[j]) < 16);
        }
        lemma_group_bound(head);
        assert(digit_value(t[t.len() - 1]) < 16);
    }
}

/// The octets of a group.
proof fn lemma_octets_of_groups(g: Seq<u16>, i: int)
    requires
        0 <= i < 8,
    ensures
        octets_of_groups(g)[2 * i] * 256 + octets_of_groups(g)[2 * i + 1] == g[i],
{
    assert((2 * i) / 2 == i && (2 * i) % 2 == 0);
    assert((2 * i + 1) / 2 == i && (2 * i + 1) % 2 == 1);
}

/// Two colons in a row stand for as many groups of zeros as are missing, which is at least one.
pub proof fn lemma_ipv6_compressed(f: Seq<Seq<char>>, g: Seq<Seq<char>>)
    requires
        hex_groups(f),
        hex_groups(g),
        forall|i: int| 0 <= i < f.len() ==> 1 <= (#[trigger] f[i]).len() <= 4,
        forall|i: int| 0 <= i < g.len() ==> 1 <= (#[trigger] g[i]).len() <= 4,
    ensures
        ({
            let s = joined(f, seq![':']) + seq![':', ':'] + joined(g, seq![':']);
            let o = ipv6_of_text(s)->0;
            let fits = f.len() + g.len() <= 7;
            &&& ipv6_of_text(s) is Some <==> fits
            &&& fits ==> o.len() == 16
            &&& forall|i: int|
                0 <= i < f.len() && fits ==> o[2 * i] * 256 + o[2 * i + 1] == digits_value(
                    #[trigger] f[i],
                    16,
                )
            &&& forall|i: int| 2 * f.len() <= i < 16 - 2 * g.len() && fits ==> #[trigger] o[i] == 0
            &&& forall|i: int|
                0 <= i < g.len() && fits ==> o[16 - 2 * g.len() + 2 * i] * 256 + o[17 - 2 * g.len() + 2 * i]
                    == digits_value(#[trigger] g[i], 16)
        }),
{
    let head = joined(f, seq![':']);
    let tail = joined(g, seq![':']);
    let s = head + seq![':', ':'] + tail;
    let k = head.len() as int;
    lemma_groups(f, false);
    lemma_groups(g, true);
    lemma_single_colons(f);
    assert forall|j: int| 0 <= j < k && j + 1 < s.len() implies !(#[trigger] s[j] == ':' && s[j + 1]
        == ':') by {
        assert(s[j] == head[j]);
        if j + 1 < k {
            assert(s[j + 1] == head[j + 1]);
        }
    }
    lemma_double_colon(s, k);
    assert(s.take(k) =~= head);
    assert(s.skip(k + 2) =~= tail);
    let fits = f.len() + g.len() <= 7;
    let zeros = Seq::new((8 - f.len() - g.len()) as nat, |i: int| 0u16);
    let all = group_values(f) + zeros + group_values(g);
    let o = octets_of_groups(all);
    assert forall|i: int| 0 <= i < f.len() && fits implies o[2 * i] * 256 + o[2 * i + 1]
        == digits_value(#[trigger] f[i], 16) by {
        lemma_group_bound(f[i]);
        lemma_octets_of_groups(all, i);
        assert(all[i] == group_values(f)[i]);
    }
    assert forall|i: int| 2 * f.len() <= i < 16 - 2 * g.len() && fits implies #[trigger] o[i]
        == 0 by {
        assert(all[i / 2] == zeros[i / 2 - f.len()]);
    }
    assert forall|i: int| 0 <= i < g.len() && fits implies o[16 - 2 * g.len() + 2 * i] * 256 + o[17 - 2
        * g.len() + 2 * i] == digits_value(#[trigger] g[i], 16) by {
        lemma_group_bound(g[i]);
        lemma_octets_of_groups(all, 8 - g.len() + i);
        assert(all[8 - g.len() + i] == group_values(g)[i]);
        assert(2 * (8 - g.len() + i) == 16 - 2 * g.len() + 2 * i);
    }
}

/// What groups before an IPv4 address are read as.
proof fn lemma_groups_before_ipv4(f: Seq<Seq<char>>, ip: Seq<char>)
    requires
        ipv4_of_text(ip) is Some,
        hex_groups(f),
        f.len() >= 1,
        forall|i: int| 0 <= i < f.len() ==> 1 <= (#[trigger] f[i]).len() <= 4,
    ensures
        ({
            let body = joined(f, seq![':']) + seq![':'] + ip;
            &&& groups_of_text(body, true) == Some(
                group_values(f) + groups_of_octets(ipv4_of_text(ip)->0),
            )
            &&& double_colon(body) == body.len()
            &&& ipv4_of_text(ip)->0.len() == 4
        }),
{
    let parts = f.push(ip);
    let body = joined(parts, seq![':']);
    assert(parts.drop_last() =~= f);
    assert(body == joined(f, seq![':']) + seq![':'] + ip);
    lemma_groups(f, true);
    lemma_ipv4_alone(ip);
    assert forall|i: int| 0 <= i < parts.len() implies (#[trigger] parts[i]).len() >= 1
        && !parts[i].contains(':') by {
        if i < f.len() {
            assert(parts[i] == f[i]);
        }
    }
    lemma_single_colons(parts);
    lemma_join_fields(parts, ':');
    lemma_double_colon(body, body.len() as int);
}

/// The last four octets of eight groups, where two groups are made of them.
proof fn lemma_last_octets(g: Seq<u16>, octets: Seq<u8>)
    requires
        octets.len() == 4,
        g[6] == groups_of_octets(octets)[0],
        g[7] == groups_of_octets(octets)[1],
    ensures
        octets_of_groups(g).skip(12) == octets,
{
    let o = octets_of_groups(g);
    lemma_octets_of_groups(g, 6);
    lemma_octets_of_groups(g, 7);
    assert(o[12] == octets[0] && o[13] == octets[1] && o[14] == octets[2] && o[15] == octets[3]);
    assert(o.skip(12) =~= octets);
}

/// The last two groups of eight may be written as an IPv4 address.
pub proof fn lemma_ipv6_ipv4_tail(f: Seq<Seq<char>>, ip: Seq<char>)
    requires
        ipv4_of_text(ip) is Some,
        hex_groups(f),
        f.len() >= 1,
        forall|i: int| 0 <= i < f.len() ==> 1 <= (#[trigger] f[i]).len() <= 4,
    ensures
        ({
            let plain = ipv6_of_text(joined(f, seq![':']) + seq![':'] + ip);
            &&& plain is Some <==> f.len() == 6
            &&& f.len() == 6 ==> plain->0.len() == 16 && plain->0.skip(12) == ipv4_of_text(ip)->0
            &&& forall|i: int|
                0 <= i < f.len() && f.len() == 6 ==> plain->0[2 * i] * 256 + plain->0[2 * i + 1]
                    == digits_value(#[trigger] f[i], 16)
        }),
{
    let octets = ipv4_of_text(ip)->0;
    lemma_groups_before_ipv4(f, ip);
    let g = group_values(f) + groups_of_octets(octets);
    let o = octets_of_groups(g);
    if f.len() == 6 {
        lemma_groups(f, true);
        assert forall|i: int| 0 <= i < f.len() implies o[2 * i] * 256 + o[2 * i + 1]
            == digits_value(#[trigger] f[i], 16) by {
            lemma_group_bound(f[i]);
            lemma_octets_of_groups(g, i);
            assert(g[i] == group_values(f)[i]);
        }
        assert(g[6] == groups_of_octets(octets)[0] && g[7] == groups_of_octets(octets)[1]);
        lemma_last_octets(g, octets);
    }
}

/// An IPv4 address may also end what follows two colons in a row.
pub proof fn lemma_ipv6_compressed_ipv4_tail(f: Seq<Seq<char>>, ip: Seq<char>)
    requires
        ipv4_of_text(ip) is Some,
        hex_groups(f),
        f.len() >= 1,
        forall|i: int| 0 <= i < f.len() ==> 1 <= (#[trigger] f[i]).len() <= 4,
    ensures
        ({
            let tail = ipv6_of_text(seq![':', ':'] + (joined(f, seq![':']) + seq![':'] + ip));
            &&& tail is Some <==> f.len() <= 5
            &&& f.len() <= 5 ==> tail->0.len() == 16 && tail->0.skip(12) == ipv4_of_text(ip)->0
            &&& forall|i: int|
                0 <= i < 12 - 2 * f.len() && f.len() <= 5 ==> #[trigger] tail->0[i] == 0
        }),
{
    let octets = ipv4_of_text(ip)->0;
    let body = joined(f, seq![':']) + seq![':'] + ip;
    lemma_groups_before_ipv4(f, ip);
    let g = group_values(f) + groups_of_octets(octets);
    let all = seq![':', ':'] + body;
    lemma_double_colon(all, 0);
    assert(all.take(0) =~= Seq::<char>::empty());
    assert(all.skip(2) =~= body);
    assert(groups_of_text(all.take(0), false) == Some(Seq::<u16>::empty()));
    if f.len() <= 5 {
        let none = Seq::<u16>::empty();
        let zeros = Seq::new((8 - none.len() - g.len()) as nat, |i: int| 0u16);
        let h = none + zeros + g;
        let o = octets_of_groups(h);
        assert(ipv6_of_text(all) == Some(o));
        assert(h[6] == groups_of_octets(octets)[0] && h[7] == groups_of_octets(octets)[1]);
        lemma_last_octets(h, octets);
        assert forall|i: int| 0 <= i < 12 - 2 * f.len() implies #[trigger] o[i] == 0 by {
            assert(h[i / 2] == zeros[i / 2]);
        }
    }
}

/// An IPv4 address in text is no group and holds no colon.
proof fn lemma_ipv4_alone(ip: Seq<char>)
    requires
        ipv4_of_text(ip) is Some,
    ensures
        ip.len() >= 1,
        !ip.contains(':'),
        !is_group(ip),
        ipv4_of_text(ip)->0.len() == 4,
{
    let o = ipv4_of_text(ip)->0;
    lemma_ipv4_text(ip, o[0], o[1], o[2], o[3]);
    assert(o =~= seq![o[0], o[1], o[2], o[3]]);
    let a = decimal(o[0] as nat);
    let b = decimal(o[1] as nat);
    let c = decimal(o[2] as nat);
    let d = decimal(o[3] as nat);
    lemma_decimal_roundtrip(o[0] as nat);
    lemma_decimal_roundtrip(o[1] as nat);
    lemma_decimal_roundtrip(o[2] as nat);
    lemma_decimal_roundtrip(o[3] as nat);
    let dot = seq!['.'];
    assert(ip == a + dot + b + dot + c + dot + d);
    assert(ip[a.len() as int] == '.');
    assert(digit_value(ip[a.len() as int]) == 16);
    assert forall|j: int| 0 <= j < ip.len() implies ip[j] != ':' by {
        let n1 = a.len() as int;
        let n2 = n1 + 1 + b.len();
        let n3 = n2 + 1 + c.len();
        if j < n1 {
            assert('0' <= a[j] <= '9');
        } else if j == n1 || j == n2 || j == n3 {
        } else if j < n2 {
            assert('0' <= b[j - n1 - 1] <= '9');
        } else if j < n3 {
            assert('0' <= c[j - n2 - 1] <= '9');
        } else {
            assert('0' <= d[j - n3 - 1] <= '9');
        }
    }
}

fn find_double_colon(s: &[char]) -> (r: Option<usize>)
    ensures
        match r {
            Some(k) => k == double_colon(s@) && k + 2 <= s@.len(),
            None => double_colon(s@) == s@.len(),
        },
{
    let mut i: usize = 0;
    while i < s.len() && i + 1 < s.len()
        invariant
            i <= s.len(),
            forall|j: int|
                0 <= j < i && j + 1 < s@.len() ==> !(#[trigger] s@[j] == ':' && s@[j + 1] == ':'),
        decreases s.len() - i,
    {
        if s[i] == ':' && s[i + 1] == ':' {
            proof {
                lemma_double_colon(s@, i as int);
            }
            return Some(i);
        }
        i = i + 1;
    }
    proof {
        lemma_double_colon(s@, s@.len() as int);
    }
    None
}

fn parse_ipv6_groups(s: &[char]) -> (r: Option<Vec<u16>>)
    ensures
        match r {
            Some(g) => ipv6_groups_of_text(s@) == Some(g@) && g@.len() == 8,
            None => ipv6_groups_of_text(s@) is None,
        },
{
    let n: usize = s.len();
    match find_double_colon(s) {
        Some(k) => {
            assert(s@.subrange(0, k as int) == s@.take(k as int));
            assert(s@.subrange(k + 2, s@.len() as int) == s@.skip(k + 2));
            let head = parse_groups(&s[0..k], false);
            let tail = parse_groups(&s[k + 2..n], true);
            match (head, tail) {
                (Some(mut head), Some(tail)) => {
                    if head.len() > 7 || tail.len() > 7 || head.len() + tail.len() > 7 {
                        return None;
                    }
                    let ghost h = head@;
                    let mut zeros: usize = 8 - head.len() - tail.len();
                    let ghost total = zeros as int;
                    while zeros > 0
                        invariant
                            zeros <= total,
                            head@ == h + Seq::new((total - zeros) as nat, |i: int| 0u16),
                        decreases zeros,
                    {
                        head.push(0);
                        zeros = zeros - 1;
                        assert(head@ =~= h + Seq::new((total - zeros) as nat, |i: int| 0u16));
                    }
                    head.extend_from_slice(tail.as_slice());
                    assert(head@ =~= h + Seq::new(total as nat, |i: int| 0u16) + tail@);
                    Some(head)
                },
                _ => None,
            }
        },
        None => {
            match parse_groups(s, true) {
                Some(g) => if g.len() == 8 {
                    Some(g)
                } else {
                    None
                },
                None => None,
            }
        },
    }
}

/// Reads an IPv6 address in text.
pub fn parse_ipv6(s: &[char]) -> (r: Option<Ipv6Addr>)
    ensures
        match r {
            Some(a) => ipv6_of_text(s@) == Some(a@),
            None => ipv6_of_text(s@) is None,
        },
{
    match parse_ipv6_groups(s) {
        Some(g) => {
            let mut octets: [u8; 16] = [0;16];
            let mut i: usize = 0;
            while i < 8
                invariant
                    i <= 8,
                    g@.len() == 8,
                    forall|j: int| 0 <= j < 2 * i ==> octets@[j] == octets_of_groups(g@)[j],
                decreases 8 - i,
            {
                octets[2 * i] = (g[i] / 256) as u8;
                octets[2 * i + 1] = (g[i] % 256) as u8;
                assert((2 * i) / 2 == i && (2 * i) % 2 == 0);
                assert((2 * i + 1) / 2 == i && (2 * i + 1) % 2 == 1);
                i = i + 1;
            }
            let r = Ipv6Addr { octets };
            assert(r@ =~= octets_of_groups(g@));
            Some(r)
        },
        None => None,
    }
}

/// Reads an address of either family in text.
pub fn parse_ip(s: &[char]) -> (r: Option<IpAddr>)
    ensures
        match r {
            Some(a) => ip_of_text(s@) == Some(a@) && (a is V4 <==> ipv4_of_text(s@) is Some),
            None => ip_of_text(s@) is None,
        },
{
    match parse_ipv4(s) {
        Some(a) => Some(IpAddr::V4(a)),
        None => match parse_ipv6(s) {
            Some(a) => Some(IpAddr::V6(a)),
            None => None,
        },
    }
}

} // verus!
