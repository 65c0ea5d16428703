//! Proxy settings of Windows.

use vstd::prelude::*;

use super::builder::Builder;
use crate::text::chars_of;
use crate::text::decimal;
use crate::text::fields;
use crate::text::find_char;
use crate::text::first_index;
use crate::text::join;
use crate::text::joined;
use crate::text::lemma_decimal_roundtrip;
use crate::text::lemma_fields_join;
use crate::text::lemma_first_index;
use crate::text::lemma_first_index_bound;
use crate::text::lemma_join_fields;
use crate::text::lemma_signed_roundtrip;
use crate::text::number_of_text;
use crate::text::parse_number;
use crate::text::push_decimal;
use crate::text::push_signed;
use crate::text::same_chars;
use crate::text::same_text;
use crate::text::signed_decimal;
use crate::text::split_fields;
use crate::text::string_of;
use crate::text::texts;
use crate::text::trim;
use crate::text::trimmed;
use crate::text::views;
use crate::text::CharClass;
use crate::uri::text_view;
use crate::uri::uri_of_parts;
use crate::uri::Uri;

verus! {

/// The proxies that a server setting names, by what they are for.
#[derive(Debug)]
pub struct WinProxyParser {
    pub http: Option<String>,
    pub https: Option<String>,
    pub all: Option<String>,
}

/// What a server setting says.
#[verifier::ext_equal]
pub struct WinProxyView {
    pub http: Option<Seq<char>>,
    pub https: Option<Seq<char>>,
    pub all: Option<Seq<char>>,
}

impl View for WinProxyParser {
    type V = WinProxyView;

    open spec fn view(&self) -> WinProxyView {
        WinProxyView {
            http: text_view(self.http),
            https: text_view(self.https),
            all: text_view(self.all),
        }
    }
}

/// The text of a URI with a scheme, an authority and the path `/`, if there is such a URI.
pub open spec fn root_text(scheme: Seq<char>, authority: Seq<char>) -> Option<Seq<char>> {
    match uri_of_parts(scheme, authority, "/"@) {
        Some(_) => Some(scheme + "://"@ + authority + "/"@),
        None => None,
    }
}

impl WinProxyView {
    /// The setting after one more entry. An entry `scheme=authority` is for its scheme, with
    /// `socks` for all schemes; an entry without a scheme is for all schemes as it stands; an
    /// empty entry and other schemes say nothing. A later entry takes the place of an earlier one.
    pub open spec fn with_entry(self, entry: Seq<char>) -> WinProxyView {
        let proxy = trimmed(entry, CharClass::Whitespace);
        let at = first_index(proxy, '=');
        let schema = proxy.take(at);
        let authority = proxy.skip(at + 1);
        if proxy.len() == 0 {
            self
        } else if at >= proxy.len() {
            WinProxyView { all: Some(proxy), ..self }
        } else if schema == "http"@ {
            WinProxyView { http: root_text("http"@, authority), ..self }
        } else if schema == "https"@ {
            WinProxyView { https: root_text("https"@, authority), ..self }
        } else if schema == "socks"@ {
            WinProxyView { all: root_text("socks"@, authority), ..self }
        } else {
            self
        }
    }

    /// The setting that some entries make, one after the other.
    pub open spec fn of_entries(entries: Seq<Seq<char>>) -> WinProxyView
        decreases entries.len(),
    {
        if entries.len() == 0 {
            WinProxyView { http: None, https: None, all: None }
        } else {
            WinProxyView::of_entries(entries.drop_last()).with_entry(entries.last())
        }
    }
}

fn build_text(scheme: &str, authority: &[char]) -> (r: Option<String>)
    ensures
        text_view(r) == root_text(scheme@, authority@),
{
    let authority = string_of(authority);
    match Uri::root(scheme, authority.as_str()) {
        Some(uri) => {
            proof {
                reveal_strlit("/");
                assert("/"@[0] == '/');
            }
            let text = uri.to_text();
            assert(text@ =~= scheme@ + "://"@ + authority@ + "/"@);
            Some(text)
        },
        None => None,
    }
}

impl WinProxyParser {
    /// Adds an entry of a server setting.
    fn add_entry(&mut self, entry: &[char])
        ensures
            final(self)@ == old(self)@.with_entry(entry@),
    {
        let proxy = trim(entry, CharClass::Whitespace);
        if proxy.len() == 0 {
            return;
        }
        let at: usize = match find_char(proxy, '=') {
            Some(at) => at,
            None => {
                self.all = Some(string_of(proxy));
                return;
            },
        };
        let schema: &[char] = &proxy[0..at];
        let authority: &[char] = &proxy[at + 1..proxy.len()];
        assert(schema@ =~= proxy@.take(at as int));
        assert(authority@ =~= proxy@.skip(at + 1));
        let scheme = string_of(schema);
        if same_text(scheme.as_str(), "http") {
            self.http = build_text("http", authority);
        } else if same_text(scheme.as_str(), "https") {
            self.https = build_text("https", authority);
        } else if same_text(scheme.as_str(), "socks") {
            self.all = build_text("socks", authority);
        }
    }

    /// Reads a server setting: entries separated by semicolons.
    pub fn parse(proxy_server_setting: &str) -> (r: Self)
        ensures
            r@ == WinProxyView::of_entries(fields(proxy_server_setting@, ';')),
    {
        let chars = chars_of(proxy_server_setting);
        let parts = split_fields(chars.as_slice(), ';');
        let ghost entries = views(parts@);
        let mut r = WinProxyParser { http: None, https: None, all: None };
        let mut i: usize = 0;
        assert(r@ =~= WinProxyView::of_entries(entries.take(0)));
        while i < parts.len()
            invariant
                i <= parts@.len(),
                entries == views(parts@),
                r@ == WinProxyView::of_entries(entries.take(i as int)),
            decreases parts@.len() - i,
        {
            let ghost more = entries.take(i + 1);
            assert(more.drop_last() == entries.take(i as int));
            assert(more.last() == parts@[i as int]@);
            r.add_entry(parts[i].as_slice());
            i = i + 1;
        }
        assert(entries.take(entries.len() as int) == entries);
        r
    }
}

/// Where the first wildcard stands among the parts of an address, or their number.
pub open spec fn first_wildcard(parts: Seq<Seq<char>>) -> int
    decreases parts.len(),
{
    if parts.len() == 0 {
        0
    } else if parts[0] == "*"@ {
        0
    } else {
        1 + first_wildcard(parts.skip(1))
    }
}

proof fn lemma_first_wildcard(parts: Seq<Seq<char>>, k: int)
    requires
        0 <= k <= parts.len(),
        forall|j: int| 0 <= j < k ==> parts[j] != "*"@,
        k < parts.len() ==> parts[k] == "*"@,
    ensures
        first_wildcard(parts) == k,
    decreases parts.len(),
{
    if parts.len() > 0 && parts[0] != "*"@ {
        assert forall|j: int| 0 <= j < k - 1 implies parts.skip(1)[j] != "*"@ by {
            assert(parts[j + 1] != "*"@);
        }
        lemma_first_wildcard(parts.skip(1), k - 1);
    }
}

/// The number that a part writes, or zero where a wildcard stands.
pub open spec fn part_text(parts: Seq<Seq<char>>, wildcard: int, i: int) -> Seq<char> {
    if i < wildcard {
        signed_decimal(number_of_text(parts[i])->0)
    } else {
        "0"@
    }
}

/// An address whose last parts are wildcards, in the notation of networks: one to three numbers
/// stand before the wildcards, and everything behind the first wildcard is one.
pub open spec fn cidr_of(value: Seq<char>) -> Option<Seq<char>> {
    let parts = fields(value, '.');
    let w = first_wildcard(parts);
    if w >= parts.len() || w == 0 || w > 3 {
        None
    } else if !(forall|j: int| w <= j < parts.len() ==> #[trigger] parts[j] == "*"@) {
        None
    } else if !(forall|j: int| 0 <= j < w ==> number_of_text(#[trigger] parts[j]) is Some) {
        None
    } else {
        Some(
            part_text(parts, w, 0) + "."@ + part_text(parts, w, 1) + "."@ + part_text(parts, w, 2)
                + "."@ + part_text(parts, w, 3) + "/"@ + decimal((8 * w) as nat),
        )
    }
}

/// Writes an address whose last parts are wildcards in the notation of networks.
pub fn ipv4_wildcard_to_cidr(value: &str) -> (r: Option<String>)
    ensures
        text_view(r) == cidr_of(value@),
{
    let chars = chars_of(value);
    let parts = split_fields(chars.as_slice(), '.');
    let ghost f = fields(value@, '.');
    assert(forall|j: int| 0 <= j < parts@.len() ==> views(parts@)[j] == parts@[j]@);
    let star = chars_of("*");
    let mut w: usize = 0;
    while w < parts.len() && !same_chars(parts[w].as_slice(), star.as_slice())
        invariant
            w <= parts@.len(),
            star@ == "*"@,
            f == views(parts@),
            forall|j: int| 0 <= j < w ==> f[j] != "*"@,
        decreases parts@.len() - w,
    {
        w = w + 1;
    }
    proof {
        lemma_first_wildcard(f, w as int);
    }
    if w == parts.len() || w == 0 || w > 3 {
        return None;
    }
    let mut k: usize = w;
    while k < parts.len()
        invariant
            w <= k <= parts@.len(),
            0 < w <= 3,
            w < parts@.len(),
            star@ == "*"@,
            f == views(parts@),
            f == fields(value@, '.'),
            first_wildcard(f) == w,
            forall|j: int| w <= j < k ==> #[trigger] f[j] == "*"@,
        decreases parts@.len() - k,
    {
        if !same_chars(parts[k].as_slice(), star.as_slice()) {
            assert(f[k as int] != "*"@);
            return None;
        }
        k = k + 1;
    }
    let mut octets: [i32; 4] = [0;4];
    let mut i: usize = 0;
    while i < w
        invariant
            i <= w,
            0 < w <= 3,
            w < parts@.len(),
            f == views(parts@),
            f == fields(value@, '.'),
            first_wildcard(f) == w,
            forall|j: int| 0 <= j < i ==> number_of_text(#[trigger] f[j]) == Some(octets@[j] as int),
            forall|j: int| i <= j < 4 ==> octets@[j] == 0,
        decreases w - i,
    {
        match parse_number(parts[i].as_slice()) {
            Some(n) => {
                octets[i] = n;
            },
            None => {
                assert(number_of_text(f[i as int]) is None);
                return None;
            },
        }
        i = i + 1;
    }
    let mut out = String::new();
    push_signed(&mut out, octets[0]);
    out.append(".");
    push_signed(&mut out, octets[1]);
    out.append(".");
    push_signed(&mut out, octets[2]);
    out.append(".");
    push_signed(&mut out, octets[3]);
    out.append("/");
    push_decimal(&mut out, 8 * w as u32);
    proof {
        reveal_strlit("0");
        assert(signed_decimal(0) =~= "0"@);
        assert(number_of_text(f[0]) is Some);
        assert forall|j: int| 0 <= j < 4 implies #[trigger] signed_decimal(octets@[j] as int)
            == part_text(f, w as int, j) by {
            if j < w {
                assert(number_of_text(f[j]) == Some(octets@[j] as int));
            }
        }
        assert(out@ =~= part_text(f, w as int, 0) + "."@ + part_text(f, w as int, 1) + "."@
            + part_text(f, w as int, 2) + "."@ + part_text(f, w as int, 3) + "/"@ + decimal(
            (8 * w) as nat,
        ));
    }
    Some(out)
}

/// A text without the places where a star and a dot follow each other.
pub open spec fn without_star_dot(s: Seq<char>) -> Seq<char>
    decreases s.len(),
{
    if s.len() >= 2 && s[0] == '*' && s[1] == '.' {
        without_star_dot(s.skip(2))
    } else if s.len() > 0 {
        seq![s[0]] + without_star_dot(s.skip(1))
    } else {
        s
    }
}

/// An entry of an override setting as an entry of a list of hosts that bypass a proxy.
pub open spec fn override_entry(entry: Seq<char>) -> Seq<char> {
    let bare = trimmed(entry, CharClass::Whitespace);
    match cidr_of(bare) {
        Some(cidr) => cidr,
        None => bare,
    }
}

/// An override setting as a list of hosts that bypass a proxy.
pub open spec fn normalized(value: Seq<char>) -> Seq<char> {
    without_star_dot(
        joined(fields(value, ';').map_values(|entry: Seq<char>| override_entry(entry)), ","@),
    )
}

fn remove_star_dot(s: &[char]) -> (r: String)
    ensures
        r@ == without_star_dot(s@),
{
    let mut out = String::new();
    let mut i: usize = 0;
    assert(s@.skip(0) == s@);
    while i < s.len()
        invariant
            i <= s@.len(),
            out@ + without_star_dot(s@.skip(i as int)) == without_star_dot(s@),
        decreases s@.len() - i,
    {
        let ghost rest = s@.skip(i as int);
        if s[i] == '*' && s.len() - i >= 2 && s[i + 1] == '.' {
            assert(rest.skip(2) == s@.skip(i + 2));
            i = i + 2;
        } else {
            let ghost before = out@;
            out.push(s[i]);
            assert(rest.skip(1) == s@.skip(i + 1));
            assert(out@ + without_star_dot(s@.skip(i + 1)) =~= before + (seq![rest[0]]
                + without_star_dot(rest.skip(1))));
            i = i + 1;
        }
    }
    assert(s@.skip(s@.len() as int) =~= Seq::<char>::empty());
    assert(out@ + Seq::<char>::empty() =~= out@);
    out
}

/// Writes an override setting, whose entries are separated by semicolons, as a list of hosts that
/// bypass a proxy.
pub fn normalize_proxy_override(value: &str) -> (r: String)
    ensures
        r@ == normalized(value@),
{
    let chars = chars_of(value);
    let parts = split_fields(chars.as_slice(), ';');
    let ghost entries = fields(value@, ';').map_values(|entry: Seq<char>| override_entry(entry));
    let mut done: Vec<String> = Vec::new();
    let mut i: usize = 0;
    while i < parts.len()
        invariant
            i <= parts@.len(),
            views(parts@) == fields(value@, ';'),
            entries == fields(value@, ';').map_values(|entry: Seq<char>| override_entry(entry)),
            done@.len() == i,
            forall|j: int| 0 <= j < i ==> #[trigger] done@[j]@ == entries[j],
        decreases parts@.len() - i,
    {
        let entry = string_of(trim(parts[i].as_slice(), CharClass::Whitespace));
        assert(views(parts@)[i as int] == parts@[i as int]@);
        let text = match ipv4_wildcard_to_cidr(entry.as_str()) {
            Some(cidr) => cidr,
            None => entry,
        };
        assert(text@ == entries[i as int]);
        done.push(text);
        i = i + 1;
    }
    assert(texts(done@) =~= entries);
    let list = join(done.as_slice(), ",");
    remove_star_dot(chars_of(list.as_str()).as_slice())
}

/// The values of the system's internet settings, where it has them.
#[derive(Debug)]
pub struct SystemSettings {
    pub proxy_enable: Option<u32>,
    pub proxy_server: Option<String>,
    pub proxy_override: Option<String>,
}

/// A text, or the given value in place of an empty one.
pub open spec fn filled(text: Seq<char>, value: Option<Seq<char>>) -> Seq<char> {
    match value {
        Some(v) if text.len() == 0 => v,
        _ => text,
    }
}

impl SystemSettings {
    /// Whether a proxy is enabled.
    pub open spec fn enabled(self) -> bool {
        self.proxy_enable matches Some(n) && n != 0
    }

    /// The proxies that the settings name.
    pub open spec fn proxies(self) -> WinProxyView {
        match self.proxy_server {
            Some(s) => WinProxyView::of_entries(fields(s@, ';')),
            None => WinProxyView { http: None, https: None, all: None },
        }
    }

    /// The hosts that bypass the proxy.
    pub open spec fn bypassed(self) -> Option<Seq<char>> {
        match self.proxy_override {
            Some(s) => Some(normalized(s@)),
            None => None,
        }
    }
}

fn fill(text: &mut String, value: Option<String>)
    ensures
        final(text)@ == filled(old(text)@, text_view(value)),
{
    if let Some(value) = value {
        if text.as_str().is_empty() {
            *text = value;
        }
    }
}

/// Fills what a builder leaves empty from the system's settings, if they can be read and a proxy
/// is enabled in them.
pub fn with_system(builder: &mut Builder, settings: Option<SystemSettings>)
    ensures
        final(builder).is_cgi == old(builder).is_cgi,
        match settings {
            Some(s) if s.enabled() => {
                &&& final(builder).http@ == filled(old(builder).http@, s.proxies().http)
                &&& final(builder).https@ == filled(old(builder).https@, s.proxies().https)
                &&& final(builder).all@ == filled(old(builder).all@, s.proxies().all)
                &&& final(builder).no@ == filled(old(builder).no@, s.bypassed())
            },
            _ => *final(builder) == *old(builder),
        },
{
    let settings = match settings {
        Some(settings) => settings,
        None => {
            return;
        },
    };
    match settings.proxy_enable {
        None | Some(0) => {
            return;
        },
        _ => {},
    }
    if let Some(val) = settings.proxy_server {
        let parsed = WinProxyParser::parse(val.as_str());
        fill(&mut builder.http, parsed.http);
        fill(&mut builder.https, parsed.https);
        fill(&mut builder.all, parsed.all);
    }
    if builder.no.as_str().is_empty() {
        if let Some(val) = settings.proxy_override {
            builder.no = normalize_proxy_override(val.as_str());
        }
    }
}

/// What a builder has set already, the system's settings do not change.
pub proof fn lemma_explicit_settings_stay(text: Seq<char>, value: Option<Seq<char>>)
    requires
        text.len() > 0,
    ensures
        filled(text, value) == text,
{
}

/// An entry of a server setting is for the scheme that it names, and changes nothing else. With
/// `socks` it is for all schemes, as is one that names none. What it says of a proxy is written with
/// its scheme.
pub proof fn lemma_server_entry(view: WinProxyView, entry: Seq<char>, authority: Seq<char>)
    ensures
        ({
            let bare = trimmed(entry, CharClass::Whitespace);
            let after = view.with_entry(entry);
            &&& bare.len() == 0 ==> after == view
            &&& bare.len() > 0 && !bare.contains('=') ==> after == (WinProxyView {
                all: Some(bare),
                ..view
            })
            &&& bare == "http"@ + seq!['='] + authority ==> after == (WinProxyView {
                http: root_text("http"@, authority),
                ..view
            })
            &&& bare == "https"@ + seq!['='] + authority ==> after == (WinProxyView {
                https: root_text("https"@, authority),
                ..view
            })
            &&& bare == "socks"@ + seq!['='] + authority ==> after == (WinProxyView {
                all: root_text("socks"@, authority),
                ..view
            })
            &&& bare == "ftp"@ + seq!['='] + authority ==> after == view
        }),
        root_text("http"@, authority) matches Some(t) ==> t == "http"@ + seq![':', '/', '/']
            + authority + seq!['/'],
{
    reveal_strlit("http");
    reveal_strlit("https");
    reveal_strlit("socks");
    reveal_strlit("ftp");
    reveal_strlit("://");
    reveal_strlit("/");
    assert("://"@ =~= seq![':', '/', '/']);
    assert("/"@ =~= seq!['/']);
    let bare = trimmed(entry, CharClass::Whitespace);
    lemma_first_index_bound(bare, '=');
    assert("http"@.len() == 4 && "https"@.len() == 5 && "socks"@.len() == 5 && "ftp"@.len() == 3);
    assert("https"@[0] == 'h' && "socks"@[0] == 's');
    if bare == "http"@ + seq!['='] + authority {
        lemma_scheme_split("http"@, authority, bare);
    }
    if bare == "https"@ + seq!['='] + authority {
        lemma_scheme_split("https"@, authority, bare);
    }
    if bare == "socks"@ + seq!['='] + authority {
        lemma_scheme_split("socks"@, authority, bare);
    }
    if bare == "ftp"@ + seq!['='] + authority {
        lemma_scheme_split("ftp"@, authority, bare);
    }
}

/// Where a scheme ends that an entry names.
proof fn lemma_scheme_split(scheme: Seq<char>, authority: Seq<char>, bare: Seq<char>)
    requires
        bare == scheme + seq!['='] + authority,
        forall|i: int| 0 <= i < scheme.len() ==> #[trigger] scheme[i] != '=',
    ensures
        first_index(bare, '=') == scheme.len(),
        bare.take(scheme.len() as int) == scheme,
        bare.skip(scheme.len() as int + 1) == authority,
{
    assert forall|j: int| 0 <= j < scheme.len() implies bare[j] != '=' by {
        assert(bare[j] == scheme[j]);
    }
    lemma_first_index(bare, '=', scheme.len() as int);
    assert(bare.take(scheme.len() as int) =~= scheme);
    assert(bare.skip(scheme.len() as int + 1) =~= authority);
}

/// One to three numbers before one or more stars are the network of the addresses that begin with
/// these numbers: zeros follow up to four numbers, and every number counts for eight bits.
pub proof fn lemma_wildcard_network(numbers: Seq<nat>, stars: nat)
    requires
        1 <= numbers.len() <= 3,
        stars >= 1,
        forall|i: int| 0 <= i < numbers.len() ==> #[trigger] numbers[i] <= i32::MAX,
    ensures
        ({
            let parts = Seq::new(
                numbers.len() + stars,
                |i: int|
                    if i < numbers.len() {
                        decimal(numbers[i])
                    } else {
                        seq!['*']
                    },
            );
            let octet = |i: int|
                decimal(
                    if i < numbers.len() {
                        numbers[i]
                    } else {
                        0
                    },
                );
            let dot = seq!['.'];
            cidr_of(joined(parts, dot)) == Some(
                octet(0) + dot + octet(1) + dot + octet(2) + dot + octet(3) + seq!['/'] + decimal(
                    8 * numbers.len(),
                ),
            )
        }),
{
    let n = numbers.len() as int;
    let parts = Seq::new(
        numbers.len() + stars,
        |i: int|
            if i < numbers.len() {
                decimal(numbers[i])
            } else {
                seq!['*']
            },
    );
    reveal_strlit("*");
    reveal_strlit(".");
    reveal_strlit("/");
    reveal_strlit("0");
    assert("*"@ =~= seq!['*']);
    assert("."@ =~= seq!['.']);
    assert("/"@ =~= seq!['/']);
    assert forall|i: int| 0 <= i < parts.len() implies !(#[trigger] parts[i]).contains('.') by {
        if i < n {
            lemma_decimal_roundtrip(numbers[i]);
            assert forall|j: int| 0 <= j < parts[i].len() implies parts[i][j] != '.' by {
                assert('0' <= decimal(numbers[i])[j] <= '9');
            }
        }
    }
    lemma_join_fields(parts, '.');
    assert forall|j: int| 0 <= j < n implies #[trigger] parts[j] != "*"@ && number_of_text(parts[j])
        == Some(numbers[j] as int) && signed_decimal(numbers[j] as int) == decimal(numbers[j]) by {
        lemma_decimal_roundtrip(numbers[j]);
        lemma_signed_roundtrip(numbers[j] as int);
        assert('0' <= decimal(numbers[j])[0] <= '9');
        assert("*"@[0] == '*');
    }
    lemma_first_wildcard(parts, n);
    assert(decimal(0) =~= "0"@);
    assert(parts[0] != "*"@);
    if n >= 2 {
        assert(parts[1] != "*"@);
    }
    if n >= 3 {
        assert(parts[2] != "*"@);
    }
}

/// Without a star, and with one in the first place, there is no network.
pub proof fn lemma_no_wildcard_network(value: Seq<char>)
    ensures
        !value.contains('*') ==> cidr_of(value) is None,
        value.len() > 0 && fields(value, '.')[0] == seq!['*'] ==> cidr_of(value) is None,
{
    reveal_strlit("*");
    assert("*"@ =~= seq!['*']);
    let f = fields(value, '.');
    lemma_fields_join(value, '.');
    if !value.contains('*') {
        assert forall|j: int| 0 <= j < f.len() implies f[j] != "*"@ by {
            if f[j] == "*"@ {
                lemma_part_within(f, seq!['.'], j, 0);
            }
        }
        lemma_first_wildcard(f, f.len() as int);
    }
    if f[0] == seq!['*'] {
        lemma_first_wildcard(f, 0);
    }
}

/// A character of a part stands in the text that the parts make.
proof fn lemma_part_within(parts: Seq<Seq<char>>, sep: Seq<char>, j: int, k: int)
    requires
        0 <= j < parts.len(),
        0 <= k < parts[j].len(),
    ensures
        joined(parts, sep).contains(parts[j][k]),
    decreases parts.len(),
{
    let s = joined(parts, sep);
    if parts.len() == 1 {
        assert(s[k] == parts[j][k]);
    } else {
        let head = joined(parts.drop_last(), sep);
        if j == parts.len() - 1 {
            assert(s[head.len() + sep.len() + k] == parts[j][k]);
        } else {
            lemma_part_within(parts.drop_last(), sep, j, k);
            let i = choose|i: int| 0 <= i < head.len() && head[i] == parts[j][k];
            assert(s[i] == parts[j][k]);
        }
    }
}

/// A star and a dot are taken out wherever they stand together, and nothing else is.
pub proof fn lemma_star_dot(a: Seq<char>, b: Seq<char>)
    requires
        !a.contains('*'),
    ensures
        without_star_dot(a) == a,
        without_star_dot(a + seq!['*', '.'] + b) == a + without_star_dot(b),
    decreases a.len(),
{
    let s = a + seq!['*', '.'] + b;
    if a.len() == 0 {
        assert(s.skip(2) =~= b);
        assert(s[0] == '*' && s[1] == '.');
        assert(a + without_star_dot(b) =~= without_star_dot(b));
    } else {
        let rest = a.skip(1);
        assert(a.contains(a[0]));
        assert forall|i: int| 0 <= i < rest.len() implies rest[i] != '*' by {
            assert(a.contains(a[i + 1]));
        }
        lemma_star_dot(rest, b);
        assert(s.skip(1) =~= rest + seq!['*', '.'] + b);
        assert(s[0] == a[0]);
        assert(seq![a[0]] + rest =~= a);
        assert(seq![a[0]] + (rest + without_star_dot(b)) =~= a + without_star_dot(b));
    }
}

/// Entries without stars and without space around them only get commas for the semicolons between
/// them.
pub proof fn lemma_plain_overrides(entries: Seq<Seq<char>>)
    requires
        entries.len() >= 1,
        forall|i: int|
            0 <= i < entries.len() ==> {
                &&& !(#[trigger] entries[i]).contains(';')
                &&& !entries[i].contains('*')
                &&& trimmed(entries[i], CharClass::Whitespace) == entries[i]
            },
    ensures
        normalized(joined(entries, seq![';'])) == joined(entries, seq![',']),
{
    reveal_strlit(",");
    assert(","@ =~= seq![',']);
    lemma_join_fields(entries, ';');
    let mapped = entries.map_values(|entry: Seq<char>| override_entry(entry));
    assert forall|i: int| 0 <= i < entries.len() implies #[trigger] mapped[i] == entries[i] by {
        lemma_no_wildcard_network(entries[i]);
    }
    assert(mapped =~= entries);
    let list = joined(entries, seq![',']);
    lemma_no_star_joined(entries);
    lemma_star_dot(list, Seq::empty());
}

/// Texts without stars make a text without stars.
proof fn lemma_no_star_joined(parts: Seq<Seq<char>>)
    requires
        forall|i: int| 0 <= i < parts.len() ==> !(#[trigger] parts[i]).contains('*'),
    ensures
        !joined(parts, seq![',']).contains('*'),
    decreases parts.len(),
{
    let s = joined(parts, seq![',']);
    if parts.len() == 1 {
        assert(!parts[0].contains('*'));
    } else if parts.len() > 1 {
        let less = parts.drop_last();
        assert forall|i: int| 0 <= i < less.len() implies !(#[trigger] less[i]).contains('*') by {
            assert(less[i] == parts[i]);
        }
        lemma_no_star_joined(less);
        let head = joined(less, seq![',']);
        let last = parts[parts.len() - 1];
        assert(!last.contains('*'));
        assert forall|i: int| 0 <= i < s.len() implies s[i] != '*' by {
            if i < head.len() {
                assert(s[i] == head[i]);
                assert(head.contains(head[i]));
            } else if i > head.len() {
                assert(s[i] == last[i - head.len() - 1]);
                assert(last.contains(last[i - head.len() - 1]));
            }
        }
    }
}

/// What a builder leaves empty is what the system's settings say, where they say something.
pub proof fn lemma_empty_settings_filled(value: Seq<char>)
    ensures
        filled(Seq::empty(), Some(value)) == value,
        filled(Seq::empty(), None) == Seq::<char>::empty(),
{
}

/// The entries of a server setting are read one after the other, and none of them sets nothing. A
/// proxy is enabled by any number but zero.
pub proof fn lemma_server_setting(
    entries: Seq<Seq<char>>,
    entry: Seq<char>,
    settings: SystemSettings,
)
    ensures
        WinProxyView::of_entries(entries.push(entry)) == WinProxyView::of_entries(
            entries,
        ).with_entry(entry),
        WinProxyView::of_entries(Seq::empty()) == (WinProxyView {
            http: None,
            https: None,
            all: None,
        }),
        settings.enabled() <==> settings.proxy_enable is Some && settings.proxy_enable->0 > 0,
        settings.proxy_server is Some && entries.len() >= 1 && settings.proxy_server->0@ == joined(
            entries,
            seq![';'],
        ) && (forall|i: int| 0 <= i < entries.len() ==> !(#[trigger] entries[i]).contains(';'))
            ==> settings.proxies() == WinProxyView::of_entries(entries),
        settings.proxy_override is Some ==> settings.bypassed() == Some(
            normalized(settings.proxy_override->0@),
        ),
{
    assert(entries.push(entry).drop_last() =~= entries);
    if entries.len() >= 1 && (forall|i: int|
        0 <= i < entries.len() ==> !(#[trigger] entries[i]).contains(';')) {
        lemma_join_fields(entries, ';');
    }
}

} // verus!
