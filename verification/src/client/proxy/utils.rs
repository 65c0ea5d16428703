//! Proxy settings in environment variables.

use vstd::prelude::*;

use vstd::utf8::encode_utf8;
use vstd::utf8::is_ascii_chars;
use vstd::utf8::is_ascii_chars_encode_utf8;

use super::matcher::Intercept;
use super::matcher::InterceptView;
use crate::header::is_header_byte;
use crate::header::FieldValue;
use crate::header::FieldValueView;
use crate::text::chars_of;
use crate::text::find_char;
use crate::text::first_index;
use crate::text::lemma_first_index;
use crate::text::lemma_first_index_bound;
use crate::text::lemma_utf8_length;
use crate::text::same_text;
use crate::text::string_of;
use crate::uri::uri_of_parts;
use crate::uri::uri_of_text;
use crate::uri::Uri;
use crate::uri::UriView;

verus! {

/// The first value that is set, or nothing.
pub open spec fn first_value(values: Seq<Option<String>>) -> Seq<char>
    decreases values.len(),
{
    if values.len() == 0 {
        Seq::empty()
    } else {
        match values[0] {
            Some(v) => v@,
            None => first_value(values.skip(1)),
        }
    }
}

/// The first value that is set is used, whatever follows it, and nothing where none is set.
pub proof fn lemma_first_value(values: Seq<Option<String>>, k: int)
    requires
        0 <= k <= values.len(),
        forall|j: int| 0 <= j < k ==> #[trigger] values[j] is None,
        k < values.len() ==> values[k] is Some,
    ensures
        k < values.len() ==> first_value(values) == values[k]->0@,
        k == values.len() ==> first_value(values) == Seq::<char>::empty(),
    decreases values.len(),
{
    if k > 0 {
        let rest = values.skip(1);
        assert(values[0] is None);
        assert forall|j: int| 0 <= j < k - 1 implies #[trigger] rest[j] is None by {
            assert(values[j + 1] is None);
        }
        lemma_first_value(rest, k - 1);
    }
}

/// Of the values of some environment variables, the first that is set.
pub fn first_set(values: &[Option<String>]) -> (r: String)
    ensures
        r@ == first_value(values@),
{
    let mut i: usize = 0;
    assert(values@.skip(0) == values@);
    while i < values.len()
        invariant
            i <= values@.len(),
            first_value(values@.skip(i as int)) == first_value(values@),
        decreases values@.len() - i,
    {
        assert(values@.skip(i as int).skip(1) == values@.skip(i + 1));
        if let Some(v) = &values[i] {
            return v.clone();
        }
        i = i + 1;
    }
    String::new()
}

/// What the `percent_encoding` crate decodes a text to.
pub uninterp spec fn percent_decoded(s: Seq<char>) -> Seq<char>;

/// `percent_encoding::percent_decode_str` with `decode_utf8_lossy` decodes a text. Every character
/// of the result stands for at least one byte of the text. What it decodes to is left to the name
/// `percent_decoded`.
#[verifier::external_body]
fn percent_decode(s: &str) -> (r: String)
    ensures
        r@ == percent_decoded(s@),
        r@.len() <= encode_utf8(s@).len(),
{
    percent_encoding::percent_decode_str(s).decode_utf8_lossy().into_owned()
}

/// What the `base64` crate encodes bytes to, in the standard alphabet with padding.
pub uninterp spec fn base64_of(b: Seq<u8>) -> Seq<u8>;

/// Whether a byte is a letter, a digit, `+`, `/` or the padding `=`.
pub open spec fn is_base64_byte(b: u8) -> bool {
    0x41 <= b <= 0x5a || 0x61 <= b <= 0x7a || 0x30 <= b <= 0x39 || b == 0x2b || b == 0x2f || b
        == 0x3d
}

/// The length of an encoding in base64 with padding.
pub open spec fn base64_length(n: nat) -> nat {
    4 * ((n + 2) / 3)
}

/// `base64::Engine::encode` with the standard engine encodes bytes, four for every three of them,
/// in the alphabet of `is_base64_byte`. An encoding longer than any allocation panics, so
/// `requires` leaves it out. What it encodes to is left to the name `base64_of`.
#[verifier::external_body]
fn base64_encode(b: &[u8]) -> (r: Vec<u8>)
    requires
        base64_length(b@.len()) <= isize::MAX,
    ensures
        r@ == base64_of(b@),
        r@.len() == base64_length(b@.len()),
        forall|i: int| 0 <= i < r@.len() ==> is_base64_byte(#[trigger] r@[i]),
{
    base64::Engine::encode(&base64::prelude::BASE64_STANDARD, b).into_bytes()
}

/// User and password with a colon between them.
pub open spec fn credentials(user: Seq<char>, pass: Option<Seq<char>>) -> Seq<u8> {
    encode_utf8(user) + seq![0x3au8] + match pass {
        Some(p) => encode_utf8(p),
        None => Seq::empty(),
    }
}

/// The header value of basic authentication: `Basic`, a space, and the credentials in base64.
pub open spec fn basic_auth_value(user: Seq<char>, pass: Option<Seq<char>>) -> FieldValueView {
    FieldValueView {
        bytes: seq![0x42u8, 0x61u8, 0x73u8, 0x69u8, 0x63u8, 0x20u8] + base64_of(
            credentials(user, pass),
        ),
        sensitive: true,
    }
}

/// Makes the header value of basic authentication. It is sensitive.
pub fn encode_basic_auth(user: &str, pass: Option<&str>) -> (r: FieldValue)
    requires
        base64_length(
            credentials(
                user@,
                match pass {
                    Some(p) => Some(p@),
                    None => None,
                },
            ).len(),
        ) <= isize::MAX,
    ensures
        r@ == basic_auth_value(
            user@,
            match pass {
                Some(p) => Some(p@),
                None => None,
            },
        ),
{
    let ghost password = match pass {
        Some(p) => Some(p@),
        None => None,
    };
    let mut plain: Vec<u8> = Vec::new();
    plain.extend_from_slice(user.as_bytes());
    plain.push(0x3a);
    if let Some(p) = pass {
        plain.extend_from_slice(p.as_bytes());
    }
    assert(plain@ =~= credentials(user@, password));
    let encoded = base64_encode(plain.as_slice());
    let basic: [u8; 6] = [0x42, 0x61, 0x73, 0x69, 0x63, 0x20];
    let mut buf: Vec<u8> = Vec::new();
    buf.extend_from_slice(&basic);
    buf.extend_from_slice(encoded.as_slice());
    assert(buf@ =~= basic_auth_value(user@, password).bytes);
    assert forall|i: int| 0 <= i < buf@.len() implies is_header_byte(#[trigger] buf@[i]) by {
        if i >= 6 {
            assert(buf@[i] == encoded@[i - 6]);
        }
    }
    let mut header = FieldValue::from_bytes(buf.as_slice()).unwrap();
    header.set_sensitive(true);
    header
}

/// A scheme that a proxy can have, and whether it speaks HTTP. Without a scheme it is `http`.
pub open spec fn proxy_scheme(u: UriView) -> Option<(Seq<char>, bool)> {
    match u.scheme {
        None => Some(("http"@, true)),
        Some(s) => if s == "http"@ || s == "https"@ {
            Some((s, true))
        } else if s == "socks5"@ || s == "socks5h"@ {
            Some((s, false))
        } else {
            None
        },
    }
}

/// The proxy that a URI describes. User and password before an `@` become the authentication: a
/// header value for HTTP, the decoded pair otherwise. The path is dropped.
pub open spec fn intercept_of_uri(u: UriView) -> Option<InterceptView> {
    match (proxy_scheme(u), u.authority) {
        (Some((scheme, is_http)), Some(authority)) => {
            let at = first_index(authority.text, '@');
            if at >= authority.text.len() {
                Some(
                    InterceptView {
                        uri: UriView {
                            scheme: Some(scheme),
                            authority: Some(authority),
                            path_and_query: Some("/"@),
                        },
                        basic_auth: None,
                        raw_auth: None,
                    },
                )
            } else {
                let userinfo = authority.text.take(at);
                let host_port = authority.text.skip(at + 1);
                let colon = first_index(userinfo, ':');
                if colon >= userinfo.len() {
                    None
                } else {
                    let user = percent_decoded(userinfo.take(colon));
                    let pass = percent_decoded(userinfo.skip(colon + 1));
                    match uri_of_parts(scheme, host_port, "/"@) {
                        None => None,
                        Some(uri) => Some(
                            InterceptView {
                                uri,
                                basic_auth: if is_http {
                                    Some(basic_auth_value(user, Some(pass)))
                                } else {
                                    None
                                },
                                raw_auth: if is_http {
                                    None
                                } else {
                                    Some((user, pass))
                                },
                            },
                        ),
                    }
                }
            }
        },
        _ => None,
    }
}

/// A proxy is asked with a header value where it speaks HTTP, and with user and password as they are
/// where it speaks SOCKS: each setting with user and password has the one or the other, as its
/// scheme says, and one without has neither.
pub proof fn lemma_auth_by_scheme(u: UriView)
    requires
        intercept_of_uri(u) is Some,
    ensures
        ({
            let i = intercept_of_uri(u)->0;
            let http = u.scheme is None || u.scheme == Some("http"@) || u.scheme == Some("https"@);
            let socks = u.scheme == Some("socks5"@) || u.scheme == Some("socks5h"@);
            &&& u.authority is Some
            &&& http || socks
            &&& !u.authority->0.text.contains('@') ==> i.basic_auth is None && i.raw_auth is None
            &&& u.authority->0.text.contains('@') && http ==> i.basic_auth is Some
                && i.raw_auth is None
            &&& u.authority->0.text.contains('@') && socks ==> i.basic_auth is None
                && i.raw_auth is Some
        }),
{
    reveal_strlit("http");
    reveal_strlit("https");
    reveal_strlit("socks5");
    reveal_strlit("socks5h");
    assert("http"@.len() == 4 && "https"@.len() == 5 && "socks5"@.len() == 6 && "socks5h"@.len()
        == 7);
    lemma_first_index_bound(u.authority->0.text, '@');
}

/// Without user and password the proxy is the scheme and the authority that were written, whatever
/// the path. The scheme is `http` unless another was written.
pub proof fn lemma_intercept_plain(u: UriView)
    requires
        u.authority is Some,
        !u.authority->0.text.contains('@'),
        u.scheme is None || u.scheme == Some("http"@) || u.scheme == Some("https"@) || u.scheme
            == Some("socks5"@) || u.scheme == Some("socks5h"@),
    ensures
        intercept_of_uri(u) == Some(
            InterceptView {
                uri: UriView {
                    scheme: Some(
                        if u.scheme is Some {
                            u.scheme->0
                        } else {
                            "http"@
                        },
                    ),
                    authority: u.authority,
                    path_and_query: Some("/"@),
                },
                basic_auth: None,
                raw_auth: None,
            },
        ),
{
    lemma_first_index_bound(u.authority->0.text, '@');
}

/// User and password stand before the host with a colon between them and an `@` behind them. They
/// are decoded one by one. For HTTP they are encoded together, again with a colon between them, and
/// are not to be shown.
pub proof fn lemma_intercept_credentials(
    u: UriView,
    user: Seq<char>,
    pass: Seq<char>,
    host: Seq<char>,
)
    requires
        u.authority is Some,
        u.authority->0.text == user + seq![':'] + pass + seq!['@'] + host,
        !user.contains(':'),
        !user.contains('@'),
        !pass.contains('@'),
    ensures
        ({
            let http = u.scheme is None || u.scheme == Some("http"@) || u.scheme == Some("https"@);
            let socks = u.scheme == Some("socks5"@) || u.scheme == Some("socks5h"@);
            let scheme = if u.scheme is Some {
                u.scheme->0
            } else {
                "http"@
            };
            let name = percent_decoded(user);
            let word = percent_decoded(pass);
            let proxy = uri_of_parts(scheme, host, "/"@);
            let i = intercept_of_uri(u);
            &&& i is Some <==> (http || socks) && proxy is Some
            &&& i is Some ==> Some(i->0.uri) == proxy
            &&& i is Some && socks ==> i->0.raw_auth == Some((name, word)) && i->0.basic_auth
                is None
            &&& i is Some && http ==> i->0.raw_auth is None && i->0.basic_auth == Some(
                FieldValueView {
                    bytes: encode_utf8("Basic "@) + base64_of(
                        encode_utf8(name) + encode_utf8(seq![':']) + encode_utf8(word),
                    ),
                    sensitive: true,
                },
            )
        }),
{
    reveal_strlit("http");
    reveal_strlit("https");
    reveal_strlit("socks5");
    reveal_strlit("socks5h");
    assert("http"@.len() == 4 && "https"@.len() == 5 && "socks5"@.len() == 6 && "socks5h"@.len()
        == 7);
    let text = u.authority->0.text;
    let userinfo = user + seq![':'] + pass;
    let at = userinfo.len() as int;
    assert forall|j: int| 0 <= j < at implies text[j] != '@' by {
        assert(text[j] == userinfo[j]);
        if j < user.len() {
            assert(user.contains(user[j]));
        } else if j > user.len() {
            assert(pass.contains(pass[j - user.len() - 1]));
        }
    }
    assert(text[at] == '@');
    lemma_first_index(text, '@', at);
    assert(text.take(at) =~= userinfo);
    assert(text.skip(at + 1) =~= host);
    assert forall|j: int| 0 <= j < user.len() implies userinfo[j] != ':' by {
        assert(user.contains(user[j]));
    }
    lemma_first_index(userinfo, ':', user.len() as int);
    assert(userinfo.take(user.len() as int) =~= user);
    assert(userinfo.skip(user.len() as int + 1) =~= pass);
    reveal_strlit("Basic ");
    assert(is_ascii_chars("Basic "@));
    is_ascii_chars_encode_utf8("Basic "@);
    is_ascii_chars_encode_utf8(seq![':']);
    assert(encode_utf8("Basic "@) =~= seq![0x42u8, 0x61u8, 0x73u8, 0x69u8, 0x63u8, 0x20u8]);
    assert(encode_utf8(seq![':']) =~= seq![0x3au8]);
}

/// Whether an optional result shows the given optional view.
pub open spec fn shows(r: Option<Intercept>, view: Option<InterceptView>) -> bool {
    match r {
        Some(i) => view == Some(i@),
        None => view is None,
    }
}

/// The proxy that a URI describes.
pub fn intercept_for(uri: &Uri) -> (r: Option<Intercept>)
    requires
        uri@.authority matches Some(a) ==> a.text.len() <= 65534,
    ensures
        shows(r, intercept_of_uri(uri@)),
        r matches Some(i) ==> {
            let at = uri@.authority is Some && uri@.authority->0.text.contains('@');
            let socks = uri@.scheme == Some("socks5"@) || uri@.scheme == Some("socks5h"@);
            &&& i.basic_auth is Some <==> at && !socks
            &&& i.raw_auth is Some <==> at && socks
            &&& i.uri@.scheme == Some(
                match uri@.scheme {
                    Some(s) => s,
                    None => "http"@,
                },
            )
            &&& i.uri@.path_and_query == Some("/"@)
        },
{
    proof {
        if intercept_of_uri(uri@) is Some {
            lemma_auth_by_scheme(uri@);
            reveal_strlit("http");
            reveal_strlit("https");
            reveal_strlit("socks5");
            reveal_strlit("socks5h");
            assert("http"@.len() == 4 && "https"@.len() == 5 && "socks5"@.len() == 6
                && "socks5h"@.len() == 7);
        }
    }
    let (scheme, is_http): (&str, bool) = match &uri.scheme {
        None => ("http", true),
        Some(s) => {
            if same_text(s.as_str(), "http") || same_text(s.as_str(), "https") {
                (s.as_str(), true)
            } else if same_text(s.as_str(), "socks5") || same_text(s.as_str(), "socks5h") {
                (s.as_str(), false)
            } else {
                return None;
            }
        },
    };
    assert(proxy_scheme(uri@) == Some((scheme@, is_http)));
    let authority = match &uri.authority {
        Some(a) => a,
        None => {
            return None;
        },
    };
    let text = chars_of(authority.text.as_str());
    let at: usize = match find_char(text.as_slice(), '@') {
        Some(at) => at,
        None => {
            let dst = Uri {
                scheme: Some(scheme.to_owned()),
                authority: Some(authority.clone()),
                path_and_query: Some("/".to_owned()),
            };
            let r = Intercept { uri: dst, basic_auth: None, raw_auth: None };
            assert(Some(r@) =~= intercept_of_uri(uri@));
            return Some(r);
        },
    };
    let n: usize = text.len();
    let userinfo: &[char] = &text.as_slice()[0..at];
    let host_port: &[char] = &text.as_slice()[at + 1..n];
    assert(userinfo@ =~= text@.take(at as int));
    assert(host_port@ =~= text@.skip(at + 1));
    let colon: usize = match find_char(userinfo, ':') {
        Some(colon) => colon,
        None => {
            proof {
                lemma_first_index_bound(userinfo@, ':');
            }
            return None;
        },
    };
    let user_part = string_of(&userinfo[0..colon]);
    let pass_part = string_of(&userinfo[colon + 1..at]);
    assert(user_part@ =~= userinfo@.take(colon as int));
    assert(pass_part@ =~= userinfo@.skip(colon + 1));
    let user = percent_decode(user_part.as_str());
    let pass = percent_decode(pass_part.as_str());
    let dst = match Uri::root(scheme, string_of(host_port).as_str()) {
        Some(dst) => dst,
        None => {
            return None;
        },
    };
    if is_http {
        proof {
            lemma_utf8_length(user_part@);
            lemma_utf8_length(pass_part@);
            lemma_utf8_length(user@);
            lemma_utf8_length(pass@);
        }
        let value = encode_basic_auth(user.as_str(), Some(pass.as_str()));
        let r = Intercept { uri: dst, basic_auth: Some(value), raw_auth: None };
        assert(Some(r@) =~= intercept_of_uri(uri@));
        Some(r)
    } else {
        let r = Intercept { uri: dst, basic_auth: None, raw_auth: Some((user, pass)) };
        assert(Some(r@) =~= intercept_of_uri(uri@));
        Some(r)
    }
}

/// Reads the setting of a proxy, if it is one that can be used.
pub fn parse_env_uri(val: &str) -> (r: Option<Intercept>)
    ensures
        shows(
            r,
            match uri_of_text(val@) {
                Some(u) => intercept_of_uri(u),
                None => None,
            },
        ),
{
    match Uri::parse(val) {
        Some(uri) => intercept_for(&uri),
        None => None,
    }
}

} // verus!
