//! Header values and header maps.

use vstd::prelude::*;

use http::HeaderMap;
use vstd::utf8::encode_utf8;

use crate::text::texts;

verus! {

/// The value of a header field, and whether it is to be kept out of logs and compression tables.
pub struct FieldValue {
    bytes: Vec<u8>,
    sensitive: bool,
}

/// What a header value says.
#[verifier::ext_equal]
pub struct FieldValueView {
    pub bytes: Seq<u8>,
    pub sensitive: bool,
}

impl View for FieldValue {
    type V = FieldValueView;

    closed spec fn view(&self) -> FieldValueView {
        FieldValueView { bytes: self.bytes@, sensitive: self.sensitive }
    }
}

/// Whether a byte may stand in a header value: a tab, or anything from the space on but the
/// delete character.
pub open spec fn is_header_byte(b: u8) -> bool {
    b >= 32 && b != 127 || b == 9
}

/// Whether a byte may stand in a header value written as text: a tab, or visible ASCII.
pub open spec fn is_header_text_byte(b: u8) -> bool {
    32 <= b < 127 || b == 9
}

/// Control characters other than the tab may not stand in a header value; in one written as text,
/// what is not ASCII may not either.
pub proof fn lemma_header_bytes(b: u8)
    ensures
        !is_header_byte(b) <==> (b <= 31 && b != 9) || b == 127,
        !is_header_text_byte(b) <==> (b <= 31 && b != 9) || b >= 127,
{
}

/// Whether all bytes may stand in a header value.
pub open spec fn header_bytes(b: Seq<u8>) -> bool {
    forall|i: int| 0 <= i < b.len() ==> is_header_byte(#[trigger] b[i])
}

/// Whether all bytes may stand in a header value written as text.
pub open spec fn header_text_bytes(b: Seq<u8>) -> bool {
    forall|i: int| 0 <= i < b.len() ==> is_header_text_byte(#[trigger] b[i])
}

impl FieldValue {
    /// Every byte may stand in a header value.
    #[verifier::type_invariant]
    closed spec fn bytes_allowed(self) -> bool {
        header_bytes(self.bytes@)
    }

    /// Makes a value of the given bytes.
    pub fn from_bytes(bytes: &[u8]) -> (r: Option<FieldValue>)
        ensures
            r is Some <==> header_bytes(bytes@),
            r matches Some(v) ==> v@.bytes == bytes@ && !v@.sensitive,
    {
        let mut i: usize = 0;
        while i < bytes.len()
            invariant
                i <= bytes.len(),
                forall|j: int| 0 <= j < i ==> is_header_byte(#[trigger] bytes@[j]),
            decreases bytes.len() - i,
        {
            let b: u8 = bytes[i];
            if !(b >= 32 && b != 127 || b == 9) {
                return None;
            }
            i = i + 1;
        }
        let mut copy: Vec<u8> = Vec::new();
        copy.extend_from_slice(bytes);
        assert(copy@ =~= bytes@);
        Some(FieldValue { bytes: copy, sensitive: false })
    }

    /// Makes a value of a text in visible ASCII.
    pub fn from_str(s: &str) -> (r: Option<FieldValue>)
        ensures
            r is Some <==> header_text_bytes(encode_utf8(s@)),
            r matches Some(v) ==> v@.bytes == encode_utf8(s@) && !v@.sensitive,
    {
        let bytes = s.as_bytes();
        let mut i: usize = 0;
        while i < bytes.len()
            invariant
                i <= bytes.len(),
                bytes@ == encode_utf8(s@),
                forall|j: int| 0 <= j < i ==> is_header_text_byte(#[trigger] bytes@[j]),
            decreases bytes.len() - i,
        {
            let b: u8 = bytes[i];
            if !(b >= 32 && b < 127 || b == 9) {
                return None;
            }
            i = i + 1;
        }
        FieldValue::from_bytes(bytes)
    }

    /// The bytes of the value.
    pub fn as_bytes(&self) -> (r: &[u8])
        ensures
            r@ == self@.bytes,
            header_bytes(r@),
    {
        proof {
            use_type_invariant(self);
        }
        self.bytes.as_slice()
    }

    /// Whether the value is sensitive.
    pub fn is_sensitive(&self) -> (r: bool)
        ensures
            r == self@.sensitive,
    {
        self.sensitive
    }

    /// Marks the value as sensitive or not.
    pub fn set_sensitive(&mut self, sensitive: bool)
        ensures
            final(self)@ == (FieldValueView { bytes: old(self)@.bytes, sensitive }),
    {
        proof {
            use_type_invariant(&*self);
        }
        self.sensitive = sensitive;
    }
}

impl Clone for FieldValue {
    fn clone(&self) -> (r: Self)
        ensures
            r@ == self@,
    {
        proof {
            use_type_invariant(self);
        }
        let mut bytes: Vec<u8> = Vec::new();
        bytes.extend_from_slice(self.bytes.as_slice());
        assert(bytes@ =~= self.bytes@);
        FieldValue { bytes, sensitive: self.sensitive }
    }
}

/// The view of an optional header value.
pub open spec fn value_view(v: Option<FieldValue>) -> Option<FieldValueView> {
    match v {
        Some(v) => Some(v@),
        None => None,
    }
}

/// The fields that the library itself sets.
#[derive(Debug, Clone, Copy, PartialEq, Eq, Structural)]
pub enum Field {
    Expect,
    Host,
    ProxyAuthorization,
}

impl Field {
    /// The name of the field in lower case.
    pub open spec fn name(self) -> Seq<char> {
        match self {
            Field::Expect => "expect"@,
            Field::Host => "host"@,
            Field::ProxyAuthorization => "proxy-authorization"@,
        }
    }
}

/// The header map of the `http` crate.
#[verifier::external_type_specification]
#[verifier::external_body]
#[verifier::reject_recursive_types(T)]
pub struct ExHeaderMap<T>(http::HeaderMap<T>);

/// The header value of the `http` crate.
#[verifier::external_type_specification]
#[verifier::external_body]
pub struct ExHeaderValue(http::HeaderValue);

/// The values that a header map holds under each name, in order. Names are in lower case.
pub uninterp spec fn headers_of(m: HeaderMap<http::HeaderValue>) -> Map<
    Seq<char>,
    Seq<FieldValueView>,
>;

/// Whether a number of names is far enough from the most that a header map takes: below it, no
/// insertion outgrows the map, however its hashes collide.
pub open spec fn few_names(names: Set<Seq<char>>) -> bool {
    names.finite() && names.len() <= 6552
}

/// `HeaderMap::insert` puts the value under the name, in place of all that was there.
#[verifier::external_body]
pub(crate) fn header_insert(m: &mut HeaderMap<http::HeaderValue>, field: Field, value: &FieldValue)
    requires
        few_names(headers_of(*old(m)).dom().insert(field.name())),
    ensures
        headers_of(*final(m)) == headers_of(*old(m)).insert(field.name(), seq![value@]),
{
    let name = match field {
        Field::Expect => http::header::EXPECT,
        Field::Host => http::header::HOST,
        Field::ProxyAuthorization => http::header::PROXY_AUTHORIZATION,
    };
    let mut v = http::HeaderValue::from_bytes(value.bytes.as_slice()).expect("valid bytes");
    v.set_sensitive(value.sensitive);
    m.insert(name, v);
}

/// `HeaderMap::entry` with `or_insert` puts the value under the name if nothing is there yet.
#[verifier::external_body]
pub(crate) fn header_or_insert(
    m: &mut HeaderMap<http::HeaderValue>,
    field: Field,
    value: &FieldValue,
)
    requires
        few_names(headers_of(*old(m)).dom().insert(field.name())),
    ensures
        headers_of(*final(m)) == if headers_of(*old(m)).contains_key(field.name()) {
            headers_of(*old(m))
        } else {
            headers_of(*old(m)).insert(field.name(), seq![value@])
        },
{
    let name = match field {
        Field::Expect => http::header::EXPECT,
        Field::Host => http::header::HOST,
        Field::ProxyAuthorization => http::header::PROXY_AUTHORIZATION,
    };
    let mut v = http::HeaderValue::from_bytes(value.bytes.as_slice()).expect("valid bytes");
    v.set_sensitive(value.sensitive);
    m.entry(name).or_insert(v);
}

/// `HeaderMap::contains_key` tells whether anything is held under the name.
#[verifier::external_body]
pub(crate) fn header_contains(m: &HeaderMap<http::HeaderValue>, field: Field) -> (r: bool)
    ensures
        r == headers_of(*m).contains_key(field.name()),
{
    let name = match field {
        Field::Expect => http::header::EXPECT,
        Field::Host => http::header::HOST,
        Field::ProxyAuthorization => http::header::PROXY_AUTHORIZATION,
    };
    m.contains_key(name)
}

/// `HeaderMap::extend` with another map: under every name of the other map its values take the
/// place of all that was there.
#[verifier::external_body]
pub(crate) fn header_extend(
    m: &mut HeaderMap<http::HeaderValue>,
    other: HeaderMap<http::HeaderValue>,
)
    requires
        few_names(headers_of(*old(m)).dom().union(headers_of(other).dom())),
    ensures
        headers_of(*final(m)) == headers_of(*old(m)).union_prefer_right(headers_of(other)),
{
    m.extend(other);
}

/// `HeaderMap::clone` holds the same values.
#[verifier::external_body]
pub(crate) fn header_clone(m: &HeaderMap<http::HeaderValue>) -> (r: HeaderMap<http::HeaderValue>)
    ensures
        headers_of(r) == headers_of(*m),
{
    m.clone()
}

/// `HeaderMap::new` holds nothing.
#[verifier::external_body]
pub(crate) fn header_new() -> (r: HeaderMap<http::HeaderValue>)
    ensures
        (headers_of(r) == Map::<Seq<char>, Seq<FieldValueView>>::empty()),
{
    HeaderMap::new()
}

/// `HeaderMap::keys` gives every name once.
#[verifier::external_body]
fn header_names(m: &HeaderMap<http::HeaderValue>) -> (r: Vec<String>)
    ensures
        texts(r@).to_set() == headers_of(*m).dom(),
        texts(r@).no_duplicates(),
{
    m.keys().map(|name| name.as_str().to_owned()).collect()
}

/// How many names a header map holds.
pub fn header_count(m: &HeaderMap<http::HeaderValue>) -> (r: usize)
    ensures
        headers_of(*m).dom().finite(),
        r == headers_of(*m).dom().len(),
{
    let names = header_names(m);
    proof {
        texts(names@).unique_seq_to_set();
        vstd::seq_lib::seq_to_set_is_finite(texts(names@));
    }
    names.len()
}

/// Whether one more field, or the fields of another map, can be added to a header map.
pub fn has_room_for(m: &HeaderMap<http::HeaderValue>, more: usize) -> (r: bool)
    ensures
        r == (headers_of(*m).dom().len() + more <= 6552),
        r && more >= 1 ==> forall|field: Field|
            few_names(#[trigger] headers_of(*m).dom().insert(field.name())),
        r ==> forall|other: HeaderMap<http::HeaderValue>|
            headers_of(other).dom().finite() && headers_of(other).dom().len() <= more
                ==> #[trigger] few_names(headers_of(*m).dom().union(headers_of(other).dom())),
{
    let held: usize = header_count(m);
    proof {
        let names = headers_of(*m).dom();
        assert forall|other: HeaderMap<http::HeaderValue>|
            headers_of(other).dom().finite() && headers_of(other).dom().len() <= more && held + more
                <= 6552 implies #[trigger] few_names(names.union(headers_of(other).dom())) by {
            vstd::set_lib::lemma_len_union(names, headers_of(other).dom());
        }
    }
    held <= 6552 && more <= 6552 - held
}

} // verus!
