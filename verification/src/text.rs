//! Text as a sequence of characters: splitting, trimming, comparing and writing numbers.

use vstd::prelude::*;
use vstd::utf8::decode_utf8;
use vstd::utf8::encode_utf8;
use vstd::utf8::encode_utf8_decode_utf8;
use vstd::utf8::valid_utf8;

verus! {

/// `String::push` appends one character to the end of the string.
pub assume_specification[ String::push ](s: &mut String, c: char)
    ensures
        final(s)@ == old(s)@.push(c),
;

/// `std::str::from_utf8` succeeds exactly on valid UTF-8, and then gives the text that the bytes
/// encode.
#[verifier::external_body]
pub(crate) fn utf8_text(bytes: &[u8]) -> (r: Option<String>)
    ensures
        r is Some <==> valid_utf8(bytes@),
        r matches Some(t) ==> t@ == decode_utf8(bytes@),
{
    std::str::from_utf8(bytes).ok().map(|s| s.to_owned())
}

/// The characters of a string.
pub fn chars_of(s: &str) -> (r: Vec<char>)
    ensures
        r@ == s@,
{
    let mut r: Vec<char> = Vec::new();
    for c in it: s.chars()
        invariant
            r@ == s@.take(it.index()),
            it.seq() == s@,
    {
        r.push(c);
        assert(s@.take(it.index() + 1) == s@.take(it.index()).push(s@[it.index()]));
    }
    assert(s@.take(s@.len() as int) == s@);
    r
}

/// The string made of the given characters.
pub fn string_of(chars: &[char]) -> (r: String)
    ensures
        r@ == chars@,
{
    let mut r = String::new();
    let mut i: usize = 0;
    while i < chars.len()
        invariant
            i <= chars.len(),
            r@ == chars@.take(i as int),
        decreases chars.len() - i,
    {
        r.push(chars[i]);
        assert(chars@.take(i + 1) == chars@.take(i as int).push(chars@[i as int]));
        i = i + 1;
    }
    assert(chars@.take(chars@.len() as int) == chars@);
    r
}

/// Whether two character sequences are the same.
pub fn same_chars(a: &[char], b: &[char]) -> (r: bool)
    ensures
        r == (a@ == b@),
{
    if a.len() != b.len() {
        return false;
    }
    let mut i: usize = 0;
    while i < a.len()
        invariant
            i <= a.len(),
            a.len() == b.len(),
            forall|j: int| 0 <= j < i ==> a@[j] == b@[j],
        decreases a.len() - i,
    {
        if a[i] != b[i] {
            return false;
        }
        i = i + 1;
    }
    assert(a@ =~= b@);
    true
}

/// Whether two byte sequences are the same.
pub fn same_bytes(a: &[u8], b: &[u8]) -> (r: bool)
    ensures
        r == (a@ == b@),
{
    if a.len() != b.len() {
        return false;
    }
    let mut i: usize = 0;
    while i < a.len()
        invariant
            i <= a.len(),
            a.len() == b.len(),
            forall|j: int| 0 <= j < i ==> a@[j] == b@[j],
        decreases a.len() - i,
    {
        if a[i] != b[i] {
            return false;
        }
        i = i + 1;
    }
    assert(a@ =~= b@);
    true
}

/// Whether `s` starts with `prefix`.
pub open spec fn starts_with(s: Seq<u8>, prefix: Seq<u8>) -> bool {
    prefix.len() <= s.len() && s.take(prefix.len() as int) == prefix
}

/// Whether `s` ends with `suffix`.
pub open spec fn ends_with(s: Seq<u8>, suffix: Seq<u8>) -> bool {
    suffix.len() <= s.len() && s.skip(s.len() - suffix.len()) == suffix
}

/// A sequence starts with another where it agrees with it at every place of the other.
pub proof fn lemma_starts_with(s: Seq<u8>, prefix: Seq<u8>)
    ensures
        starts_with(s, prefix) <==> prefix.len() <= s.len() && (forall|i: int|
            0 <= i < prefix.len() ==> s[i] == #[trigger] prefix[i]),
{
    if prefix.len() <= s.len() {
        let head = s.take(prefix.len() as int);
        if starts_with(s, prefix) {
            assert forall|i: int| 0 <= i < prefix.len() implies s[i] == #[trigger] prefix[i] by {
                assert(head[i] == s[i]);
            }
        }
        if forall|i: int| 0 <= i < prefix.len() ==> s[i] == #[trigger] prefix[i] {
            assert(head =~= prefix);
        }
    }
}

/// A sequence ends with another where it agrees with it at every place of the other, counted from
/// the end.
pub proof fn lemma_ends_with(s: Seq<u8>, suffix: Seq<u8>)
    ensures
        ends_with(s, suffix) <==> suffix.len() <= s.len() && (forall|i: int|
            0 <= i < suffix.len() ==> s[s.len() - suffix.len() + i] == #[trigger] suffix[i]),
{
    if suffix.len() <= s.len() {
        let tail = s.skip(s.len() - suffix.len());
        if ends_with(s, suffix) {
            assert forall|i: int| 0 <= i < suffix.len() implies s[s.len() - suffix.len() + i]
                == #[trigger] suffix[i] by {
                assert(tail[i] == s[s.len() - suffix.len() + i]);
            }
        }
        if forall|i: int|
            0 <= i < suffix.len() ==> s[s.len() - suffix.len() + i] == #[trigger] suffix[i] {
            assert(tail =~= suffix);
        }
    }
}

/// Whether bytes start with the given ones.
pub fn bytes_start_with(s: &[u8], prefix: &[u8]) -> (r: bool)
    ensures
        r == starts_with(s@, prefix@),
        r <==> prefix@.len() <= s@.len() && (forall|i: int|
            0 <= i < prefix@.len() ==> s@[i] == #[trigger] prefix@[i]),
{
    proof {
        lemma_starts_with(s@, prefix@);
    }
    if prefix.len() > s.len() {
        return false;
    }
    assert(s@.subrange(0, prefix@.len() as int) == s@.take(prefix@.len() as int));
    same_bytes(&s[0..prefix.len()], prefix)
}

/// Whether bytes end with the given ones.
pub fn bytes_end_with(s: &[u8], suffix: &[u8]) -> (r: bool)
    ensures
        r == ends_with(s@, suffix@),
        r <==> suffix@.len() <= s@.len() && (forall|i: int|
            0 <= i < suffix@.len() ==> s@[s@.len() - suffix@.len() + i] == #[trigger] suffix@[i]),
{
    proof {
        lemma_ends_with(s@, suffix@);
    }
    if suffix.len() > s.len() {
        return false;
    }
    let at: usize = s.len() - suffix.len();
    assert(s@.subrange(at as int, s@.len() as int) == s@.skip(at as int));
    same_bytes(&s[at..s.len()], suffix)
}

/// Whether two strings are the same.
pub fn same_text(a: &str, b: &str) -> (r: bool)
    ensures
        r == (a@ == b@),
{
    proof {
        encode_utf8_decode_utf8(a@);
        encode_utf8_decode_utf8(b@);
    }
    same_bytes(a.as_bytes(), b.as_bytes())
}

/// Where `needle` first stands in `s`, or the length of `s` if it does not.
pub open spec fn first_index(s: Seq<char>, needle: char) -> int
    decreases s.len(),
{
    if s.len() == 0 {
        0
    } else if s[0] == needle {
        0
    } else {
        1 + first_index(s.skip(1), needle)
    }
}

/// `first_index` is the one index before which `needle` does not stand and at which it does, or
/// the end.
pub proof fn lemma_first_index(s: Seq<char>, needle: char, k: int)
    requires
        0 <= k <= s.len(),
        forall|j: int| 0 <= j < k ==> s[j] != needle,
        k < s.len() ==> s[k] == needle,
    ensures
        first_index(s, needle) == k,
    decreases s.len(),
{
    if s.len() > 0 && s[0] != needle {
        lemma_first_index(s.skip(1), needle, k - 1);
    }
}

/// `first_index` stays within the text.
pub proof fn lemma_first_index_bound(s: Seq<char>, needle: char)
    ensures
        0 <= first_index(s, needle) <= s.len(),
        forall|j: int| 0 <= j < first_index(s, needle) ==> s[j] != needle,
        first_index(s, needle) < s.len() ==> s[first_index(s, needle)] == needle,
    decreases s.len(),
{
    if s.len() > 0 && s[0] != needle {
        lemma_first_index_bound(s.skip(1), needle);
        let k = first_index(s.skip(1), needle);
        assert forall|j: int| 0 <= j < k + 1 implies s[j] != needle by {
            if j > 0 {
                assert(s.skip(1)[j - 1] != needle);
            }
        }
    }
}

/// Finds the first place of `needle`.
pub fn find_char(s: &[char], needle: char) -> (r: Option<usize>)
    ensures
        r is Some <==> s@.contains(needle),
        r is Some <==> first_index(s@, needle) < s@.len(),
        r matches Some(k) ==> k == first_index(s@, needle) && s@[k as int] == needle,
        r matches Some(k) ==> k < s@.len() && (forall|j: int| 0 <= j < k ==> s@[j] != needle),
{
    let mut i: usize = 0;
    while i < s.len()
        invariant
            i <= s.len(),
            forall|j: int| 0 <= j < i ==> s@[j] != needle,
        decreases s.len() - i,
    {
        if s[i] == needle {
            proof {
                lemma_first_index(s@, needle, i as int);
            }
            return Some(i);
        }
        i = i + 1;
    }
    proof {
        lemma_first_index(s@, needle, s@.len() as int);
    }
    None
}

/// The fields of `s` between separators: one more than there are separators.
pub open spec fn fields(s: Seq<char>, sep: char) -> Seq<Seq<char>>
    decreases s.len(),
{
    if s.len() == 0 {
        seq![Seq::<char>::empty()]
    } else {
        let before = fields(s.drop_last(), sep);
        if s.last() == sep {
            before.push(Seq::<char>::empty())
        } else {
            before.drop_last().push(before.last().push(s.last()))
        }
    }
}

/// The views of a list of texts.
pub open spec fn views(v: Seq<Vec<char>>) -> Seq<Seq<char>> {
    Seq::new(v.len(), |i: int| v[i]@)
}

/// There is always at least one field.
pub proof fn lemma_fields_nonempty(s: Seq<char>, sep: char)
    ensures
        fields(s, sep).len() >= 1,
    decreases s.len(),
{
    if s.len() > 0 {
        lemma_fields_nonempty(s.drop_last(), sep);
    }
}

/// No field holds the separator, and the fields with a separator between them are the text.
pub proof fn lemma_fields_join(s: Seq<char>, sep: char)
    ensures
        fields(s, sep).len() >= 1,
        joined(fields(s, sep), seq![sep]) == s,
        forall|i: int|
            0 <= i < fields(s, sep).len() ==> !(#[trigger] fields(s, sep)[i]).contains(sep),
    decreases s.len(),
{
    let f = fields(s, sep);
    if s.len() == 0 {
        assert(f[0] =~= s);
    } else {
        let g = fields(s.drop_last(), sep);
        lemma_fields_join(s.drop_last(), sep);
        if s.last() == sep {
            assert(f.drop_last() =~= g);
            assert(joined(f, seq![sep]) =~= s);
            assert forall|i: int| 0 <= i < f.len() implies !(#[trigger] f[i]).contains(sep) by {
                if i < g.len() {
                    assert(f[i] == g[i]);
                }
            }
        } else {
            assert(f.drop_last() =~= g.drop_last());
            if g.len() == 1 {
                assert(f[0] == g.last().push(s.last()));
                assert(joined(g, seq![sep]) == g[0]);
                assert(joined(f, seq![sep]) =~= s);
            } else {
                assert(joined(g, seq![sep]) == joined(g.drop_last(), seq![sep]) + seq![sep]
                    + g.last());
                assert(f.last() == g.last().push(s.last()));
                assert(joined(f, seq![sep]) =~= joined(g, seq![sep]).push(s.last()));
                assert(joined(f, seq![sep]) =~= s);
            }
            assert forall|i: int| 0 <= i < f.len() implies !(#[trigger] f[i]).contains(sep) by {
                if i < f.len() - 1 {
                    assert(f[i] == g[i]);
                } else {
                    let old = g[g.len() - 1];
                    assert(!old.contains(sep));
                    assert forall|j: int| 0 <= j < f[i].len() implies f[i][j] != sep by {
                        if j < old.len() {
                            assert(f[i][j] == old[j]);
                        }
                    }
                }
            }
        }
    }
}

/// A text that ends with a field without the separator has that field last.
proof fn lemma_fields_append(s: Seq<char>, part: Seq<char>, sep: char)
    requires
        !part.contains(sep),
    ensures
        fields(s + part, sep) == fields(s, sep).drop_last().push(fields(s, sep).last() + part),
    decreases part.len(),
{
    lemma_fields_nonempty(s, sep);
    let f = fields(s, sep);
    if part.len() == 0 {
        assert(s + part =~= s);
        assert(f.last() + part =~= f.last());
        assert(f.drop_last().push(f.last()) =~= f);
    } else {
        let less = part.drop_last();
        assert(part.contains(part.last()));
        assert forall|j: int| 0 <= j < less.len() implies less[j] != sep by {
            assert(part.contains(part[j]));
        }
        lemma_fields_append(s, less, sep);
        assert((s + part).drop_last() =~= s + less);
        let g = f.drop_last().push(f.last() + less);
        assert(g.drop_last() =~= f.drop_last());
        assert((f.last() + less).push(part.last()) =~= f.last() + part);
    }
}

/// Texts without the separator are the fields of the text that they make with a separator between
/// them.
pub proof fn lemma_join_fields(parts: Seq<Seq<char>>, sep: char)
    requires
        parts.len() >= 1,
        forall|i: int| 0 <= i < parts.len() ==> !(#[trigger] parts[i]).contains(sep),
    ensures
        fields(joined(parts, seq![sep]), sep) == parts,
    decreases parts.len(),
{
    let none = Seq::<char>::empty();
    if parts.len() == 1 {
        lemma_fields_append(none, parts[0], sep);
        assert(none + parts[0] =~= parts[0]);
        assert(fields(none, sep) =~= seq![none]);
        assert(fields(parts[0], sep) =~= parts);
    } else {
        let less = parts.drop_last();
        assert forall|i: int| 0 <= i < less.len() implies !(#[trigger] less[i]).contains(sep) by {
            assert(less[i] == parts[i]);
        }
        lemma_join_fields(less, sep);
        let head = joined(less, seq![sep]) + seq![sep];
        assert(head.drop_last() =~= joined(less, seq![sep]));
        assert(fields(head, sep) == less.push(none));
        assert(!parts[parts.len() - 1].contains(sep));
        lemma_fields_append(head, parts.last(), sep);
        assert(none + parts.last() =~= parts.last());
        assert(less.push(none).drop_last() =~= less);
        assert(joined(parts, seq![sep]) == head + parts.last());
        assert(less.push(parts.last()) =~= parts);
    }
}

/// Splits a text at every separator.
pub fn split_fields(s: &[char], sep: char) -> (r: Vec<Vec<char>>)
    ensures
        views(r@) == fields(s@, sep),
        r@.len() >= 1,
{
    let mut done: Vec<Vec<char>> = Vec::new();
    let mut current: Vec<char> = Vec::new();
    let mut i: usize = 0;
    assert(s@.take(0) == Seq::<char>::empty());
    assert(views(done@).push(current@) == fields(s@.take(0), sep));
    while i < s.len()
        invariant
            i <= s.len(),
            views(done@).push(current@) == fields(s@.take(i as int), sep),
        decreases s.len() - i,
    {
        let c = s[i];
        let ghost before = s@.take(i as int);
        let ghost after = s@.take(i + 1);
        let ghost old_done = done@;
        let ghost old_current = current@;
        assert(after.drop_last() == before);
        assert(after.last() == c);
        if c == sep {
            done.push(current);
            current = Vec::new();
            assert(views(done@) == views(old_done).push(old_current));
        } else {
            current.push(c);
            assert(views(old_done).push(old_current).drop_last() == views(old_done));
        }
        i = i + 1;
    }
    assert(s@.take(s@.len() as int) == s@);
    let ghost old_done = done@;
    let ghost last = current@;
    done.push(current);
    assert(views(done@) == views(old_done).push(last));
    done
}

/// A set of characters that can be trimmed from the ends of a text.
#[derive(Debug, Clone, Copy, PartialEq, Eq, Structural)]
pub enum CharClass {
    /// The characters with the Unicode property `White_Space`.
    Whitespace,
    /// Opening and closing square brackets.
    Brackets,
    /// One character.
    Only(char),
}

/// The characters with the Unicode property `White_Space`.
pub open spec fn is_whitespace(c: char) -> bool {
    let u: u32 = c as u32;
    ||| 0x09 <= u <= 0x0d
    ||| u == 0x20
    ||| u == 0x85
    ||| u == 0xa0
    ||| u == 0x1680
    ||| 0x2000 <= u <= 0x200a
    ||| u == 0x2028
    ||| u == 0x2029
    ||| u == 0x202f
    ||| u == 0x205f
    ||| u == 0x3000
}

impl CharClass {
    /// Whether the class holds the character.
    pub open spec fn has_char(self, c: char) -> bool {
        match self {
            CharClass::Whitespace => is_whitespace(c),
            CharClass::Brackets => c == '[' || c == ']',
            CharClass::Only(x) => c == x,
        }
    }

    /// Whether the class holds the character.
    pub fn holds(self, c: char) -> (r: bool)
        ensures
            r == self.has_char(c),
    {
        match self {
            CharClass::Whitespace => {
                let u: u32 = c as u32;
                (0x09 <= u && u <= 0x0d) || u == 0x20 || u == 0x85 || u == 0xa0 || u == 0x1680 || (
                0x2000 <= u && u <= 0x200a) || u == 0x2028 || u == 0x2029 || u == 0x202f || u
                    == 0x205f || u == 0x3000
            },
            CharClass::Brackets => c == '[' || c == ']',
            CharClass::Only(x) => c == x,
        }
    }
}

/// `s` without the leading characters of the class.
pub open spec fn trimmed_start(s: Seq<char>, class: CharClass) -> Seq<char>
    decreases s.len(),
{
    if s.len() > 0 && class.has_char(s[0]) {
        trimmed_start(s.skip(1), class)
    } else {
        s
    }
}

/// `s` without the trailing characters of the class.
pub open spec fn trimmed_end(s: Seq<char>, class: CharClass) -> Seq<char>
    decreases s.len(),
{
    if s.len() > 0 && class.has_char(s.last()) {
        trimmed_end(s.drop_last(), class)
    } else {
        s
    }
}

/// `s` without leading and trailing characters of the class.
pub open spec fn trimmed(s: Seq<char>, class: CharClass) -> Seq<char> {
    trimmed_end(trimmed_start(s, class), class)
}

/// Twenty-five characters are whitespace.
pub proof fn lemma_whitespace(c: char)
    ensures
        CharClass::Whitespace.has_char(c) <==> seq![
            0x9u32,
            0xa,
            0xb,
            0xc,
            0xd,
            0x20,
            0x85,
            0xa0,
            0x1680,
            0x2000,
            0x2001,
            0x2002,
            0x2003,
            0x2004,
            0x2005,
            0x2006,
            0x2007,
            0x2008,
            0x2009,
            0x200a,
            0x2028,
            0x2029,
            0x202f,
            0x205f,
            0x3000,
        ].contains(c as u32),
{
    let all = seq![
        0x9u32,
        0xa,
        0xb,
        0xc,
        0xd,
        0x20,
        0x85,
        0xa0,
        0x1680,
        0x2000,
        0x2001,
        0x2002,
        0x2003,
        0x2004,
        0x2005,
        0x2006,
        0x2007,
        0x2008,
        0x2009,
        0x200a,
        0x2028,
        0x2029,
        0x202f,
        0x205f,
        0x3000,
    ];
    let u = c as u32;
    if CharClass::Whitespace.has_char(c) {
        let i: int = if 0x09 <= u <= 0x0d {
            u - 0x09
        } else if u == 0x20 {
            5
        } else if u == 0x85 {
            6
        } else if u == 0xa0 {
            7
        } else if u == 0x1680 {
            8
        } else if 0x2000 <= u <= 0x200a {
            9 + (u - 0x2000)
        } else if u == 0x2028 {
            20
        } else if u == 0x2029 {
            21
        } else if u == 0x202f {
            22
        } else if u == 0x205f {
            23
        } else {
            24
        };
        assert(all[i] == u);
    }
}

/// Trimming takes away characters of the class at both ends, all of them, and nothing else.
pub proof fn lemma_trimmed(s: Seq<char>, class: CharClass)
    ensures
        trimmed(s, class).len() > 0 ==> !class.has_char(trimmed(s, class)[0]) && !class.has_char(
            trimmed(s, class).last(),
        ),
        exists|i: int, j: int|
            {
                &&& 0 <= i <= j <= s.len()
                &&& trimmed(s, class) == #[trigger] s.subrange(i, j)
                &&& forall|k: int| 0 <= k < i ==> class.has_char(#[trigger] s[k])
                &&& forall|k: int| j <= k < s.len() ==> class.has_char(#[trigger] s[k])
            },
{
    let i = lemma_trimmed_start(s, class);
    let t = s.skip(i);
    let n = lemma_trimmed_end(t, class);
    assert(t.take(n) =~= s.subrange(i, i + n));
    assert forall|k: int| i + n <= k < s.len() implies class.has_char(#[trigger] s[k]) by {
        assert(t[k - i] == s[k]);
    }
    if n > 0 {
        assert(t.take(n)[0] == t[0]);
        assert(t.take(n).last() == t[n - 1]);
    }
}

/// How many characters are taken away at the start.
proof fn lemma_trimmed_start(s: Seq<char>, class: CharClass) -> (i: int)
    ensures
        0 <= i <= s.len(),
        trimmed_start(s, class) == s.skip(i),
        forall|k: int| 0 <= k < i ==> class.has_char(#[trigger] s[k]),
        i < s.len() ==> !class.has_char(s[i]),
    decreases s.len(),
{
    if s.len() > 0 && class.has_char(s[0]) {
        let rest = s.skip(1);
        let i = lemma_trimmed_start(rest, class);
        assert(rest.skip(i) =~= s.skip(i + 1));
        assert forall|k: int| 0 <= k < i + 1 implies class.has_char(#[trigger] s[k]) by {
            if k > 0 {
                assert(rest[k - 1] == s[k]);
            }
        }
        i + 1
    } else {
        assert(s.skip(0) =~= s);
        0
    }
}

/// How many characters are left of a text that is trimmed at the end.
proof fn lemma_trimmed_end(s: Seq<char>, class: CharClass) -> (n: int)
    ensures
        0 <= n <= s.len(),
        trimmed_end(s, class) == s.take(n),
        forall|k: int| n <= k < s.len() ==> class.has_char(#[trigger] s[k]),
        n > 0 ==> !class.has_char(s[n - 1]),
    decreases s.len(),
{
    if s.len() > 0 && class.has_char(s.last()) {
        let rest = s.drop_last();
        let n = lemma_trimmed_end(rest, class);
        assert(rest.take(n) =~= s.take(n));
        assert forall|k: int| n <= k < s.len() implies class.has_char(#[trigger] s[k]) by {
            if k < rest.len() {
                assert(rest[k] == s[k]);
            }
        }
        n
    } else {
        assert(s.take(s.len() as int) =~= s);
        s.len() as int
    }
}

/// Drops the leading characters of the class.
pub fn trim_start<'a>(s: &'a [char], class: CharClass) -> (r: &'a [char])
    ensures
        r@ == trimmed_start(s@, class),
{
    let mut i: usize = 0;
    assert(s@.skip(0) == s@);
    while i < s.len() && class.holds(s[i])
        invariant
            i <= s.len(),
            trimmed_start(s@.skip(i as int), class) == trimmed_start(s@, class),
        decreases s.len() - i,
    {
        assert(s@.skip(i as int).skip(1) == s@.skip(i + 1));
        i = i + 1;
    }
    assert(s@.subrange(i as int, s@.len() as int) == s@.skip(i as int));
    &s[i..s.len()]
}

/// Drops the trailing characters of the class.
pub fn trim_end<'a>(s: &'a [char], class: CharClass) -> (r: &'a [char])
    ensures
        r@ == trimmed_end(s@, class),
{
    let mut n: usize = s.len();
    assert(s@.take(n as int) == s@);
    while n > 0 && class.holds(s[n - 1])
        invariant
            n <= s.len(),
            trimmed_end(s@.take(n as int), class) == trimmed_end(s@, class),
        decreases n,
    {
        assert(s@.take(n as int).drop_last() == s@.take(n - 1));
        n = n - 1;
    }
    assert(s@.subrange(0, n as int) == s@.take(n as int));
    &s[0..n]
}

/// Drops leading and trailing characters of the class.
pub fn trim<'a>(s: &'a [char], class: CharClass) -> (r: &'a [char])
    ensures
        r@ == trimmed(s@, class),
{
    let head = trim_start(s, class);
    trim_end(head, class)
}

/// The decimal digit of a number below ten.
pub open spec fn digit_char(d: nat) -> char {
    ('0' as u32 + d) as char
}

/// A number in decimal notation.
pub open spec fn decimal(n: nat) -> Seq<char>
    decreases n,
{
    if n < 10 {
        seq![digit_char(n)]
    } else {
        decimal(n / 10).push(digit_char(n % 10))
    }
}

/// Appends a number in decimal notation.
pub fn push_decimal(out: &mut String, n: u32)
    ensures
        final(out)@ == old(out)@ + decimal(n as nat),
    decreases n,
{
    if n >= 10 {
        push_decimal(out, n / 10);
    }
    let d: u8 = (n % 10) as u8;
    let ghost mid = out@;
    out.push((48u8 + d) as char);
    assert(n >= 10 ==> mid.push(digit_char((n % 10) as nat)) == old(out)@ + decimal(n as nat));
    assert(n < 10 ==> mid.push(digit_char((n % 10) as nat)) == old(out)@ + decimal(n as nat));
}

/// A signed number in decimal notation.
pub open spec fn signed_decimal(n: int) -> Seq<char> {
    if n < 0 {
        "-"@ + decimal((-n) as nat)
    } else {
        decimal(n as nat)
    }
}

/// A digit is written as itself, and ten times a number and a digit as the number followed by the
/// digit.
pub proof fn lemma_decimal_positions(n: nat, d: nat)
    requires
        d < 10,
    ensures
        decimal(d) == seq!["0123456789"@[d as int]],
        n > 0 ==> decimal(10 * n + d) == decimal(n).push("0123456789"@[d as int]),
{
    reveal_strlit("0123456789");
    assert(digit_char(d) == "0123456789"@[d as int]);
    assert((10 * n + d) / 10 == n);
    assert((10 * n + d) % 10 == d);
}

/// A written number is read back: it is made of digits, the first of which is a zero only for zero
/// itself.
pub proof fn lemma_decimal_roundtrip(n: nat)
    ensures
        decimal(n).len() >= 1,
        all_decimal(decimal(n)),
        decimal_value(decimal(n)) == n,
        n > 0 ==> decimal(n)[0] != '0',
    decreases n,
{
    let s = decimal(n);
    let last = digit_char(n % 10);
    assert('0' <= last <= '9');
    assert(last as u32 - '0' as u32 == n % 10);
    if n < 10 {
        assert(s.drop_last() =~= Seq::<char>::empty());
        assert(decimal_value(Seq::<char>::empty()) == 0);
        assert(s.last() == last);
    } else {
        let head = decimal(n / 10);
        lemma_decimal_roundtrip(n / 10);
        assert(s.drop_last() =~= head);
        assert forall|i: int| 0 <= i < s.len() implies '0' <= #[trigger] s[i] <= '9' by {
            if i < head.len() {
                assert(s[i] == head[i]);
            }
        }
        assert(s[0] == head[0]);
    }
}

/// The digits of a number without a leading zero write that number.
pub proof fn lemma_decimal_canonical(s: Seq<char>)
    requires
        s.len() >= 1,
        all_decimal(s),
        s.len() == 1 || s[0] != '0',
    ensures
        decimal(decimal_value(s)) == s,
        s[0] != '0' ==> decimal_value(s) > 0,
    decreases s.len(),
{
    let head = s.drop_last();
    let d = (s.last() as u32 - '0' as u32) as nat;
    assert(d < 10);
    assert(digit_char(d) == s.last());
    if s.len() == 1 {
        assert(decimal_value(head) == 0);
        assert(seq![s.last()] =~= s);
    } else {
        assert(forall|i: int| 0 <= i < head.len() ==> head[i] == s[i]);
        assert(head[0] == s[0]);
        lemma_decimal_canonical(head);
        assert(decimal_value(s) / 10 == decimal_value(head));
        assert(decimal_value(s) % 10 == d);
        assert(head.push(s.last()) =~= s);
    }
}

/// Reading gives back the number that was written with its sign.
pub proof fn lemma_signed_roundtrip(n: int)
    requires
        i32::MIN <= n <= i32::MAX,
    ensures
        number_of_text(signed_decimal(n)) == Some(n),
        n >= 0 ==> number_of_text(seq!['+'] + decimal(n as nat)) == Some(n),
        n < 0 <==> signed_decimal(n)[0] == '-',
{
    let m = (if n < 0 {
        -n
    } else {
        n
    }) as nat;
    lemma_decimal_roundtrip(m);
    reveal_strlit("-");
    assert('0' <= decimal(m)[0] <= '9');
    assert(("-"@ + decimal(m)).skip(1) =~= decimal(m));
    assert((seq!['+'] + decimal(m)).skip(1) =~= decimal(m));
    assert(("-"@ + decimal(m))[0] == '-');
    assert((seq!['+'] + decimal(m))[0] == '+');
}

/// Appends a signed number in decimal notation.
pub fn push_signed(out: &mut String, n: i32)
    ensures
        final(out)@ == old(out)@ + signed_decimal(n as int),
{
    let ghost before = out@;
    if n < 0 {
        out.append("-");
        push_decimal(out, (-(n as i64)) as u32);
        assert(out@ =~= before + signed_decimal(n as int));
    } else {
        push_decimal(out, n as u32);
    }
}

/// Whether every character is a decimal digit.
pub open spec fn all_decimal(s: Seq<char>) -> bool {
    forall|i: int| 0 <= i < s.len() ==> '0' <= #[trigger] s[i] <= '9'
}

/// The number that decimal digits write.
pub open spec fn decimal_value(s: Seq<char>) -> nat
    decreases s.len(),
{
    if s.len() == 0 {
        0
    } else {
        decimal_value(s.drop_last()) * 10 + (s.last() as u32 - '0' as u32) as nat
    }
}

/// The number that a text writes with an optional sign, if it is between -2^31 and 2^31 - 1.
pub open spec fn number_of_text(s: Seq<char>) -> Option<int> {
    let signed = s.len() > 0 && (s[0] == '-' || s[0] == '+');
    let digits = if signed {
        s.skip(1)
    } else {
        s
    };
    let n = if signed && s[0] == '-' {
        -(decimal_value(digits) as int)
    } else {
        decimal_value(digits) as int
    };
    if digits.len() > 0 && all_decimal(digits) && i32::MIN <= n <= i32::MAX {
        Some(n)
    } else {
        None
    }
}

/// More digits never write a smaller number.
proof fn lemma_decimal_value_grows(s: Seq<char>, k: int)
    requires
        0 <= k <= s.len(),
        all_decimal(s),
    ensures
        decimal_value(s.take(k)) <= decimal_value(s),
    decreases s.len() - k,
{
    if k < s.len() {
        lemma_decimal_value_grows(s, k + 1);
        assert(s.take(k + 1).drop_last() == s.take(k));
        assert(s.take(k + 1).last() == s[k]);
    } else {
        assert(s.take(k) == s);
    }
}

/// Reads a number of up to 31 bits with an optional sign.
pub fn parse_number(s: &[char]) -> (r: Option<i32>)
    ensures
        match r {
            Some(n) => number_of_text(s@) == Some(n as int),
            None => number_of_text(s@) is None,
        },
{
    let len: usize = s.len();
    let signed = len > 0 && (s[0] == '-' || s[0] == '+');
    let negative = len > 0 && s[0] == '-';
    let start: usize = if signed {
        1
    } else {
        0
    };
    let ghost digits = s@.skip(start as int);
    assert(!signed ==> digits == s@);
    if start == len {
        return None;
    }
    let mut value: u64 = 0;
    let mut i: usize = start;
    assert(digits.take(0) == Seq::<char>::empty());
    while i < len
        invariant
            start <= i <= len,
            len == s@.len(),
            start == 0 || start == 1,
            digits == s@.skip(start as int),
            !signed ==> digits == s@,
            all_decimal(digits.take(i - start)),
            value == decimal_value(digits.take(i - start)),
            value <= 2147483648,
            signed == (s@.len() > 0 && (s@[0] == '-' || s@[0] == '+')),
            start == (if signed {
                1int
            } else {
                0int
            }),
        decreases len - i,
    {
        let c = s[i];
        let ghost before = digits.take(i - start);
        let ghost after = digits.take(i - start + 1);
        assert(after.drop_last() == before);
        assert(after.last() == c);
        assert(digits[i - start] == c);
        if !('0' <= c && c <= '9') {
            assert(!all_decimal(digits));
            return None;
        }
        assert(all_decimal(after)) by {
            assert forall|j: int| 0 <= j < after.len() implies '0' <= #[trigger] after[j] <= '9' by {
                if j < before.len() {
                    assert(after[j] == before[j]);
                }
            }
        }
        value = value * 10 + (c as u32 - 48) as u64;
        if value > 2147483648 {
            proof {
                assert(decimal_value(after) == value);
                if all_decimal(digits) {
                    lemma_decimal_value_grows(digits, i - start + 1);
                }
            }
            return None;
        }
        i = i + 1;
    }
    assert(digits.take(digits.len() as int) == digits);
    if negative {
        Some((-(value as i64)) as i32)
    } else if value <= 2147483647 {
        Some(value as i32)
    } else {
        None
    }
}

/// A character takes at most four bytes.
pub proof fn lemma_utf8_length(s: Seq<char>)
    ensures
        encode_utf8(s).len() <= 4 * s.len(),
    decreases s.len(),
{
    if s.len() > 0 {
        lemma_utf8_length(s.drop_first());
    }
}

/// The texts of a list with a separator between them.
pub open spec fn joined(parts: Seq<Seq<char>>, sep: Seq<char>) -> Seq<char>
    decreases parts.len(),
{
    if parts.len() == 0 {
        Seq::empty()
    } else if parts.len() == 1 {
        parts[0]
    } else {
        joined(parts.drop_last(), sep) + sep + parts.last()
    }
}

/// A text that is put behind others stands behind a separator, unless it is the first.
pub proof fn lemma_joined(parts: Seq<Seq<char>>, part: Seq<char>, sep: Seq<char>)
    ensures
        joined(seq![part], sep) == part,
        parts.len() > 0 ==> joined(parts.push(part), sep) == joined(parts, sep) + sep + part,
{
    assert(parts.push(part).drop_last() =~= parts);
}

/// What is read as a number is made of digits behind at most one sign.
pub proof fn lemma_number_form(s: Seq<char>)
    requires
        number_of_text(s) is Some,
    ensures
        s.len() >= 1,
        '0' <= s[0] <= '9' || (s.len() >= 2 && (s[0] == '+' || s[0] == '-')),
        forall|i: int| 1 <= i < s.len() ==> '0' <= #[trigger] s[i] <= '9',
        s[0] != '-' ==> number_of_text(s)->0 >= 0,
        s[0] == '-' ==> number_of_text(s)->0 <= 0,
{
    let digits = if s[0] == '-' || s[0] == '+' {
        s.skip(1)
    } else {
        s
    };
    assert forall|i: int| 1 <= i < s.len() implies '0' <= #[trigger] s[i] <= '9' by {
        if digits == s {
            assert('0' <= digits[i] <= '9');
        } else {
            assert('0' <= digits[i - 1] <= '9');
        }
    }
    if digits == s {
        assert('0' <= digits[0] <= '9');
    }
}

/// The views of a list of strings.
pub open spec fn texts(v: Seq<String>) -> Seq<Seq<char>> {
    Seq::new(v.len(), |i: int| v[i]@)
}

/// Puts texts together with a separator between them.
pub fn join(parts: &[String], sep: &str) -> (r: String)
    ensures
        r@ == joined(texts(parts@), sep@),
{
    let mut out = String::new();
    let mut i: usize = 0;
    let ghost all = texts(parts@);
    while i < parts.len()
        invariant
            i <= parts.len(),
            all == texts(parts@),
            out@ == joined(all.take(i as int), sep@),
        decreases parts.len() - i,
    {
        let ghost more = all.take(i + 1);
        assert(more.drop_last() == all.take(i as int));
        assert(more.last() == parts@[i as int]@);
        if i > 0 {
            out.append(sep);
        }
        out.append(parts[i].as_str());
        assert(out@ =~= joined(more, sep@));
        i = i + 1;
    }
    assert(all.take(all.len() as int) == all);
    out
}

} // verus!
