//! URIs, as the values that decisions are made on.

use vstd::prelude::*;

use crate::text::same_text;

verus! {

/// Where a URI points: the text of its authority, and the host and port in it.
#[derive(Debug, PartialEq, Eq)]
pub struct Authority {
    /// The authority as written, with any user information.
    pub text: String,
    /// The host, with the brackets of an IPv6 literal.
    pub host: String,
    /// The port, if one is written.
    pub port: Option<u16>,
}

/// A URI by its components.
#[derive(Debug, PartialEq, Eq)]
pub struct Uri {
    /// The scheme, `http` and `https` in lower case.
    pub scheme: Option<String>,
    pub authority: Option<Authority>,
    /// The path and the query. Absent in the authority form.
    pub path_and_query: Option<String>,
}

/// What an authority says.
#[verifier::ext_equal]
pub struct AuthorityView {
    pub text: Seq<char>,
    pub host: Seq<char>,
    pub port: Option<u16>,
}

/// What a URI says.
#[verifier::ext_equal]
pub struct UriView {
    pub scheme: Option<Seq<char>>,
    pub authority: Option<AuthorityView>,
    pub path_and_query: Option<Seq<char>>,
}

/// The view of an optional text.
pub open spec fn text_view(t: Option<String>) -> Option<Seq<char>> {
    match t {
        Some(t) => Some(t@),
        None => None,
    }
}

impl View for Authority {
    type V = AuthorityView;

    open spec fn view(&self) -> AuthorityView {
        AuthorityView { text: self.text@, host: self.host@, port: self.port }
    }
}

impl View for Uri {
    type V = UriView;

    open spec fn view(&self) -> UriView {
        UriView {
            scheme: text_view(self.scheme),
            authority: match self.authority {
                Some(a) => Some(a@),
                None => None,
            },
            path_and_query: text_view(self.path_and_query),
        }
    }
}

impl UriView {
    /// The host, if there is an authority.
    pub open spec fn host(self) -> Option<Seq<char>> {
        match self.authority {
            Some(a) => Some(a.host),
            None => None,
        }
    }

    /// The port, if one is written.
    pub open spec fn port(self) -> Option<u16> {
        match self.authority {
            Some(a) => a.port,
            None => None,
        }
    }

    /// The URI as text. A query without a path follows a slash.
    pub open spec fn text(self) -> Seq<char> {
        (match self.scheme {
            Some(s) => s + "://"@,
            None => Seq::empty(),
        }) + (match self.authority {
            Some(a) => a.text,
            None => Seq::empty(),
        }) + (match self.path_and_query {
            Some(p) => if p.len() > 0 && p[0] == '?' {
                "/"@ + p
            } else {
                p
            },
            None => Seq::empty(),
        })
    }
}

/// What `http::Uri` reads in a text.
pub uninterp spec fn uri_of_text(s: Seq<char>) -> Option<UriView>;

/// What `http::uri::Builder` makes of a scheme, an authority and a path.
pub uninterp spec fn uri_of_parts(
    scheme: Seq<char>,
    authority: Seq<char>,
    path: Seq<char>,
) -> Option<UriView>;

/// `str::parse::<http::Uri>` reads a URI of at most 65534 bytes, and so with no longer an
/// authority. What it accepts and how it takes the text apart is left to the name `uri_of_text`.
#[verifier::external_body]
fn http_parse(s: &str) -> (r: Option<Uri>)
    ensures
        match r {
            Some(u) => uri_of_text(s@) == Some(u@) && (u@.authority matches Some(a) ==> a.text.len()
                <= 65534),
            None => uri_of_text(s@) is None,
        },
{
    let u = s.parse::<http::Uri>().ok()?;
    let authority = u.authority().map(
        |a| Authority { text: a.as_str().to_owned(), host: a.host().to_owned(), port: a.port_u16() },
    );
    Some(
        Uri {
            scheme: u.scheme_str().map(|s| s.to_owned()),
            authority,
            path_and_query: u.path_and_query().map(|p| p.as_str().to_owned()),
        },
    )
}

/// `http::uri::Builder` checks each component by itself and, where all are accepted, makes a URI
/// that holds the scheme and the authority as given, and the path as given where it is a slash.
/// Which components it accepts is left to the name `uri_of_parts`.
#[verifier::external_body]
fn http_build(scheme: &str, authority: &str, path: &str) -> (r: Option<Uri>)
    ensures
        match r {
            Some(u) => {
                &&& uri_of_parts(scheme@, authority@, path@) == Some(u@)
                &&& u@.scheme == Some(scheme@)
                &&& u@.authority is Some
                &&& u@.authority->0.text == authority@
                &&& path@ == "/"@ ==> u@.path_and_query == Some("/"@)
            },
            None => uri_of_parts(scheme@, authority@, path@) is None,
        },
{
    let u = http::Uri::builder().scheme(scheme).authority(authority).path_and_query(path).build().ok()?;
    let authority = u.authority().map(
        |a| Authority { text: a.as_str().to_owned(), host: a.host().to_owned(), port: a.port_u16() },
    );
    Some(
        Uri {
            scheme: u.scheme_str().map(|s| s.to_owned()),
            authority,
            path_and_query: u.path_and_query().map(|p| p.as_str().to_owned()),
        },
    )
}

/// Copies an optional text.
pub fn clone_text(t: &Option<String>) -> (r: Option<String>)
    ensures
        r == *t,
{
    match t {
        Some(t) => Some(t.clone()),
        None => None,
    }
}

impl Clone for Authority {
    fn clone(&self) -> (r: Self)
        ensures
            r == *self,
    {
        Authority { text: self.text.clone(), host: self.host.clone(), port: self.port }
    }
}

impl Clone for Uri {
    fn clone(&self) -> (r: Self)
        ensures
            r == *self,
    {
        Uri {
            scheme: clone_text(&self.scheme),
            authority: match &self.authority {
                Some(a) => Some(a.clone()),
                None => None,
            },
            path_and_query: clone_text(&self.path_and_query),
        }
    }
}

impl Uri {
    /// Reads a URI from text.
    pub fn parse(s: &str) -> (r: Option<Uri>)
        ensures
            match r {
                Some(u) => uri_of_text(s@) == Some(u@) && (u@.authority matches Some(a)
                    ==> a.text.len() <= 65534),
                None => uri_of_text(s@) is None,
            },
    {
        http_parse(s)
    }

    /// Makes a URI with the path `/` of a scheme and an authority.
    pub fn root(scheme: &str, authority: &str) -> (r: Option<Uri>)
        ensures
            match r {
                Some(u) => {
                    &&& uri_of_parts(scheme@, authority@, "/"@) == Some(u@)
                    &&& u@.scheme == Some(scheme@)
                    &&& u@.authority is Some
                    &&& u@.authority->0.text == authority@
                    &&& u@.path_and_query == Some("/"@)
                },
                None => uri_of_parts(scheme@, authority@, "/"@) is None,
            },
    {
        http_build(scheme, authority, "/")
    }

    /// The host, if there is an authority.
    pub fn host(&self) -> (r: Option<&str>)
        ensures
            match r {
                Some(h) => self@.host() == Some(h@),
                None => self@.host() is None,
            },
    {
        match &self.authority {
            Some(a) => Some(a.host.as_str()),
            None => None,
        }
    }

    /// The port, if one is written.
    pub fn port(&self) -> (r: Option<u16>)
        ensures
            r == self@.port(),
    {
        match &self.authority {
            Some(a) => a.port,
            None => None,
        }
    }

    /// Whether the URI has the given scheme.
    pub fn has_scheme(&self, scheme: &str) -> (r: bool)
        ensures
            r == (self@.scheme == Some(scheme@)),
    {
        match &self.scheme {
            Some(s) => same_text(s.as_str(), scheme),
            None => false,
        }
    }

    /// The URI as text.
    pub fn to_text(&self) -> (r: String)
        ensures
            r@ == self@.text(),
    {
        let mut out = String::new();
        if let Some(s) = &self.scheme {
            out.append(s.as_str());
            out.append("://");
        }
        let ghost scheme_part = out@;
        if let Some(a) = &self.authority {
            out.append(a.text.as_str());
        }
        let ghost authority_part = out@;
        if let Some(p) = &self.path_and_query {
            let path = p.as_str();
            if path.unicode_len() > 0 && path.get_char(0) == '?' {
                out.append("/");
            }
            out.append(path);
        }
        assert(out@ =~= self@.text());
        out
    }
}

/// A URI in text, from its parts: two slashes and a colon stand between scheme and authority.
pub proof fn lemma_uri_text(scheme: Seq<char>, authority: AuthorityView, path: Seq<char>)
    requires
        path.len() > 0,
        path[0] == '/',
    ensures
        (UriView { scheme: None, authority: None, path_and_query: Some(path) }).text() == path,
        (UriView { scheme: None, authority: Some(authority), path_and_query: None }).text()
            == authority.text,
        (UriView { scheme: Some(scheme), authority: Some(authority), path_and_query: Some(path) }).text()
            == scheme + seq![':', '/', '/'] + authority.text + path,
        (UriView { scheme: None, authority: None, path_and_query: Some(seq!['?'] + path) }).text()
            == seq!['/', '?'] + path,
{
    reveal_strlit("://");
    reveal_strlit("/");
    assert("://"@ =~= seq![':', '/', '/']);
    let none = Seq::<char>::empty();
    assert(none + none + path =~= path);
    assert(none + authority.text + none =~= authority.text);
    assert("/"@ + (seq!['?'] + path) =~= seq!['/', '?'] + path);
    assert(none + none + (seq!['/', '?'] + path) =~= seq!['/', '?'] + path);
    assert(scheme + seq![':', '/', '/'] + authority.text + path =~= (scheme + "://"@)
        + authority.text + path);
}

} // verus!
