//! Which destinations go through a proxy.

use vstd::prelude::*;

use super::builder::intercept_of_text;
use super::builder::specific_or;
use super::builder::Builder;
use super::builder::Environment;
use super::no_proxy::domain_entries;
use super::no_proxy::ip_entries;
use super::no_proxy::ip_views;
use super::no_proxy::list_entries;
use super::no_proxy::Ip;
use super::no_proxy::NoProxy;
use super::utils::first_value;
use super::utils::shows;
use crate::header::value_view;
use crate::header::FieldValue;
use crate::header::FieldValueView;
use crate::text::texts;
use crate::uri::Uri;
use crate::uri::UriView;

verus! {

/// A proxy matcher built using standard environment variables.
pub struct Matcher {
    pub http: Option<Intercept>,
    pub https: Option<Intercept>,
    pub no: NoProxy,
}

/// A proxy to go through, and how to authenticate with it.
pub struct Intercept {
    pub uri: Uri,
    pub basic_auth: Option<FieldValue>,
    pub raw_auth: Option<(String, String)>,
}

/// What an intercept says.
#[verifier::ext_equal]
pub struct InterceptView {
    pub uri: UriView,
    pub basic_auth: Option<FieldValueView>,
    pub raw_auth: Option<(Seq<char>, Seq<char>)>,
}

impl View for Intercept {
    type V = InterceptView;

    open spec fn view(&self) -> InterceptView {
        InterceptView {
            uri: self.uri@,
            basic_auth: value_view(self.basic_auth),
            raw_auth: match self.raw_auth {
                Some((user, pass)) => Some((user@, pass@)),
                None => None,
            },
        }
    }
}

impl Clone for Intercept {
    fn clone(&self) -> (r: Self)
        ensures
            r@ == self@,
    {
        Intercept {
            uri: self.uri.clone(),
            basic_auth: match &self.basic_auth {
                Some(v) => Some(v.clone()),
                None => None,
            },
            raw_auth: match &self.raw_auth {
                Some((user, pass)) => Some((user.clone(), pass.clone())),
                None => None,
            },
        }
    }
}

impl Intercept {
    /// The address of the proxy.
    pub fn uri(&self) -> (r: &Uri)
        ensures
            *r == self.uri,
    {
        &self.uri
    }

    /// The header value to authenticate with, for a proxy that speaks HTTP.
    pub fn basic_auth(&self) -> (r: Option<&FieldValue>)
        ensures
            r == (match self.basic_auth {
                Some(v) => Some(&v),
                None => None,
            }),
    {
        self.basic_auth.as_ref()
    }

    /// User and password to authenticate with, for other proxies.
    pub fn raw_auth(&self) -> (r: Option<(&str, &str)>)
        ensures
            match (r, self.raw_auth) {
                (Some((u, p)), Some((user, pass))) => u@ == user@ && p@ == pass@,
                (None, None) => true,
                _ => false,
            },
    {
        match &self.raw_auth {
            Some((user, pass)) => Some((user.as_str(), pass.as_str())),
            None => None,
        }
    }
}

impl Matcher {
    /// The rule for a destination: none without a host, none for hosts that bypass the proxy, and
    /// otherwise the one of the destination's scheme.
    pub open spec fn rule(self, dst: UriView) -> Option<Intercept> {
        match dst.host() {
            None => None,
            Some(host) => if self.no.covers(host) {
                None
            } else if dst.scheme == Some("http"@) {
                self.http
            } else if dst.scheme == Some("https"@) {
                self.https
            } else {
                None
            },
        }
    }

    /// Create a matcher of the settings of an environment.
    pub fn from_env(env: &Environment) -> (r: Self)
        ensures
            env.is_cgi ==> {
                &&& r.http is None
                &&& r.https is None
                &&& r.no.ips.0@ == Seq::<Ip>::empty()
                &&& r.no.domains.0@ == Seq::<String>::empty()
            },
            !env.is_cgi ==> {
                &&& shows(
                    r.http,
                    specific_or(
                        intercept_of_text(first_value(env.http@)),
                        intercept_of_text(first_value(env.all@)),
                    ),
                )
                &&& shows(
                    r.https,
                    specific_or(
                        intercept_of_text(first_value(env.https@)),
                        intercept_of_text(first_value(env.all@)),
                    ),
                )
                &&& ip_views(r.no.ips.0@) == ip_entries(list_entries(first_value(env.no@)))
                &&& texts(r.no.domains.0@) == domain_entries(list_entries(first_value(env.no@)))
            },
    {
        Builder::from_env(env).build()
    }

    /// Create a builder to configure a Matcher programmatically.
    pub fn builder() -> (r: Builder)
        ensures
            r.is_default(),
    {
        Builder::default()
    }

    /// Check if the destination should be intercepted by a proxy.
    ///
    /// If the proxy rules match the destination, the proxy to connect to is returned.
    pub fn intercept(&self, dst: &Uri) -> (r: Option<&Intercept>)
        ensures
            r == (match self.rule(dst@) {
                Some(i) => Some(&i),
                None => None,
            }),
    {
        match dst.host() {
            None => {
                return None;
            },
            Some(host) => {
                if self.no.contains(host) {
                    return None;
                }
            },
        }
        proof {
            reveal_strlit("http");
            reveal_strlit("https");
            assert("http"@.len() != "https"@.len());
        }
        if dst.has_scheme("http") {
            self.http.as_ref()
        } else if dst.has_scheme("https") {
            self.https.as_ref()
        } else {
            None
        }
    }
}

/// A destination goes through the proxy of its scheme, `http` or `https`, unless its host bypasses
/// it. Without a host, or with another scheme, it goes through none.
pub proof fn lemma_rule(m: Matcher, dst: UriView)
    ensures
        dst.authority is None ==> m.rule(dst) is None,
        dst.authority is Some && m.no.covers(dst.authority->0.host) ==> m.rule(dst) is None,
        dst.authority is Some && !m.no.covers(dst.authority->0.host) && dst.scheme == Some("http"@)
            ==> m.rule(dst) == m.http,
        dst.authority is Some && !m.no.covers(dst.authority->0.host) && dst.scheme == Some("https"@)
            ==> m.rule(dst) == m.https,
        dst.scheme != Some("http"@) && dst.scheme != Some("https"@) ==> m.rule(dst) is None,
{
    reveal_strlit("http");
    reveal_strlit("https");
    assert("http"@.len() != "https"@.len());
}

} // verus!
