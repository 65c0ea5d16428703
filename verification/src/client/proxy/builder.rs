//! The settings of a proxy matcher.

use vstd::prelude::*;

use super::matcher::InterceptView;
use super::matcher::Matcher;
use super::no_proxy::domain_entries;
use super::no_proxy::ip_entries;
use super::no_proxy::ip_views;
use super::no_proxy::list_entries;
use super::no_proxy::Ip;
use super::no_proxy::NoProxy;
use super::utils::first_set;
use super::utils::first_value;
use super::utils::intercept_of_uri;
use super::utils::parse_env_uri;
use super::utils::shows;
use crate::text::texts;
use crate::uri::uri_of_text;

verus! {

/// The settings of a proxy matcher, as text. Under CGI no proxy is used, since a request could set
/// the variable for it.
pub struct Builder {
    pub is_cgi: bool,
    pub all: String,
    pub http: String,
    pub https: String,
    pub no: String,
}

/// The values of the environment variables that configure proxies, each under its names in order
/// of preference, and whether the program runs under CGI.
pub struct Environment {
    pub is_cgi: bool,
    pub all: Vec<Option<String>>,
    pub http: Vec<Option<String>>,
    pub https: Vec<Option<String>>,
    pub no: Vec<Option<String>>,
}

impl Default for Builder {
    fn default() -> (r: Self)
        ensures
            r.is_default(),
    {
        Builder {
            is_cgi: false,
            all: String::new(),
            http: String::new(),
            https: String::new(),
            no: String::new(),
        }
    }
}

/// The proxy that a setting describes.
pub open spec fn intercept_of_text(s: Seq<char>) -> Option<InterceptView> {
    match uri_of_text(s) {
        Some(u) => intercept_of_uri(u),
        None => None,
    }
}

/// The more specific setting, or else the general one.
pub open spec fn specific_or(
    specific: Option<InterceptView>,
    general: Option<InterceptView>,
) -> Option<InterceptView> {
    if specific is Some {
        specific
    } else {
        general
    }
}

impl Builder {
    /// Whether nothing is set.
    pub open spec fn is_default(self) -> bool {
        !self.is_cgi && self.all@.len() == 0 && self.http@.len() == 0 && self.https@.len() == 0
            && self.no@.len() == 0
    }

    /// The settings of the environment: of each variable the first of its names that is set.
    pub fn from_env(env: &Environment) -> (r: Builder)
        ensures
            r.is_cgi == env.is_cgi,
            r.all@ == first_value(env.all@),
            r.http@ == first_value(env.http@),
            r.https@ == first_value(env.https@),
            r.no@ == first_value(env.no@),
    {
        Builder {
            is_cgi: env.is_cgi,
            all: first_set(env.all.as_slice()),
            http: first_set(env.http.as_slice()),
            https: first_set(env.https.as_slice()),
            no: first_set(env.no.as_slice()),
        }
    }

    /// Set a proxy for all schemes (ALL_PROXY equivalent).
    pub fn all_proxy(self, proxy: &str) -> (r: Self)
        ensures
            r.all@ == proxy@,
            r == (Builder { all: r.all, ..self }),
    {
        let mut this = self;
        this.all = proxy.to_owned();
        this
    }

    /// Set a proxy for HTTP schemes (HTTP_PROXY equivalent).
    pub fn http_proxy(self, proxy: &str) -> (r: Self)
        ensures
            r.http@ == proxy@,
            r == (Builder { http: r.http, ..self }),
    {
        let mut this = self;
        this.http = proxy.to_owned();
        this
    }

    /// Set a proxy for HTTPS schemes (HTTPS_PROXY equivalent).
    pub fn https_proxy(self, proxy: &str) -> (r: Self)
        ensures
            r.https@ == proxy@,
            r == (Builder { https: r.https, ..self }),
    {
        let mut this = self;
        this.https = proxy.to_owned();
        this
    }

    /// Set no-proxy rules (NO_PROXY equivalent).
    pub fn no_proxy(self, no_proxy: &str) -> (r: Self)
        ensures
            r.no@ == no_proxy@,
            r == (Builder { no: r.no, ..self }),
    {
        let mut this = self;
        this.no = no_proxy.to_owned();
        this
    }

    /// The matcher of these settings: each scheme goes through its own proxy if its setting can be
    /// used, and otherwise through the one for all schemes.
    pub fn build(self) -> (r: Matcher)
        ensures
            self.is_cgi ==> {
                &&& r.http is None
                &&& r.https is None
                &&& r.no.ips.0@ == Seq::<Ip>::empty()
                &&& r.no.domains.0@ == Seq::<String>::empty()
            },
            !self.is_cgi ==> {
                &&& shows(
                    r.http,
                    specific_or(intercept_of_text(self.http@), intercept_of_text(self.all@)),
                )
                &&& shows(
                    r.https,
                    specific_or(intercept_of_text(self.https@), intercept_of_text(self.all@)),
                )
                &&& ip_views(r.no.ips.0@) == ip_entries(list_entries(self.no@))
                &&& texts(r.no.domains.0@) == domain_entries(list_entries(self.no@))
            },
            !self.is_cgi && intercept_of_text(self.http@) is Some ==> shows(
                r.http,
                intercept_of_text(self.http@),
            ),
            !self.is_cgi && intercept_of_text(self.https@) is Some ==> shows(
                r.https,
                intercept_of_text(self.https@),
            ),
            !self.is_cgi && intercept_of_text(self.http@) is None ==> shows(
                r.http,
                intercept_of_text(self.all@),
            ),
            !self.is_cgi && intercept_of_text(self.https@) is None ==> shows(
                r.https,
                intercept_of_text(self.all@),
            ),
    {
        if self.is_cgi {
            return Matcher { http: None, https: None, no: NoProxy::empty() };
        }
        let all = parse_env_uri(self.all.as_str());
        let http = match parse_env_uri(self.http.as_str()) {
            Some(i) => Some(i),
            None => match &all {
                Some(i) => Some(i.clone()),
                None => None,
            },
        };
        let https = match parse_env_uri(self.https.as_str()) {
            Some(i) => Some(i),
            None => all,
        };
        Matcher { http, https, no: NoProxy::from_string(self.no.as_str()) }
    }
}

/// A proxy for all schemes is used exactly where no more specific one can be: with a usable
/// setting for the scheme, the one for all schemes makes no difference.
pub proof fn lemma_specific_overrides_all(
    specific: Seq<char>,
    all: Seq<char>,
    other: Seq<char>,
)
    requires
        intercept_of_text(specific) is Some,
    ensures
        specific_or(intercept_of_text(specific), intercept_of_text(all)) == specific_or(
            intercept_of_text(specific),
            intercept_of_text(other),
        ),
{
}

/// Where a scheme has no setting of its own that can be used, the one for all schemes is.
pub proof fn lemma_all_is_fallback(specific: Seq<char>, all: Seq<char>)
    ensures
        intercept_of_text(specific) is None ==> specific_or(
            intercept_of_text(specific),
            intercept_of_text(all),
        ) == intercept_of_text(all),
        intercept_of_text(specific) is Some ==> specific_or(
            intercept_of_text(specific),
            intercept_of_text(all),
        ) == intercept_of_text(specific),
        uri_of_text(specific) is None ==> intercept_of_text(specific) is None,
{
}

} // verus!
