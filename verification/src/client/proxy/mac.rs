//! Proxy settings of macOS.

use vstd::prelude::*;

use super::builder::Builder;
use crate::text::fields;
use crate::text::join;
use crate::text::joined;
use crate::text::lemma_join_fields;
use crate::text::push_signed;
use crate::text::signed_decimal;
use crate::text::texts;
use crate::uri::text_view;

verus! {

/// The entries of the system's proxy dictionary, where it has them.
#[derive(Debug)]
pub struct SystemProxies {
    pub http_enable: Option<i32>,
    pub http_proxy: Option<String>,
    pub http_port: Option<i32>,
    pub https_enable: Option<i32>,
    pub https_proxy: Option<String>,
    pub https_port: Option<i32>,
    pub exceptions: Option<Vec<String>>,
}

/// The setting of a proxy: its scheme, host and port, if it is enabled and has a host.
pub open spec fn proxy_setting(
    scheme: Seq<char>,
    enable: Option<i32>,
    host: Option<String>,
    port: Option<i32>,
) -> Option<Seq<char>> {
    match host {
        Some(host) if enable == Some(1i32) => Some(
            match port {
                Some(p) => scheme + host@ + ":"@ + signed_decimal(p as int),
                None => scheme + host@,
            },
        ),
        _ => None,
    }
}

fn setting(scheme: &str, enable: Option<i32>, host: &Option<String>, port: Option<i32>) -> (r: Option<
    String,
>)
    ensures
        text_view(r) == proxy_setting(scheme@, enable, *host, port),
{
    match enable {
        Some(1) => {},
        _ => {
            return None;
        },
    }
    match host {
        None => None,
        Some(host) => {
            let mut out = scheme.to_owned();
            out.append(host.as_str());
            if let Some(p) = port {
                out.append(":");
                push_signed(&mut out, p);
            }
            Some(out)
        },
    }
}

impl SystemProxies {
    /// The setting for `http`.
    pub open spec fn http(self) -> Option<Seq<char>> {
        proxy_setting("http://"@, self.http_enable, self.http_proxy, self.http_port)
    }

    /// The setting for `https`.
    pub open spec fn https(self) -> Option<Seq<char>> {
        proxy_setting("https://"@, self.https_enable, self.https_proxy, self.https_port)
    }

    /// The hosts that bypass the proxy, separated by commas.
    pub open spec fn no(self) -> Option<Seq<char>> {
        match self.exceptions {
            Some(list) => Some(joined(texts(list@), ","@)),
            None => None,
        }
    }
}

impl Builder {
    /// The settings for `http`, `https` and hosts that bypass the proxy in the system's proxy
    /// dictionary.
    pub fn extract_system_proxy(&self, proxies: &SystemProxies) -> (r: (
        Option<String>,
        Option<String>,
        Option<String>,
    ))
        ensures
            text_view(r.0) == proxies.http(),
            text_view(r.1) == proxies.https(),
            text_view(r.2) == proxies.no(),
    {
        let http = setting(
            "http://",
            proxies.http_enable,
            &proxies.http_proxy,
            proxies.http_port,
        );
        let https = setting(
            "https://",
            proxies.https_enable,
            &proxies.https_proxy,
            proxies.https_port,
        );
        let no = match &proxies.exceptions {
            Some(list) => Some(join(list.as_slice(), ",")),
            None => None,
        };
        (http, https, no)
    }

    /// Takes over what the system's proxy dictionary sets, if there is one.
    pub fn from_system_proxy(self, proxies: Option<SystemProxies>) -> (r: Self)
        ensures
            r.is_cgi == self.is_cgi,
            r.all == self.all,
            r.http@ == (match proxies {
                Some(p) if p.http() is Some => p.http()->0,
                _ => self.http@,
            }),
            r.https@ == (match proxies {
                Some(p) if p.https() is Some => p.https()->0,
                _ => self.https@,
            }),
            r.no@ == (match proxies {
                Some(p) if p.no() is Some => p.no()->0,
                _ => self.no@,
            }),
    {
        let mut this = self;
        if let Some(proxies) = proxies {
            let (http, https, no) = this.extract_system_proxy(&proxies);
            if let Some(http) = http {
                this.http = http;
            }
            if let Some(https) = https {
                this.https = https;
            }
            if let Some(no) = no {
                this.no = no;
            }
        }
        this
    }
}

/// A proxy is set where it is enabled, by the number one, and has a host. Its port is written behind
/// a colon where there is one. Each scheme has its own.
pub proof fn lemma_system_settings(p: SystemProxies)
    ensures
        p.http() is Some <==> p.http_enable == Some(1i32) && p.http_proxy is Some,
        p.https() is Some <==> p.https_enable == Some(1i32) && p.https_proxy is Some,
        p.http() is Some ==> p.http()->0 == "http://"@ + p.http_proxy->0@ + port_suffix(p.http_port),
        p.https() is Some ==> p.https()->0 == "https://"@ + p.https_proxy->0@ + port_suffix(
            p.https_port,
        ),
        p.no() is Some <==> p.exceptions is Some,
        p.no() is Some && p.exceptions->0@.len() > 0 && (forall|i: int|
            0 <= i < p.exceptions->0@.len() ==> !(#[trigger] p.exceptions->0@[i])@.contains(','))
            ==> fields(p.no()->0, ',') == texts(p.exceptions->0@),
{
    reveal_strlit(":");
    reveal_strlit(",");
    assert(":"@ =~= seq![':']);
    assert(","@ =~= seq![',']);
    if p.http() is Some {
        assert(p.http()->0 =~= "http://"@ + p.http_proxy->0@ + port_suffix(p.http_port));
    }
    if p.https() is Some {
        assert(p.https()->0 =~= "https://"@ + p.https_proxy->0@ + port_suffix(p.https_port));
    }
    if p.exceptions is Some && p.exceptions->0@.len() > 0 && (forall|i: int|
        0 <= i < p.exceptions->0@.len() ==> !(#[trigger] p.exceptions->0@[i])@.contains(',')) {
        let parts = texts(p.exceptions->0@);
        assert forall|i: int| 0 <= i < parts.len() implies !(#[trigger] parts[i]).contains(',') by {
            assert(!p.exceptions->0@[i]@.contains(','));
        }
        lemma_join_fields(parts, ',');
    }
}

/// A port behind a colon, or nothing.
pub open spec fn port_suffix(port: Option<i32>) -> Seq<char> {
    match port {
        Some(p) => seq![':'] + signed_decimal(p as int),
        None => Seq::empty(),
    }
}

} // verus!
