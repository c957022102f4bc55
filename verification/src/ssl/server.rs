//! What the plain HTTP port does beside the TLS port.
use crate::ssl::config::SslConfig;
use crate::text::{cat5, decimal, decimal_text};
use crate::vars::{number_or, number_setting, setting};
use vstd::prelude::*;
use vstd::string::*;

verus! {

broadcast use vstd::string::group_string_axioms;

/// What the plain HTTP port does.
#[derive(Debug, PartialEq)]
pub enum HttpMode {
    /// Sends everybody to the TLS port.
    Redirect { primary_domain: String, https_port: u16 },
    /// Serves as the TLS port does.
    Serve { port: u16 },
}

/// Where a request to the plain port is sent: the same host, or the first domain where
/// the request names none, at the TLS port.
pub open spec fn redirect_target(
    host: Option<Seq<char>>,
    primary_domain: Seq<char>,
    https_port: u16,
    path_and_query: Option<Seq<char>>,
) -> Seq<char> {
    let name = match host {
        Some(h) => h,
        None => primary_domain,
    };
    let path = match path_and_query {
        Some(p) => p,
        None => "/"@,
    };
    if https_port == 443 {
        "https://"@ + name + path
    } else {
        "https://"@ + name + ":"@ + decimal(https_port as nat) + path
    }
}

/// Where a request to the plain port is sent.
pub fn https_uri(
    host: Option<&str>,
    primary_domain: &str,
    https_port: u16,
    path_and_query: Option<&str>,
) -> (r: String)
    ensures
        r@ == redirect_target(setting(host), primary_domain@, https_port, setting(path_and_query)),
{
    let name = match host {
        Some(h) => h,
        None => primary_domain,
    };
    let path = match path_and_query {
        Some(p) => p,
        None => "/",
    };
    if https_port == 443 {
        crate::text::cat3("https://", name, path)
    } else {
        cat5("https://", name, ":", decimal_text(https_port as u64).as_str(), path)
    }
}

/// What the plain HTTP port does, where a variable may set its number.
pub fn http_mode(config: &SslConfig, port: Option<&str>) -> (r: HttpMode)
    requires
        config.http_redirect ==> config.domains@.len() > 0,
    ensures
        match r {
            HttpMode::Redirect { primary_domain, https_port } => {
                &&& config.http_redirect
                &&& primary_domain@ == config.domains@[0]@
                &&& https_port == config.ssl_port
            },
            HttpMode::Serve { port: n } => {
                &&& !config.http_redirect
                &&& n == number_setting(setting(port), u16::MAX as nat, 80)
            },
        },
{
    if config.http_redirect {
        HttpMode::Redirect {
            primary_domain: config.domains[0].clone(),
            https_port: config.ssl_port,
        }
    } else {
        HttpMode::Serve { port: number_or(port, u16::MAX as u64, 80) as u16 }
    }
}

/// A request is sent on to the host that it names, or to the first domain where it names
/// none, with its path and query, or the root where it has none; the port is named unless it
/// is the usual one.
pub proof fn law_request_is_sent_to_the_tls_port(
    host: Seq<char>,
    domain: Seq<char>,
    port: u16,
    path: Seq<char>,
)
    ensures
        ({
            let place = if port == 443 {
                Seq::<char>::empty()
            } else {
                seq![':'] + decimal(port as nat)
            };
            &&& redirect_target(Some(host), domain, port, Some(path)) == "https://"@ + host + place + path
            &&& redirect_target(None, domain, port, Some(path)) == "https://"@ + domain + place + path
            &&& redirect_target(Some(host), domain, port, None) == "https://"@ + host + place
                + seq!['/']
            &&& redirect_target(None, domain, port, None) == "https://"@ + domain + place + seq!['/']
        }),
{
    reveal_strlit(":");
    reveal_strlit("/");
    assert(":"@ =~= seq![':']);
    assert("/"@ =~= seq!['/']);
    let place = if port == 443 {
        Seq::<char>::empty()
    } else {
        seq![':'] + decimal(port as nat)
    };
    assert(redirect_target(Some(host), domain, port, Some(path)) =~= "https://"@ + host + place + path);
    assert(redirect_target(None, domain, port, Some(path)) =~= "https://"@ + domain + place + path);
    assert(redirect_target(Some(host), domain, port, None) =~= "https://"@ + host + place + seq!['/']);
    assert(redirect_target(None, domain, port, None) =~= "https://"@ + domain + place + seq!['/']);
}

} // verus!
