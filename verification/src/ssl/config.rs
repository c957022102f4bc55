//! The settings for TLS.
use crate::text::{
    cat2, contains_char, lemma_split_concat, lemma_split_single, number, number_up_to, parse_number,
    parse_truth, split, split_text, texts, trim, trim_text, truth_value,
};
use vstd::prelude::*;
use vstd::string::*;

verus! {

broadcast use vstd::string::group_string_axioms;

#[derive(Debug, Clone, PartialEq)]
pub struct SslConfig {
    pub enabled: bool,
    pub domains: Vec<String>,
    pub email: String,
    pub staging: bool,
    pub cert_cache_dir: String,
    pub ssl_port: u16,
    pub http_redirect: bool,
}

/// The variables that set up TLS, each as it is set, if it is.
#[derive(Debug, Clone, PartialEq)]
pub struct SslVars {
    pub ssl_enabled: Option<String>,
    pub ssl_domains: Option<String>,
    pub ssl_email: Option<String>,
    pub ssl_staging: Option<String>,
    pub ssl_cert_cache_dir: Option<String>,
    pub ssl_port: Option<String>,
    pub http_redirect: Option<String>,
}

/// What is wrong with the variables.
#[derive(Debug, Clone, Copy, PartialEq, Eq)]
pub enum SslError {
    InvalidEnabled,
    MissingDomains,
    NoDomain,
    MissingEmail,
    InvalidEmail,
    InvalidStaging,
    InvalidPort,
    InvalidRedirect,
}

/// What the settings say.
pub struct SslView {
    pub enabled: bool,
    pub domains: Seq<Seq<char>>,
    pub email: Seq<char>,
    pub staging: bool,
    pub cert_cache_dir: Seq<char>,
    pub ssl_port: u16,
    pub http_redirect: bool,
}

impl View for SslConfig {
    type V = SslView;

    open spec fn view(&self) -> SslView {
        SslView {
            enabled: self.enabled,
            domains: texts(self.domains@),
            email: self.email@,
            staging: self.staging,
            cert_cache_dir: self.cert_cache_dir@,
            ssl_port: self.ssl_port,
            http_redirect: self.http_redirect,
        }
    }
}

/// The truth value of a variable: `default` where it is unset, nothing where it names
/// none.
pub open spec fn switch(var: Option<String>, default: bool) -> Option<bool> {
    match var {
        Some(s) => truth_value(s@),
        None => Some(default),
    }
}

/// The port that a variable sets: 443 where it is unset, nothing where it is no port.
pub open spec fn port_in(var: Option<String>) -> Option<nat> {
    match var {
        Some(s) => number_up_to(s@, u16::MAX as nat),
        None => Some(443),
    }
}

/// The names between the commas, without white space around them.
pub open spec fn domains_in(list: Seq<char>) -> Seq<Seq<char>> {
    split(list, ',').map_values(|d: Seq<char>| trim(d)).filter(|d: Seq<char>| d.len() > 0)
}

/// The settings of a server without TLS.
pub open spec fn without_tls() -> SslView {
    SslView {
        enabled: false,
        domains: Seq::empty(),
        email: ""@,
        staging: true,
        cert_cache_dir: "/etc/cascade/certs"@,
        ssl_port: 443,
        http_redirect: false,
    }
}

/// The settings that the variables give, or the first thing that is wrong with them.
/// Where TLS is off, the other variables are not looked at.
pub open spec fn settings_in(vars: SslVars) -> Result<SslView, SslError> {
    if switch(vars.ssl_enabled, false) is None {
        Err(SslError::InvalidEnabled)
    } else if switch(vars.ssl_enabled, false) == Some(false) {
        Ok(without_tls())
    } else if vars.ssl_domains is None {
        Err(SslError::MissingDomains)
    } else if domains_in(vars.ssl_domains->0@).len() == 0 {
        Err(SslError::NoDomain)
    } else if vars.ssl_email is None {
        Err(SslError::MissingEmail)
    } else if !vars.ssl_email->0@.contains('@') {
        Err(SslError::InvalidEmail)
    } else if switch(vars.ssl_staging, true) is None {
        Err(SslError::InvalidStaging)
    } else if port_in(vars.ssl_port) is None {
        Err(SslError::InvalidPort)
    } else if switch(vars.http_redirect, true) is None {
        Err(SslError::InvalidRedirect)
    } else {
        Ok(
            SslView {
                enabled: true,
                domains: domains_in(vars.ssl_domains->0@),
                email: vars.ssl_email->0@,
                staging: switch(vars.ssl_staging, true)->0,
                cert_cache_dir: match vars.ssl_cert_cache_dir {
                    Some(dir) => dir@,
                    None => "/etc/cascade/certs"@,
                },
                ssl_port: port_in(vars.ssl_port)->0 as u16,
                http_redirect: switch(vars.http_redirect, true)->0,
            },
        )
    }
}

/// What an error is called.
pub open spec fn message_of(e: SslError) -> Seq<char> {
    match e {
        SslError::InvalidEnabled => "Invalid SSL_ENABLED value"@,
        SslError::MissingDomains => "SSL_DOMAINS must be set when SSL is enabled"@,
        SslError::NoDomain => "SSL_DOMAINS must contain at least one domain"@,
        SslError::MissingEmail => "SSL_EMAIL must be set when SSL is enabled"@,
        SslError::InvalidEmail => "SSL_EMAIL must be a valid email address"@,
        SslError::InvalidStaging => "Invalid SSL_STAGING value"@,
        SslError::InvalidPort => "Invalid SSL_PORT value"@,
        SslError::InvalidRedirect => "Invalid HTTP_REDIRECT value"@,
    }
}

impl SslError {
    /// What the error is called.
    pub fn message(&self) -> (r: String)
        ensures
            r@ == message_of(*self),
    {
        match self {
            SslError::InvalidEnabled => "Invalid SSL_ENABLED value".to_owned(),
            SslError::MissingDomains => "SSL_DOMAINS must be set when SSL is enabled".to_owned(),
            SslError::NoDomain => "SSL_DOMAINS must contain at least one domain".to_owned(),
            SslError::MissingEmail => "SSL_EMAIL must be set when SSL is enabled".to_owned(),
            SslError::InvalidEmail => "SSL_EMAIL must be a valid email address".to_owned(),
            SslError::InvalidStaging => "Invalid SSL_STAGING value".to_owned(),
            SslError::InvalidPort => "Invalid SSL_PORT value".to_owned(),
            SslError::InvalidRedirect => "Invalid HTTP_REDIRECT value".to_owned(),
        }
    }
}

fn switch_of(var: &Option<String>, default: bool) -> (r: Option<bool>)
    ensures
        r == switch(*var, default),
{
    match var {
        Some(s) => parse_truth(s.as_str()),
        None => Some(default),
    }
}

/// The names between the commas, without white space around them.
pub fn parse_domains(list: &str) -> (r: Vec<String>)
    ensures
        texts(r@) == domains_in(list@),
{
    let pieces = split_text(list, ',');
    let ghost all = split(list@, ',').map_values(|d: Seq<char>| trim(d));
    let ghost keep = |d: Seq<char>| d.len() > 0;
    let mut r: Vec<String> = Vec::new();
    let mut i: usize = 0;
    assert(all.take(0) =~= Seq::<Seq<char>>::empty());
    reveal(Seq::filter);
    assert(texts(r@) =~= all.take(0).filter(keep));
    while i < pieces.len()
        invariant
            0 <= i <= pieces@.len(),
            all == split(list@, ',').map_values(|d: Seq<char>| trim(d)),
            texts(pieces@) == split(list@, ','),
            keep == (|d: Seq<char>| d.len() > 0),
            texts(r@) == all.take(i as int).filter(keep),
        decreases pieces@.len() - i,
    {
        let ghost so_far = texts(r@);
        assert(texts(pieces@)[i as int] == pieces@[i as int]@);
        assert(all.take(i + 1).drop_last() =~= all.take(i as int));
        reveal(Seq::filter);
        let domain = trim_text(pieces[i].as_str());
        assert(all[i as int] == domain@);
        if !domain.as_str().is_empty() {
            r.push(domain);
            assert(texts(r@) =~= so_far.push(all[i as int]));
        }
        i = i + 1;
    }
    assert(all.take(i as int) =~= all);
    r
}

impl SslConfig {
    /// The settings that the variables give, or the first thing that is wrong with them.
    pub fn from_env(vars: &SslVars) -> (r: Result<Self, SslError>)
        ensures
            match r {
                Ok(config) => settings_in(*vars) == Ok::<SslView, SslError>(config@),
                Err(e) => settings_in(*vars) == Err::<SslView, SslError>(e),
            },
    {
        match switch_of(&vars.ssl_enabled, false) {
            None => return Err(SslError::InvalidEnabled),
            Some(enabled) => {
                if !enabled {
                    let config = SslConfig {
                        enabled: false,
                        domains: Vec::new(),
                        email: "".to_owned(),
                        staging: true,
                        cert_cache_dir: "/etc/cascade/certs".to_owned(),
                        ssl_port: 443,
                        http_redirect: false,
                    };
                    assert(config@.domains =~= Seq::<Seq<char>>::empty());
                    return Ok(config);
                }
            },
        }
        let domains = match &vars.ssl_domains {
            Some(list) => parse_domains(list.as_str()),
            None => return Err(SslError::MissingDomains),
        };
        assert(domains@.len() == texts(domains@).len());
        if domains.len() == 0 {
            return Err(SslError::NoDomain);
        }
        let email = match &vars.ssl_email {
            Some(email) => email.clone(),
            None => return Err(SslError::MissingEmail),
        };
        if !contains_char(email.as_str(), '@') {
            return Err(SslError::InvalidEmail);
        }
        let staging = match switch_of(&vars.ssl_staging, true) {
            Some(b) => b,
            None => return Err(SslError::InvalidStaging),
        };
        let cert_cache_dir = match &vars.ssl_cert_cache_dir {
            Some(dir) => dir.clone(),
            None => "/etc/cascade/certs".to_owned(),
        };
        let ssl_port: u16 = match &vars.ssl_port {
            Some(port) => match parse_number(port.as_str(), u16::MAX as u64) {
                Some(n) => n as u16,
                None => return Err(SslError::InvalidPort),
            },
            None => 443,
        };
        let http_redirect = match switch_of(&vars.http_redirect, true) {
            Some(b) => b,
            None => return Err(SslError::InvalidRedirect),
        };
        Ok(
            SslConfig {
                enabled: true,
                domains,
                email,
                staging,
                cert_cache_dir,
                ssl_port,
                http_redirect,
            },
        )
    }

    /// Where certificates come from: a place for tests, whose certificates nobody
    /// trusts, or the real one.
    pub fn acme_directory_url(&self) -> (r: &str)
        ensures
            r@ == (if self.staging {
                "https://acme-staging-v02.api.letsencrypt.org/directory"@
            } else {
                "https://acme-v02.api.letsencrypt.org/directory"@
            }),
    {
        if self.staging {
            "https://acme-staging-v02.api.letsencrypt.org/directory"
        } else {
            "https://acme-v02.api.letsencrypt.org/directory"
        }
    }

    /// Whom the issuer of certificates can write to.
    pub fn contact(&self) -> (r: String)
        ensures
            r@ == "mailto:"@ + self.email@,
    {
        cat2("mailto:", self.email.as_str())
    }
}

/// Settings with TLS name at least one domain, none of them empty, and an address with
/// an `@`; settings without TLS redirect nobody.
pub proof fn law_accepted_settings_are_complete(vars: SslVars)
    requires
        settings_in(vars) is Ok,
    ensures
        settings_in(vars)->Ok_0.enabled ==> {
            &&& settings_in(vars)->Ok_0.domains.len() > 0
            &&& settings_in(vars)->Ok_0.email.contains('@')
            &&& forall|i: int|
                0 <= i < settings_in(vars)->Ok_0.domains.len() ==> (#[trigger] settings_in(
                    vars,
                )->Ok_0.domains[i]).len() > 0
        },
        !settings_in(vars)->Ok_0.enabled ==> !settings_in(vars)->Ok_0.http_redirect,
        settings_in(vars)->Ok_0.http_redirect ==> settings_in(vars)->Ok_0.domains.len() > 0,
{
    if settings_in(vars)->Ok_0.enabled {
        let all = split(vars.ssl_domains->0@, ',').map_values(|d: Seq<char>| trim(d));
        let keep = |d: Seq<char>| d.len() > 0;
        all.filter_lemma(keep);
        assert forall|i: int| 0 <= i < all.filter(keep).len() implies (#[trigger] all.filter(
            keep,
        )[i]).len() > 0 by {
            assert(keep(all.filter(keep)[i]));
        }
    }
}

/// TLS is on exactly where its switch is `true`; unset or `false` it is off, and nothing else
/// is looked at; anything else is an error.
pub proof fn law_switch_turns_tls_on(vars: SslVars)
    ensures
        ({
            let r = settings_in(vars);
            let off = vars.ssl_enabled is None || vars.ssl_enabled->0@ == "false"@;
            let on = vars.ssl_enabled is Some && vars.ssl_enabled->0@ == "true"@;
            &&& off ==> r is Ok && {
                let s = r->Ok_0;
                &&& !s.enabled && s.domains.len() == 0 && s.email.len() == 0
                &&& s.staging && !s.http_redirect && s.ssl_port == 443
                &&& s.cert_cache_dir == "/etc/cascade/certs"@
            }
            &&& on && r is Ok ==> r->Ok_0.enabled
            &&& r == Err::<SslView, SslError>(SslError::InvalidEnabled) <==> !off && !on
        }),
{
    reveal_strlit("true");
    reveal_strlit("false");
    reveal_strlit("");
    assert("true"@.len() != "false"@.len());
}

/// With TLS on, the settings are what the variables say, with their defaults where they say
/// nothing: a place for tests, the usual port, and redirection; and the first thing that is
/// wrong, in this order, is the error.
pub proof fn law_settings_with_tls(vars: SslVars)
    requires
        vars.ssl_enabled is Some,
        vars.ssl_enabled->0@ == "true"@,
    ensures
        ({
            let r = settings_in(vars);
            let is_truth = |v: Option<String>| v is None || v->0@ == "true"@ || v->0@ == "false"@;
            let is_on = |v: Option<String>| v is None || v->0@ == "true"@;
            let domains_named = vars.ssl_domains is Some && domains_in(vars.ssl_domains->0@).len() > 0;
            let reachable = vars.ssl_email is Some && vars.ssl_email->0@.contains('@');
            let is_port = vars.ssl_port is None || (number(vars.ssl_port->0@) is Some && number(
                vars.ssl_port->0@,
            )->0 <= 65535);
            &&& r is Ok <==> domains_named && reachable && is_truth(vars.ssl_staging) && is_port
                && is_truth(vars.http_redirect)
            &&& r is Ok ==> {
                let s = r->Ok_0;
                &&& s.domains == domains_in(vars.ssl_domains->0@)
                &&& s.email == vars.ssl_email->0@
                &&& s.staging == is_on(vars.ssl_staging)
                &&& s.http_redirect == is_on(vars.http_redirect)
                &&& vars.ssl_port is None ==> s.ssl_port == 443
                &&& vars.ssl_port is Some ==> s.ssl_port == number(vars.ssl_port->0@)->0
                &&& vars.ssl_cert_cache_dir is None ==> s.cert_cache_dir == "/etc/cascade/certs"@
                &&& vars.ssl_cert_cache_dir is Some ==> s.cert_cache_dir == vars.ssl_cert_cache_dir->0@
            }
            &&& r matches Err(e) ==> e == (if vars.ssl_domains is None {
                SslError::MissingDomains
            } else if !domains_named {
                SslError::NoDomain
            } else if vars.ssl_email is None {
                SslError::MissingEmail
            } else if !reachable {
                SslError::InvalidEmail
            } else if !is_truth(vars.ssl_staging) {
                SslError::InvalidStaging
            } else if !is_port {
                SslError::InvalidPort
            } else {
                SslError::InvalidRedirect
            })
        }),
{
    reveal_strlit("true");
    reveal_strlit("false");
    assert("true"@.len() != "false"@.len());
}

/// The domains are what stands between the commas, in order, without the white space around
/// it; where nothing is left, there is no domain.
pub proof fn law_domains_stand_between_commas(a: Seq<char>, list: Seq<char>)
    requires
        !a.contains(','),
    ensures
        trim(a).len() > 0 ==> domains_in(a) == seq![trim(a)],
        trim(a).len() == 0 ==> domains_in(a).len() == 0,
        domains_in(a + seq![','] + list) == domains_in(a) + domains_in(list),
{
    let (test, cut) = (|d: Seq<char>| d.len() > 0, |d: Seq<char>| trim(d));
    lemma_split_single(a, ',');
    lemma_split_concat(a, list, ',');
    let first = split(a, ',').map_values(cut);
    assert(first =~= seq![trim(a)]);
    reveal(Seq::filter);
    assert(first.drop_last() =~= Seq::<Seq<char>>::empty());
    assert(first.drop_last().filter(test) =~= Seq::<Seq<char>>::empty());
    let rest = split(list, ',').map_values(cut);
    assert((split(a, ',') + split(list, ',')).map_values(cut) =~= first + rest);
    Seq::filter_distributes_over_add(first, rest, test);
}

/// Each error is told in words that name the variable that is wrong.
pub proof fn law_errors_name_their_variable()
    ensures
        message_of(SslError::InvalidEnabled) == "Invalid SSL_ENABLED value"@,
        message_of(SslError::MissingDomains) == "SSL_DOMAINS must be set when SSL is enabled"@,
        message_of(SslError::NoDomain) == "SSL_DOMAINS must contain at least one domain"@,
        message_of(SslError::MissingEmail) == "SSL_EMAIL must be set when SSL is enabled"@,
        message_of(SslError::InvalidEmail) == "SSL_EMAIL must be a valid email address"@,
        message_of(SslError::InvalidStaging) == "Invalid SSL_STAGING value"@,
        message_of(SslError::InvalidPort) == "Invalid SSL_PORT value"@,
        message_of(SslError::InvalidRedirect) == "Invalid HTTP_REDIRECT value"@,
{
}

} // verus!
