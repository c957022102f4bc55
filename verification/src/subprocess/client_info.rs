//! Who a request comes from.
use crate::text::{
    lemma_split_concat, lemma_split_single, split, split_text, text_of, texts, trim, trim_text,
};
use crate::vars::{setting, text_or, text_setting};
use vstd::prelude::*;
use vstd::string::*;

verus! {

broadcast use vstd::string::group_string_axioms;

#[derive(Debug, Clone, PartialEq)]
pub struct ClientInfo {
    pub ip: String,
    pub user_agent: Option<String>,
}

/// The address of a client: the first that a proxy names, or else that of the
/// connection.
pub open spec fn client_address(forwarded_for: Option<Seq<char>>, peer: Option<Seq<char>>) -> Seq<char> {
    match forwarded_for {
        Some(list) => trim(split(list, ',')[0]),
        None => match peer {
            Some(ip) => ip,
            None => "unknown"@,
        },
    }
}

/// Who a request comes from, given what proxies say, the address of the connection and
/// the user agent.
pub fn extract_client_info(
    forwarded_for: Option<&str>,
    peer: Option<&str>,
    user_agent: Option<&str>,
) -> (r: ClientInfo)
    ensures
        r.ip@ == client_address(setting(forwarded_for), setting(peer)),
        text_of(r.user_agent) == setting(user_agent),
{
    let ip = match forwarded_for {
        Some(list) => {
            let parts = split_text(list, ',');
            proof {
                crate::text::lemma_split_pieces(list@, ',');
                assert(texts(parts@)[0] == parts@[0]@);
            }
            trim_text(parts[0].as_str())
        },
        None => text_or(peer, "unknown"),
    };
    let user_agent = match user_agent {
        Some(ua) => Some(ua.to_owned()),
        None => None,
    };
    ClientInfo { ip, user_agent }
}

/// The address to listen at, where a variable may set the port.
pub fn listen_address(port: Option<&str>) -> (r: String)
    ensures
        r@ == "0.0.0.0:"@ + text_setting(setting(port), "8080"@),
{
    crate::text::cat2("0.0.0.0:", text_or(port, "8080").as_str())
}

/// Where proxies name addresses, the client is the first of them, without the white space
/// around it, whatever follows; else it is the other end of the connection, if that is known.
pub proof fn law_first_address_is_the_client(
    first: Seq<char>,
    others: Seq<char>,
    peer: Option<Seq<char>>,
)
    requires
        !first.contains(','),
    ensures
        client_address(Some(first), peer) == trim(first),
        client_address(Some(first + seq![','] + others), peer) == trim(first),
        peer is Some ==> client_address(None, peer) == peer->0,
        peer is None ==> client_address(None, peer) == "unknown"@,
{
    lemma_split_single(first, ',');
    lemma_split_concat(first, others, ',');
}

} // verus!
