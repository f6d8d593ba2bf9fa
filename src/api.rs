use vstd::prelude::*;
use vstd::string::*;

use crate::address::{address_of, ipv4_text, lemma_address_of_text, Ipv4Addr};
use crate::error::DnsApiError;

verus! {

/// The credential that a registration hands out and that updates of the same
/// subdomain present. It is kept and forwarded as it is.
pub type Token = String;

/// The decoded reply of the service, with the fields that carry behaviour.
pub struct Envelope {
    /// 0 on success; any other value is a failure.
    pub code: i32,
    /// A message on failure; the new address on a successful update.
    pub data: String,
    /// The token, present on a successful registration.
    pub token: Option<String>,
}

/// `https://anondns.net/api/register/<subdomain>.anondns.net/a/<target>`
pub open spec fn register_url_spec(subdomain: Seq<char>, target: Ipv4Addr) -> Seq<char> {
    "https://anondns.net/api/register/"@ + subdomain + ".anondns.net/a/"@ + ipv4_text(target)
}

/// `https://anondns.net/api/set/<subdomain>.anondns.net/<token>/a/<target>`
pub open spec fn update_url_spec(subdomain: Seq<char>, target: Ipv4Addr, token: Seq<char>) -> Seq<
    char,
> {
    "https://anondns.net/api/set/"@ + subdomain + ".anondns.net/"@ + token + "/a/"@ + ipv4_text(
        target,
    )
}

/// The error that a nonzero status code stands for.
pub open spec fn failure_of(code: i32, data: String) -> DnsApiError {
    if code == 1 {
        DnsApiError::BadRequest((1, data))
    } else {
        DnsApiError::UnknownErrorCode((code, data))
    }
}

/// What a decoded registration reply means.
pub open spec fn register_decision(e: Envelope) -> Result<Token, DnsApiError> {
    if e.code == 0 {
        match e.token {
            Some(t) => Ok(t),
            None => Err(DnsApiError::MissingToken),
        }
    } else {
        Err(failure_of(e.code, e.data))
    }
}

/// What a decoded update reply means.
pub open spec fn update_decision(e: Envelope) -> Result<Ipv4Addr, DnsApiError> {
    if e.code == 0 {
        match address_of(e.data@) {
            Some(x) => Ok(x),
            None => Err(DnsApiError::AddressParse(e.data)),
        }
    } else {
        Err(failure_of(e.code, e.data))
    }
}

/// What a registration call returns, given the reply or the transport's
/// failure.
pub open spec fn register_result(reply: Result<Envelope, String>) -> Result<Token, DnsApiError> {
    match reply {
        Ok(e) => register_decision(e),
        Err(m) => Err(DnsApiError::Transport(m)),
    }
}

/// What an update call returns, given the reply or the transport's failure.
pub open spec fn update_result(reply: Result<Envelope, String>) -> Result<Ipv4Addr, DnsApiError> {
    match reply {
        Ok(e) => update_decision(e),
        Err(m) => Err(DnsApiError::Transport(m)),
    }
}

/// The URL that registers `subdomain` to point at `target`.
pub fn register_url(subdomain: &str, target: Ipv4Addr) -> (r: String)
    ensures
        r@ == register_url_spec(subdomain@, target),
{
    let mut url = String::from_str("https://anondns.net/api/register/");
    url.append(subdomain);
    url.append(".anondns.net/a/");
    let text = target.to_string();
    url.append(text.as_str());
    url
}

/// The URL that points `subdomain` at `target`, authorised by `token`.
pub fn update_url(subdomain: &str, target: Ipv4Addr, token: &str) -> (r: String)
    ensures
        r@ == update_url_spec(subdomain@, target, token@),
{
    let mut url = String::from_str("https://anondns.net/api/set/");
    url.append(subdomain);
    url.append(".anondns.net/");
    url.append(token);
    url.append("/a/");
    let text = target.to_string();
    url.append(text.as_str());
    url
}

/// Turns a registration reply, or the transport's failure, into the call's
/// result: code 0 gives the token, code 1 a `BadRequest`, any other code an
/// `UnknownErrorCode`, and a failed transport a `Transport` error.
pub fn register_outcome(reply: Result<Envelope, String>) -> (r: Result<Token, DnsApiError>)
    ensures
        r == register_result(reply),
{
    match reply {
        Err(m) => Err(DnsApiError::Transport(m)),
        Ok(e) => {
            if e.code == 0 {
                match e.token {
                    Some(t) => Ok(t),
                    None => Err(DnsApiError::MissingToken),
                }
            } else if e.code == 1 {
                Err(DnsApiError::BadRequest((1, e.data)))
            } else {
                Err(DnsApiError::UnknownErrorCode((e.code, e.data)))
            }
        },
    }
}

/// Turns an update reply, or the transport's failure, into the call's
/// result: code 0 gives the address that the data holds (an `AddressParse`
/// error when it holds none), code 1 a `BadRequest`, any other code an
/// `UnknownErrorCode`, and a failed transport a `Transport` error.
pub fn update_outcome(reply: Result<Envelope, String>) -> (r: Result<Ipv4Addr, DnsApiError>)
    ensures
        r == update_result(reply),
{
    match reply {
        Err(m) => Err(DnsApiError::Transport(m)),
        Ok(e) => {
            if e.code == 0 {
                match Ipv4Addr::parse(e.data.as_str()) {
                    Some(x) => Ok(x),
                    None => Err(DnsApiError::AddressParse(e.data)),
                }
            } else if e.code == 1 {
                Err(DnsApiError::BadRequest((1, e.data)))
            } else {
                Err(DnsApiError::UnknownErrorCode((e.code, e.data)))
            }
        },
    }
}

/// A registration reply with code 0 and a token yields exactly that token.
pub proof fn lemma_register_returns_token(e: Envelope, t: String)
    requires
        e.code == 0,
        e.token == Some(t),
    ensures
        register_result(Ok(e)) == Ok::<Token, DnsApiError>(t),
{
}

/// A reply with a nonzero code yields `BadRequest` for code 1 and
/// `UnknownErrorCode` otherwise, each carrying the code and the message, on
/// both calls.
pub proof fn lemma_failure_codes(e: Envelope)
    requires
        e.code != 0,
    ensures
        e.code == 1 ==> register_result(Ok(e)) == Err::<Token, DnsApiError>(
            DnsApiError::BadRequest((1, e.data)),
        ),
        e.code != 1 ==> register_result(Ok(e)) == Err::<Token, DnsApiError>(
            DnsApiError::UnknownErrorCode((e.code, e.data)),
        ),
        e.code == 1 ==> update_result(Ok(e)) == Err::<Ipv4Addr, DnsApiError>(
            DnsApiError::BadRequest((1, e.data)),
        ),
        e.code != 1 ==> update_result(Ok(e)) == Err::<Ipv4Addr, DnsApiError>(
            DnsApiError::UnknownErrorCode((e.code, e.data)),
        ),
{
}

/// An update reply with code 0 whose data is the text of an address yields
/// that address.
pub proof fn lemma_update_returns_reported_address(e: Envelope, x: Ipv4Addr)
    requires
        e.code == 0,
        e.data@ == ipv4_text(x),
    ensures
        update_result(Ok(e)) == Ok::<Ipv4Addr, DnsApiError>(x),
{
    lemma_address_of_text(x);
}

/// An update reply with code 0 whose data is the text of no address yields an
/// `AddressParse` error carrying that data.
pub proof fn lemma_update_rejects_non_address(e: Envelope)
    requires
        e.code == 0,
        forall|x: Ipv4Addr| ipv4_text(x) != e.data@,
    ensures
        update_result(Ok(e)) == Err::<Ipv4Addr, DnsApiError>(DnsApiError::AddressParse(e.data)),
{
}

/// A failed transport yields a `Transport` error carrying its description, on
/// both calls.
pub proof fn lemma_transport_failure(m: String)
    ensures
        register_result(Err(m)) == Err::<Token, DnsApiError>(DnsApiError::Transport(m)),
        update_result(Err(m)) == Err::<Ipv4Addr, DnsApiError>(DnsApiError::Transport(m)),
{
}

/// Updating twice to an address that is already current succeeds twice with
/// that address: both replies report it, and nothing of the first call
/// changes the second.
pub proof fn lemma_update_repeatable(target: Ipv4Addr, first: Envelope, second: Envelope)
    requires
        first.code == 0,
        second.code == 0,
        first.data@ == ipv4_text(target),
        second.data@ == ipv4_text(target),
    ensures
        update_result(Ok(first)) == Ok::<Ipv4Addr, DnsApiError>(target),
        update_result(Ok(second)) == update_result(Ok(first)),
{
    lemma_address_of_text(target);
}

} // verus!
