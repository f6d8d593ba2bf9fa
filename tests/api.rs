use anondns_api::address::Ipv4Addr;
use anondns_api::api::{register_outcome, register_url, update_outcome, update_url, Envelope};
use anondns_api::error::DnsApiError;

fn reply(code: i32, data: &str, token: Option<&str>) -> Result<Envelope, String> {
    Ok(Envelope { code, data: data.to_string(), token: token.map(|t| t.to_string()) })
}

#[test]
fn register_success_returns_token() {
    let r = register_outcome(reply(0, "registered", Some("T")));
    assert_eq!(r, Ok("T".to_string()));
    let r = register_outcome(reply(0, "", Some("0123456789abcdef0123456789abcdef")));
    assert_eq!(r, Ok("0123456789abcdef0123456789abcdef".to_string()));
}

#[test]
fn register_success_without_token() {
    assert_eq!(register_outcome(reply(0, "ok", None)), Err(DnsApiError::MissingToken));
}

#[test]
fn register_code_one_is_bad_request() {
    let r = register_outcome(reply(1, "msg", None));
    assert_eq!(r, Err(DnsApiError::BadRequest((1, "msg".to_string()))));
}

#[test]
fn register_other_code_is_unknown() {
    let r = register_outcome(reply(7, "msg", None));
    assert_eq!(r, Err(DnsApiError::UnknownErrorCode((7, "msg".to_string()))));
    let r = register_outcome(reply(-1, "neg", Some("T")));
    assert_eq!(r, Err(DnsApiError::UnknownErrorCode((-1, "neg".to_string()))));
}

#[test]
fn update_success_returns_address() {
    let r = update_outcome(reply(0, "203.0.113.5", None));
    assert_eq!(r, Ok(Ipv4Addr::new(203, 0, 113, 5)));
}

#[test]
fn update_success_with_bad_address() {
    let r = update_outcome(reply(0, "not-an-ip", None));
    assert_eq!(r, Err(DnsApiError::AddressParse("not-an-ip".to_string())));
}

#[test]
fn update_failure_codes() {
    let r = update_outcome(reply(1, "bad token", None));
    assert_eq!(r, Err(DnsApiError::BadRequest((1, "bad token".to_string()))));
    let r = update_outcome(reply(7, "msg", None));
    assert_eq!(r, Err(DnsApiError::UnknownErrorCode((7, "msg".to_string()))));
}

#[test]
fn transport_failure_on_both_calls() {
    let m = "connection refused".to_string();
    assert_eq!(register_outcome(Err(m.clone())), Err(DnsApiError::Transport(m.clone())));
    assert_eq!(update_outcome(Err(m.clone())), Err(DnsApiError::Transport(m)));
}

#[test]
fn register_url_layout() {
    let url = register_url("foo", Ipv4Addr::new(127, 0, 0, 1));
    assert_eq!(url, "https://anondns.net/api/register/foo.anondns.net/a/127.0.0.1");
}

#[test]
fn update_url_layout() {
    let url = update_url("foo", Ipv4Addr::new(255, 255, 255, 255), "example_token");
    assert_eq!(url, "https://anondns.net/api/set/foo.anondns.net/example_token/a/255.255.255.255");
}

#[test]
fn update_twice_to_current_address() {
    let target = Ipv4Addr::new(198, 51, 100, 7);
    let url1 = update_url("home", target, "tok");
    let url2 = update_url("home", target, "tok");
    assert_eq!(url1, url2);
    let first = update_outcome(reply(0, "198.51.100.7", None));
    let second = update_outcome(reply(0, "198.51.100.7", None));
    assert_eq!(first, Ok(target));
    assert_eq!(second, first);
}
