//! Decisions of the service and vhost proxies: which domain a request is
//! for, where it goes, whether it upgrades to a WebSocket, and the ports
//! the vhost proxy tries.
use vstd::prelude::*;

use crate::text::{
    append_dec, append_str, chars_of, contains_seq, contains_str, dec, lowercase, slice_chars,
    string_from, to_lowercase,
};

verus! {

/// The body of the 502 answer given while a service is not reachable.
pub fn bad_gateway_body() -> (r: &'static str)
    ensures
        r@ == "service starting..."@,
{
    "service starting..."
}

/// The index of the first `:` at or after `i` in `s` (its length when
/// there is none).
pub open spec fn colon_from(s: Seq<char>, i: nat) -> nat
    decreases s.len() - i,
{
    if i >= s.len() || s[i as int] == ':' {
        i
    } else {
        colon_from(s, i + 1)
    }
}

/// The domain a request is for: its `Host` header up to the first `:`
/// (the whole header when it has none).
pub fn host_domain(host: &str) -> (r: String)
    ensures
        r@ == host@.take(colon_from(host@, 0) as int),
{
    let v = chars_of(host);
    let mut i: usize = 0;
    while i < v.len() && v[i] != ':'
        invariant
            i <= v.len(),
            v@ == host@,
            colon_from(v@, i as nat) == colon_from(v@, 0),
        decreases v.len() - i,
    {
        i = i + 1;
    }
    let d = slice_chars(&v, 0, i);
    proof {
        assert(d@ =~= host@.take(i as int));
    }
    string_from(&d)
}

/// Where the vhost proxy sends a request.
#[derive(Debug)]
pub enum VhostRoute {
    /// To this port on the loopback address.
    Forward(u16),
    /// Nowhere: answered 404 with this body.
    NotFound(String),
}

/// The route for a request to `domain`, given the port of the service that
/// serves it (if any): forwarded there, or answered
/// `unknown domain: {domain}`.
pub fn route_for(domain: &str, port: Option<u16>) -> (r: VhostRoute)
    ensures
        match port {
            Some(p) => r == VhostRoute::Forward(p),
            None => r matches VhostRoute::NotFound(body) && body@ == "unknown domain: "@ + domain@,
        },
{
    match port {
        Some(p) => VhostRoute::Forward(p),
        None => {
            let mut body = "unknown domain: ".to_owned();
            append_str(&mut body, domain);
            VhostRoute::NotFound(body)
        },
    }
}

/// Whether a request asks to upgrade to a WebSocket: its `Upgrade` header,
/// lowercased, mentions `websocket`.
pub fn is_websocket_upgrade(upgrade: Option<&str>) -> (r: bool)
    ensures
        r == match upgrade {
            Some(u) => contains_seq(lowercase(u@), "websocket"@),
            None => false,
        },
{
    match upgrade {
        Some(u) => {
            let low = to_lowercase(u);
            contains_str(low.as_str(), "websocket")
        },
        None => false,
    }
}

/// The ports the vhost proxy tries, in order: 443 then 8443 with TLS, 80
/// then 8080 without.
pub fn vhost_ports(tls: bool) -> (r: (u16, u16))
    ensures
        r == (if tls {
            (443u16, 8443u16)
        } else {
            (80u16, 8080u16)
        }),
{
    if tls {
        (443, 8443)
    } else {
        (80, 8080)
    }
}

/// The message when the vhost proxy can bind neither of its ports.
pub fn vhost_bind_failure(tls: bool, error: &str) -> (r: String)
    ensures
        r@ == "[vhost] failed to bind port "@ + dec(vhost_first(tls) as nat) + " or "@ + dec(
            vhost_second(tls) as nat,
        ) + ": "@ + error@ + " — vhost routing disabled"@,
{
    let (a, b) = vhost_ports(tls);
    let mut s = "[vhost] failed to bind port ".to_owned();
    append_dec(&mut s, a as u64);
    append_str(&mut s, " or ");
    append_dec(&mut s, b as u64);
    append_str(&mut s, ": ");
    append_str(&mut s, error);
    append_str(&mut s, " — vhost routing disabled");
    s
}

/// The first vhost port.
pub open spec fn vhost_first(tls: bool) -> u16 {
    if tls {
        443
    } else {
        80
    }
}

/// The fallback vhost port.
pub open spec fn vhost_second(tls: bool) -> u16 {
    if tls {
        8443
    } else {
        8080
    }
}

/// The vhost proxy listens on 443, else 8443, when it serves TLS, and on
/// 80, else 8080, when it does not.
pub proof fn lemma_vhost_ports()
    ensures
        vhost_first(true) == 443 && vhost_second(true) == 8443,
        vhost_first(false) == 80 && vhost_second(false) == 8080,
{
}

/// The upstream address of a service: `127.0.0.1:{port}`.
pub fn upstream_addr(port: u16) -> (r: String)
    ensures
        r@ == "127.0.0.1:"@ + dec(port as nat),
{
    let mut s = "127.0.0.1:".to_owned();
    append_dec(&mut s, port as u64);
    s
}

} // verus!
