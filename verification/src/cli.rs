//! What the command-line client computes: the client reference a command
//! names, the parameters it sends and the line it prints for `info`.

use vstd::prelude::*;

use crate::client::{client_parse, ip_text, ip_to_string, mac_text, ClientId};
use crate::wire::{BlockParams, ClientRef, InfoResult, ThrottleParams};

verus! {

/// The wire reference of a `mac` or `mac@ip` argument: the MAC in canonical
/// text and always an IP (`0.0.0.0` when none was given); the error is the
/// parse error's message.
pub fn parse_client(s: &str) -> (r: Result<ClientRef, String>)
    ensures
        match client_parse(s@) {
            Some(c) => (r matches Ok(x) && x.mac@ == mac_text(c.mac@) && (x.ip matches Some(ip) && ip@ == ip_text(
                c.ip,
            ))),
            None => (r matches Err(m) && m@ == "invalid client ref: "@ + s@),
        },
{
    match ClientId::parse(s) {
        Ok(id) => Ok(ClientRef { mac: id.mac_string(), ip: Some(ip_to_string(&id.ip)) }),
        Err(e) => Err(e.message()),
    }
}

/// `throttle` parameters: the client, the rate, and the duration in whole
/// seconds (none = permanent).
pub fn throttle_params(client: ClientRef, rate: u8, duration_secs: Option<u64>) -> (r: ThrottleParams)
    ensures
        r == (ThrottleParams { client, rate: Some(rate), duration_secs }),
{
    ThrottleParams { client, rate: Some(rate), duration_secs }
}

/// `block` parameters: the client and the duration in whole seconds (none =
/// permanent).
pub fn block_params(client: ClientRef, duration_secs: Option<u64>) -> (r: BlockParams)
    ensures
        r == (BlockParams { client, duration_secs }),
{
    BlockParams { client, duration_secs }
}

/// The `info` line: version, commit, mode and interface.
pub open spec fn info_text(r: InfoResult) -> Seq<char> {
    "microwaf "@ + r.version@ + " commit="@ + r.commit@ + " mode="@ + r.mode@ + " interface="@ + r.interface@
}

/// The `info` line.
pub fn info_line(r: &InfoResult) -> (s: String)
    ensures
        s@ == info_text(*r),
{
    let mut s = String::from_str("microwaf ");
    s.append(r.version.as_str());
    s.append(" commit=");
    s.append(r.commit.as_str());
    s.append(" mode=");
    s.append(r.mode.as_str());
    s.append(" interface=");
    s.append(r.interface.as_str());
    s
}

/// The confirmation a manual command prints: the verb (`throttled`,
/// `unthrottled`, `blocked`, `unblocked`), a space and the argument.
pub fn done_line(verb: &str, arg: &str) -> (s: String)
    ensures
        s@ == verb@ + " "@ + arg@,
{
    let mut s = String::from_str(verb);
    s.append(" ");
    s.append(arg);
    s
}

} // verus!
