//! IP address and network parsing through std and the `ipnet` crate.
use vstd::prelude::*;

verus! {

/// What std's `IpAddr::from_str` reads from `text`: `(is IPv6, is loopback, canonical text)`.
pub uninterp spec fn ip_parse(text: Seq<char>) -> Option<(bool, bool, Seq<char>)>;

/// What `ipnet::IpNet::from_str` reads from `text`:
/// `(address is IPv6, prefix length, canonical text)`.
pub uninterp spec fn net_parse(text: Seq<char>) -> Option<(bool, int, Seq<char>)>;

/// Whether network `net` (CIDR text) contains address `ip` (`IpNet::contains`), both parsing.
pub uninterp spec fn net_has(net: Seq<char>, ip: Seq<char>) -> bool;

/// An IP address read by std: whether it is IPv6, whether it is a loopback address, and its
/// canonical text (`IpAddr::to_string`).
#[verifier::external_body]
pub(crate) fn parse_ip(text: &str) -> (r: Option<(bool, bool, String)>)
    ensures
        match r {
            Some((v6, lo, t)) => ip_parse(text@) == Some((v6, lo, t@)),
            None => ip_parse(text@) is None,
        },
{
    match text.parse::<core::net::IpAddr>() {
        Ok(ip) => Some((ip.is_ipv6(), ip.is_loopback(), ip.to_string())),
        Err(_) => None,
    }
}

/// A character of the text of an IPv4 network: an ASCII digit, `.` or `/`.
pub open spec fn v4_net_char(c: char) -> bool {
    ('0' <= c && c <= '9') || c == '.' || c == '/'
}

/// A network read by `ipnet`: whether its address is IPv6, its prefix length and its
/// canonical text (`IpNet::to_string`). For an IPv4 network, ipnet's `Display` writes the
/// std dotted-decimal address, `/` and the prefix length in decimal (ipnet.rs `Display for
/// Ipv4Net`), and its parser (parser.rs `read_ipv4_net`: four decimal octets below 256, `/`,
/// a prefix below 33) reads that text back as the same network.
#[verifier::external_body]
pub(crate) fn parse_net(text: &str) -> (r: Option<(bool, u8, String)>)
    ensures
        match r {
            Some((v6, p, t)) => net_parse(text@) == Some((v6, p as int, t@)),
            None => net_parse(text@) is None,
        },
        match r {
            Some((v6, p, t)) => !v6 ==> (net_parse(t@) == Some((false, p as int, t@)) && crate::text::has_char(t@, '/')
                && forall|i: int| 0 <= i < t@.len() ==> v4_net_char(#[trigger] t@[i])),
            None => true,
        },
{
    match text.parse::<ipnet::IpNet>() {
        Ok(net) => Some((net.addr().is_ipv6(), net.prefix_len(), net.to_string())),
        Err(_) => None,
    }
}

/// `IpNet::contains` for a network and an address given as text; `false` where either does
/// not parse.
#[verifier::external_body]
pub(crate) fn net_contains(net: &str, ip: &str) -> (r: bool)
    ensures
        r == net_has(net@, ip@),
{
    match (net.parse::<ipnet::IpNet>(), ip.parse::<core::net::IpAddr>()) {
        (Ok(n), Ok(a)) => n.contains(&a),
        _ => false,
    }
}

} // verus!
