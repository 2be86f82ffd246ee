//! Guard against server-side request forgery: outbound URLs, and every hop
//! of a redirect, must not lead to a private address or an internal host.

use vstd::prelude::*;
use vstd::string::StrSliceExecFns;
use crate::text::{parse_ipv4, quad_text, text_eq};

verus! {

/// An IP address: four octets, or eight 16-bit segments.
#[derive(Clone, Copy, Debug, PartialEq, Eq)]
pub enum IpAddr {
    V4([u8; 4]),
    V6([u16; 8]),
}

/// IPv4 ranges that never leave the site: loopback, the private ranges,
/// link-local, broadcast, unspecified, and carrier-grade NAT.
pub open spec fn is_private_v4(o: [u8; 4]) -> bool {
    let (a, b, c, d) = (o[0], o[1], o[2], o[3]);
    a == 127
    || a == 10
    || (a == 172 && 16 <= b <= 31)
    || (a == 192 && b == 168)
    || (a == 169 && b == 254)
    || (a == 255 && b == 255 && c == 255 && d == 255)
    || (a == 0 && b == 0 && c == 0 && d == 0)
    || (a == 100 && 64 <= b <= 127)
}

/// IPv6 loopback, unspecified, unique-local (`fc00::/7`) and link-local
/// (`fe80::/10`).
pub open spec fn is_private_v6(s: [u16; 8]) -> bool {
    let zero_prefix = s[0] == 0 && s[1] == 0 && s[2] == 0 && s[3] == 0 && s[4] == 0 && s[5] == 0 && s[6] == 0;
    (zero_prefix && s[7] == 1)
    || (zero_prefix && s[7] == 0)
    || (0xfc00 <= s[0] <= 0xfdff)
    || (0xfe80 <= s[0] <= 0xfebf)
}

pub open spec fn is_private_spec(ip: IpAddr) -> bool {
    match ip {
        IpAddr::V4(o) => is_private_v4(o),
        IpAddr::V6(s) => is_private_v6(s),
    }
}

/// Whether `ip` lies in a private, loopback, link-local or otherwise
/// internal range.
pub fn is_private_ip(ip: IpAddr) -> (r: bool)
    ensures
        r == is_private_spec(ip),
{
    match ip {
        IpAddr::V4(o) => {
            let (a, b, c, d) = (o[0], o[1], o[2], o[3]);
            a == 127
            || a == 10
            || (a == 172 && 16 <= b && b <= 31)
            || (a == 192 && b == 168)
            || (a == 169 && b == 254)
            || (a == 255 && b == 255 && c == 255 && d == 255)
            || (a == 0 && b == 0 && c == 0 && d == 0)
            || (a == 100 && 64 <= b && b <= 127)
        },
        IpAddr::V6(s) => {
            let zero_prefix = s[0] == 0 && s[1] == 0 && s[2] == 0 && s[3] == 0 && s[4] == 0 && s[5] == 0 && s[6] == 0;
            (zero_prefix && s[7] == 1)
            || (zero_prefix && s[7] == 0)
            || (0xfc00 <= s[0] && s[0] <= 0xfdff)
            || (0xfe80 <= s[0] && s[0] <= 0xfebf)
        },
    }
}

/// Whether host `h` is the internal name `b` or a name under it
/// (`h` ends with `"." + b`).
pub open spec fn matches_blocked(h: Seq<char>, b: Seq<char>) -> bool {
    h == b || (h.len() > b.len() && h.subrange(h.len() - b.len() - 1, h.len() as int) == seq!['.'] + b)
}

/// Whether host `h` (already lowercased) names an internal endpoint.
pub open spec fn is_blocked_spec(h: Seq<char>) -> bool {
    matches_blocked(h, "localhost"@)
    || matches_blocked(h, "metadata.google.internal"@)
    || matches_blocked(h, "metadata.aws.internal"@)
    || matches_blocked(h, "instance-data"@)
}

fn matches_label(h: &str, b: &str) -> (r: bool)
    ensures
        r == matches_blocked(h@, b@),
{
    if text_eq(h, b) {
        return true;
    }
    let hl = h.unicode_len();
    let bl = b.unicode_len();
    if hl <= bl {
        return false;
    }
    let start = hl - bl - 1;
    if h.get_char(start) != '.' {
        assert(h@.subrange(start as int, hl as int)[0] == h@[start as int]);
        return false;
    }
    let mut k: usize = 0;
    while k < bl
        invariant
            hl == h@.len(),
            bl == b@.len(),
            start == hl - bl - 1,
            k <= bl,
            forall|j: int| 0 <= j < k ==> h@[start + 1 + j] == b@[j],
        decreases bl - k,
    {
        if h.get_char(start + 1 + k) != b.get_char(k) {
            assert(h@.subrange(start as int, hl as int)[k + 1] == h@[start + 1 + k]);
            assert((seq!['.'] + b@)[k + 1] == b@[k as int]);
            return false;
        }
        k = k + 1;
    }
    assert(h@.subrange(start as int, hl as int) =~= seq!['.'] + b@);
    true
}

/// Whether the lowercased host `host` is an internal name, or a name under
/// one: `localhost`, `metadata.google.internal`, `metadata.aws.internal`,
/// `instance-data`.
pub fn is_blocked_host(host: &str) -> (r: bool)
    ensures
        r == is_blocked_spec(host@),
{
    matches_label(host, "localhost") || matches_label(host, "metadata.google.internal")
        || matches_label(host, "metadata.aws.internal") || matches_label(host, "instance-data")
}

/// The host of a URL as written in it, and the address it spells, if it is
/// an IP literal.
pub type HostParts = (String, Option<IpAddr>);

pub open spec fn parts_view(h: Option<HostParts>) -> Option<(Seq<char>, Option<IpAddr>)> {
    match h {
        Some(p) => Some((p.0@, p.1)),
        None => None,
    }
}

/// What the URL parser makes of `url`: `None` if it is not a URL, else its
/// host (text and IP literal), if it has one.
pub uninterp spec fn url_host(url: Seq<char>) -> Option<Option<(Seq<char>, Option<IpAddr>)>>;

/// The lowercase form of a text.
pub uninterp spec fn lower_of(s: Seq<char>) -> Seq<char>;

#[verifier::external_type_specification]
#[verifier::external_body]
pub struct ExParseError(url::ParseError);

/// Relies on url's `Url::parse` and `Url::host`: whether `url` parses, and
/// its host as text together with the address of an IP literal host.
#[verifier::external_body]
fn parse_url_host(url: &str) -> (r: Result<Option<HostParts>, url::ParseError>)
    ensures
        match r {
            Ok(h) => url_host(url@) == Some(parts_view(h)),
            Err(_) => url_host(url@) is None,
        },
{
    let u = url::Url::parse(url)?;
    Ok(u.host().map(|h| match h {
        url::Host::Domain(d) => (d.to_string(), None),
        url::Host::Ipv4(a) => (h.to_string(), Some(IpAddr::V4(a.octets()))),
        url::Host::Ipv6(a) => (h.to_string(), Some(IpAddr::V6(a.segments()))),
    }))
}

/// Relies on the `Display` of url's `ParseError`: the reason a text is not
/// a URL. Nothing is promised of the text.
#[verifier::external_body]
fn parse_error_text(e: &url::ParseError) -> String {
    e.to_string()
}

/// Relies on std's `str::to_lowercase`: the result depends on the
/// characters alone.
#[verifier::external_body]
fn lowercase(s: &str) -> (r: String)
    ensures
        r@ == lower_of(s@),
{
    s.to_lowercase()
}

/// `addr` is the address that a host spells: the IP literal the URL parser
/// found, or else the host text read as a dotted-decimal IPv4 address (as
/// the parser leaves it for schemes it does not know), or none.
pub open spec fn address_of(text: Seq<char>, ip: Option<IpAddr>, addr: Option<IpAddr>) -> bool {
    match ip {
        Some(a) => addr == Some(a),
        None => {
            &&& forall|o: [u8; 4]| text == quad_text(o) ==> addr == Some(IpAddr::V4(o))
            &&& (addr matches Some(a) ==> (a matches IpAddr::V4(o) && text == quad_text(o)))
        },
    }
}

/// The address that a host spells, if any.
pub fn host_address(text: &str, ip: Option<IpAddr>) -> (r: Option<IpAddr>)
    ensures
        address_of(text@, ip, r),
{
    match ip {
        Some(a) => Some(a),
        None => match parse_ipv4(text) {
            Some(o) => Some(IpAddr::V4(o)),
            None => None,
        },
    }
}

/// A host text without the brackets that enclose an IPv6 literal.
pub open spec fn unbracketed(t: Seq<char>) -> Seq<char> {
    if t.len() >= 2 && t[0] == '[' && t.last() == ']' {
        t.subrange(1, t.len() - 1)
    } else {
        t
    }
}

fn strip_brackets(t: &str) -> (r: String)
    ensures
        r@ == unbracketed(t@),
{
    let n = t.unicode_len();
    if n >= 2 && t.get_char(0) == '[' && t.get_char(n - 1) == ']' {
        String::from_str(t.substring_char(1, n - 1))
    } else {
        String::from_str(t)
    }
}

/// Why a host is refused, if it is: its lowercase form `lowered` is an
/// internal name, or the address `addr` it spells is private. A private
/// address is reported as written, without IPv6 brackets.
pub open spec fn host_rejection(
    text: Seq<char>,
    lowered: Seq<char>,
    addr: Option<IpAddr>,
    blocked_prefix: Seq<char>,
    private_prefix: Seq<char>,
) -> Option<Seq<char>> {
    if is_blocked_spec(lowered) {
        Some(blocked_prefix + text)
    } else if addr is Some && is_private_spec(addr.unwrap()) {
        Some(private_prefix + unbracketed(text))
    } else {
        None
    }
}

fn reject_host(text: &str, lowered: &str, addr: Option<IpAddr>, blocked_prefix: &str, private_prefix: &str) -> (r: Option<String>)
    ensures
        match host_rejection(text@, lowered@, addr, blocked_prefix@, private_prefix@) {
            Some(m) => r is Some && r.unwrap()@ == m,
            None => r is None,
        },
{
    if is_blocked_host(lowered) {
        Some(String::from_str(blocked_prefix).concat(text))
    } else {
        match addr {
            Some(a) => {
                if is_private_ip(a) {
                    let shown = strip_brackets(text);
                    Some(String::from_str(private_prefix).concat(shown.as_str()))
                } else {
                    None
                }
            },
            None => None,
        }
    }
}

/// Checks a host that a URL names, given its lowercase form `lowered` and
/// the address it spells.
pub fn check_host(text: &str, lowered: &str, addr: Option<IpAddr>) -> (r: Result<(), String>)
    ensures
        match host_rejection(text@, lowered@, addr, "Blocked internal hostname: "@, "Blocked private IP: "@) {
            Some(m) => r is Err && r->Err_0@ == m,
            None => r is Ok,
        },
{
    match reject_host(text, lowered, addr, "Blocked internal hostname: ", "Blocked private IP: ") {
        Some(m) => Err(m),
        None => Ok(()),
    }
}

/// Refuses a URL that does not parse (`"Invalid URL: "` and the reason),
/// whose host is an internal name (in any case), or whose host spells a
/// private IP address.
pub fn validate_url_not_private(url: &str) -> (r: Result<(), String>)
    ensures
        match url_host(url@) {
            None => r matches Err(m) && exists|t: Seq<char>| m@ == "Invalid URL: "@ + t,
            Some(None) => r is Ok,
            Some(Some(h)) => exists|addr: Option<IpAddr>| #[trigger] address_of(h.0, h.1, addr)
                && match host_rejection(h.0, lower_of(h.0), addr, "Blocked internal hostname: "@, "Blocked private IP: "@) {
                Some(m) => r is Err && r->Err_0@ == m,
                None => r is Ok,
            },
        },
{
    match parse_url_host(url) {
        Err(e) => {
            let reason = parse_error_text(&e);
            let m = String::from_str("Invalid URL: ").concat(reason.as_str());
            assert(m@ == "Invalid URL: "@ + reason@);
            let r: Result<(), String> = Err(m);
            assert(r matches Err(m) && exists|t: Seq<char>| m@ == "Invalid URL: "@ + t);
            r
        },
        Ok(None) => Ok(()),
        Ok(Some(h)) => {
            let lowered = lowercase(h.0.as_str());
            let addr = host_address(h.0.as_str(), h.1);
            let r = check_host(h.0.as_str(), lowered.as_str(), addr);
            let ghost hv = url_host(url@).unwrap().unwrap();
            assert(hv.0 == h.0@ && hv.1 == h.1);
            assert(address_of(hv.0, hv.1, addr) && match host_rejection(hv.0, lower_of(hv.0), addr,
                "Blocked internal hostname: "@, "Blocked private IP: "@) {
                Some(m) => r is Err && r->Err_0@ == m,
                None => r is Ok,
            });
            r
        },
    }
}

/// The most redirects followed in one request.
pub const MAX_REDIRECTS: usize = 10;

/// What the HTTP client does with a redirect hop.
pub enum RedirectAction {
    Follow,
    Stop,
    /// Abort the request, with this reason.
    Reject(String),
}

/// Decides a redirect hop to a URL with host `host` (its lowercase form
/// `lowered`, the address `addr` it spells) after `previous_hops` hops: a
/// refused host aborts, the eleventh hop stops, any other is followed.
pub fn redirect_action_with(host: &Option<HostParts>, lowered: &str, addr: Option<IpAddr>, previous_hops: usize) -> (r: RedirectAction)
    ensures
        match host {
            Some(h) => host_rejection(h.0@, lowered@, addr, "SSRF: redirect to blocked host: "@,
                "SSRF: redirect to private IP: "@) matches Some(m) ==> r matches RedirectAction::Reject(e) && e@ == m,
            None => true,
        },
        (host is None || host_rejection(host.unwrap().0@, lowered@, addr, "SSRF: redirect to blocked host: "@,
            "SSRF: redirect to private IP: "@) is None) ==> (if previous_hops >= MAX_REDIRECTS {
            r is Stop
        } else {
            r is Follow
        }),
{
    match host {
        Some(h) => {
            match reject_host(h.0.as_str(), lowered, addr, "SSRF: redirect to blocked host: ", "SSRF: redirect to private IP: ") {
                Some(m) => {
                    return RedirectAction::Reject(m);
                },
                None => {},
            }
        },
        None => {},
    }
    if previous_hops >= MAX_REDIRECTS {
        RedirectAction::Stop
    } else {
        RedirectAction::Follow
    }
}

/// Decides a redirect hop to `url` after `previous_hops` hops, under the
/// same rules as `validate_url_not_private`.
pub fn redirect_action(url: &str, previous_hops: usize) -> (r: RedirectAction)
    ensures
        match url_host(url@) {
            Some(Some(h)) => exists|addr: Option<IpAddr>| #[trigger] address_of(h.0, h.1, addr) && match host_rejection(
                h.0, lower_of(h.0), addr, "SSRF: redirect to blocked host: "@, "SSRF: redirect to private IP: "@) {
                Some(m) => r matches RedirectAction::Reject(e) && e@ == m,
                None => if previous_hops >= MAX_REDIRECTS { r is Stop } else { r is Follow },
            },
            _ => if previous_hops >= MAX_REDIRECTS { r is Stop } else { r is Follow },
        },
{
    let host = match parse_url_host(url) {
        Ok(h) => h,
        Err(_) => None,
    };
    match &host {
        Some(h) => {
            let lowered = lowercase(h.0.as_str());
            let addr = host_address(h.0.as_str(), h.1);
            let r = redirect_action_with(&host, lowered.as_str(), addr, previous_hops);
            let ghost hv = url_host(url@).unwrap().unwrap();
            assert(hv.0 == h.0@ && hv.1 == h.1);
            assert(address_of(hv.0, hv.1, addr) && match host_rejection(hv.0, lower_of(hv.0), addr,
                "SSRF: redirect to blocked host: "@, "SSRF: redirect to private IP: "@) {
                Some(m) => r matches RedirectAction::Reject(e) && e@ == m,
                None => if previous_hops >= MAX_REDIRECTS { r is Stop } else { r is Follow },
            });
            r
        },
        None => redirect_action_with(&host, "", None, previous_hops),
    }
}

} // verus!
