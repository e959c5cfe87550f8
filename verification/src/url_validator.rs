//! URL safety check: only http(s) URLs whose host is neither a private or
//! internal IP address nor a local host name may be fetched.
use vstd::prelude::*;
use crate::text::{
    chars_of, ends_with_str, extend, extend_str, has_prefix, has_suffix, same, slice,
    starts_with_str, string_of,
};

verus! {

/// An IP address given as plain numbers.
#[derive(Clone, Copy, Debug, PartialEq, Eq)]
pub enum IpAddress {
    /// The four octets of an IPv4 address.
    V4([u8; 4]),
    /// The eight 16-bit segments of an IPv6 address.
    V6([u16; 8]),
}

/// What `url::Url::parse` makes of `input`: `Err` with the parse error's
/// message, or the URL's scheme, its serialization, and its host (`None`
/// when it has none; else the host's serialization together with its
/// address when the host is an IP address).
pub uninterp spec fn url_parse(input: Seq<char>) -> Result<
    (Seq<char>, Seq<char>, Option<(Seq<char>, Option<IpAddress>)>),
    Seq<char>,
>;

/// What `url::Url::join` makes of `href` against the URL that `base` parses
/// to: `None` when it fails, else the scheme and serialization of the result.
pub uninterp spec fn url_join(base: Seq<char>, href: Seq<char>) -> Option<(Seq<char>, Seq<char>)>;

/// A URL as the url crate reads it, in plain values.
#[derive(Debug, Clone)]
pub struct ParsedUrl {
    /// The scheme, lower case.
    pub scheme: String,
    /// The URL as the crate writes it out.
    pub text: String,
    /// The host and, for an IP host, its address.
    pub host: Option<(String, Option<IpAddress>)>,
}

/// The view of a host.
pub open spec fn host_view(h: Option<(String, Option<IpAddress>)>) -> Option<(Seq<char>, Option<IpAddress>)> {
    match h {
        None => None,
        Some((n, ip)) => Some((n@, ip)),
    }
}

/// The view of a parse.
pub open spec fn parse_view(r: Result<ParsedUrl, String>) -> Result<
    (Seq<char>, Seq<char>, Option<(Seq<char>, Option<IpAddress>)>),
    Seq<char>,
> {
    match r {
        Err(e) => Err(e@),
        Ok(p) => Ok((p.scheme@, p.text@, host_view(p.host))),
    }
}

/// The host part of a parse.
pub open spec fn parsed_host(r: Result<
    (Seq<char>, Seq<char>, Option<(Seq<char>, Option<IpAddress>)>),
    Seq<char>,
>) -> Result<Option<(Seq<char>, Option<IpAddress>)>, Seq<char>> {
    match r {
        Err(e) => Err(e),
        Ok((_, _, h)) => Ok(h),
    }
}

/// The view of a parsed host.
pub open spec fn parsed_host_view(r: Result<Option<(String, Option<IpAddress>)>, String>) -> Result<
    Option<(Seq<char>, Option<IpAddress>)>,
    Seq<char>,
> {
    match r {
        Err(e) => Err(e@),
        Ok(h) => Ok(host_view(h)),
    }
}

/// The view of a check's outcome.
pub open spec fn verdict_view(r: Result<(), String>) -> Result<(), Seq<char>> {
    match r {
        Ok(()) => Ok(()),
        Err(e) => Err(e@),
    }
}

/// Parses `input` with `url::Url::parse` and reads the result's scheme,
/// serialization, host (`host_str`) and, for an IP host, the address
/// (`host`). What the url crate computes (WHATWG URL parsing, IDNA, IPv4
/// number forms) is named, not restated.
#[verifier::external_body]
pub(crate) fn parse_url(input: &str) -> (r: Result<ParsedUrl, String>)
    ensures
        parse_view(r) == url_parse(input@),
{
    match url::Url::parse(input) {
        Err(e) => Err(e.to_string()),
        Ok(u) => Ok(ParsedUrl {
            scheme: u.scheme().to_string(),
            text: u.to_string(),
            host: u.host_str().map(|h| (h.to_string(), match u.host() {
                Some(url::Host::Ipv4(a)) => Some(IpAddress::V4(a.octets())),
                Some(url::Host::Ipv6(a)) => Some(IpAddress::V6(a.segments())),
                Some(url::Host::Domain(_)) => None,
                None => None,
            })),
        }),
    }
}

/// Resolves `href` against the URL `base` with `url::Url::join` (after
/// reading `base` with `url::Url::parse`, which the caller has seen succeed)
/// and reads the result's scheme and serialization. What the join computes
/// is named, not restated.
#[verifier::external_body]
pub(crate) fn join_url(base: &str, href: &str) -> (r: Option<(String, String)>)
    requires
        url_parse(base@) is Ok,
    ensures
        match r {
            Some((s, t)) => url_join(base@, href@) == Some((s@, t@)),
            None => url_join(base@, href@) is None,
        },
{
    match url::Url::parse(base) {
        Ok(b) => b.join(href).ok().map(|u| (u.scheme().to_string(), u.to_string())),
        Err(_) => None,
    }
}

/// An IPv4 address in 10/8, 172.16/12, 192.168/16, 127/8 (loopback),
/// 169.254/16 (link-local), or 0.0.0.0 (unspecified).
pub open spec fn private_v4(o: [u8; 4]) -> bool {
    ||| o@[0] == 10
    ||| (o@[0] == 172 && 16 <= o@[1] <= 31)
    ||| (o@[0] == 192 && o@[1] == 168)
    ||| o@[0] == 127
    ||| (o@[0] == 169 && o@[1] == 254)
    ||| (o@[0] == 0 && o@[1] == 0 && o@[2] == 0 && o@[3] == 0)
}

/// `::1`.
pub open spec fn v6_loopback(s: [u16; 8]) -> bool {
    s@[0] == 0 && s@[1] == 0 && s@[2] == 0 && s@[3] == 0 && s@[4] == 0 && s@[5] == 0 && s@[6]
        == 0 && s@[7] == 1
}

/// `::`.
pub open spec fn v6_unspecified(s: [u16; 8]) -> bool {
    s@[0] == 0 && s@[1] == 0 && s@[2] == 0 && s@[3] == 0 && s@[4] == 0 && s@[5] == 0 && s@[6]
        == 0 && s@[7] == 0
}

/// An IPv6 address that is loopback, unique local (fc00::/7), link-local
/// (fe80::/10) or unspecified.
pub open spec fn private_v6(s: [u16; 8]) -> bool {
    ||| v6_loopback(s)
    ||| (s@[0] & 0xfe00u16) == 0xfc00u16
    ||| (s@[0] & 0xffc0u16) == 0xfe80u16
    ||| v6_unspecified(s)
}

/// A private or internal address.
pub open spec fn private_ip(ip: IpAddress) -> bool {
    match ip {
        IpAddress::V4(o) => private_v4(o),
        IpAddress::V6(s) => private_v6(s),
    }
}

/// The text of an address host: the host without the brackets that enclose
/// an IPv6 address.
pub open spec fn address_text(host: Seq<char>) -> Seq<char> {
    if host.len() >= 2 && host[0] == '[' && host.last() == ']' {
        host.subrange(1, host.len() - 1)
    } else {
        host
    }
}

/// The host is a local name: `localhost`, or ends in `.local` or `.internal`.
pub open spec fn local_host_name(host: Seq<char>) -> bool {
    host == "localhost"@ || has_suffix(host, ".local"@) || has_suffix(host, ".internal"@)
}

/// The verdict on a URL's host.
pub open spec fn host_verdict(host: Seq<char>, ip: Option<IpAddress>) -> Result<(), Seq<char>> {
    if ip is Some && private_ip(ip->0) {
        Err("Access to private/internal IP "@ + address_text(host) + " is blocked"@)
    } else if local_host_name(host) {
        Err("Access to hostname '"@ + host + "' is blocked"@)
    } else {
        Ok(())
    }
}

/// The URL begins with `http://` or `https://`.
pub open spec fn web_scheme(url: Seq<char>) -> bool {
    has_prefix(url, "http://"@) || has_prefix(url, "https://"@)
}

/// The verdict on a URL, given how the url crate reads it.
pub open spec fn url_verdict(
    url: Seq<char>,
    parsed: Result<Option<(Seq<char>, Option<IpAddress>)>, Seq<char>>,
) -> Result<(), Seq<char>> {
    if !web_scheme(url) {
        Err("URL must start with http:// or https://"@)
    } else {
        match parsed {
            Err(e) => Err("Invalid URL: "@ + e),
            Ok(None) => Err("URL has no host"@),
            Ok(Some((host, ip))) => host_verdict(host, ip),
        }
    }
}

/// A host whose address is private or internal is refused, whatever its name.
pub proof fn lemma_private_address_refused(host: Seq<char>, ip: IpAddress)
    requires
        private_ip(ip),
    ensures
        host_verdict(host, Some(ip)) is Err,
{
}

/// A local host name is refused, whatever address it has.
pub proof fn lemma_local_name_refused(host: Seq<char>, ip: Option<IpAddress>)
    requires
        local_host_name(host),
    ensures
        host_verdict(host, ip) is Err,
{
}

/// Only http and https URLs pass, whatever their host.
pub proof fn lemma_only_web_schemes_pass(
    url: Seq<char>,
    parsed: Result<Option<(Seq<char>, Option<IpAddress>)>, Seq<char>>,
)
    requires
        url_verdict(url, parsed) is Ok,
    ensures
        web_scheme(url),
{
}

/// An internal address, by its numbers: IPv4 10.0.0.0/8, 172.16.0.0/12,
/// 192.168.0.0/16, 127.0.0.0/8, 169.254.0.0/16 and 0.0.0.0; IPv6 `::1`,
/// `::`, fc00::/7 (first group fc00 to fdff) and fe80::/10 (first group
/// fe80 to febf).
pub open spec fn internal_address(ip: IpAddress) -> bool {
    match ip {
        IpAddress::V4(o) => {
            let (a, b, c, d) = (o@[0] as int, o@[1] as int, o@[2] as int, o@[3] as int);
            ||| a == 10
            ||| a == 172 && 16 <= b && b <= 31
            ||| a == 192 && b == 168
            ||| a == 127
            ||| a == 169 && b == 254
            ||| a == 0 && b == 0 && c == 0 && d == 0
        },
        IpAddress::V6(g) => {
            let zero_head = g@[0] == 0 && g@[1] == 0 && g@[2] == 0 && g@[3] == 0 && g@[4] == 0
                && g@[5] == 0 && g@[6] == 0;
            ||| zero_head && (g@[7] == 0 || g@[7] == 1)
            ||| 0xfc00 <= g@[0] && g@[0] <= 0xfdff
            ||| 0xfe80 <= g@[0] && g@[0] <= 0xfebf
        },
    }
}

/// The verdict on an http or https URL: a host at an internal address is
/// refused as a private address; else a host named `localhost`, or ending
/// in `.local` or `.internal`, is refused by name; every other host passes.
pub proof fn lemma_url_verdicts(url: Seq<char>, host: Seq<char>, ip: Option<IpAddress>)
    requires
        has_prefix(url, "http://"@) || has_prefix(url, "https://"@),
    ensures
        ip matches Some(a) && internal_address(a) ==> url_verdict(url, Ok(Some((host, ip)))) == Err::<
            (),
            Seq<char>,
        >("Access to private/internal IP "@ + address_text(host) + " is blocked"@),
        !(ip matches Some(a) && internal_address(a)) && (host == "localhost"@ || has_suffix(
            host,
            ".local"@,
        ) || has_suffix(host, ".internal"@)) ==> url_verdict(url, Ok(Some((host, ip)))) == Err::<
            (),
            Seq<char>,
        >("Access to hostname '"@ + host + "' is blocked"@),
        !(ip matches Some(a) && internal_address(a)) && !(host == "localhost"@ || has_suffix(
            host,
            ".local"@,
        ) || has_suffix(host, ".internal"@)) ==> url_verdict(url, Ok(Some((host, ip)))) == Ok::<
            (),
            Seq<char>,
        >(()),
{
    if let Some(a) = ip {
        match a {
            IpAddress::V6(g) => {
                let x = g@[0];
                assert(((x & 0xfe00u16) == 0xfc00u16) == (0xfc00 <= x && x <= 0xfdff)) by (bit_vector);
                assert(((x & 0xffc0u16) == 0xfe80u16) == (0xfe80 <= x && x <= 0xfebf)) by (bit_vector);
            },
            IpAddress::V4(_) => {},
        }
        assert(private_ip(a) == internal_address(a));
    }
}

/// Is the address private or internal?
pub fn is_private_ip(ip: &IpAddress) -> (r: bool)
    ensures
        r == private_ip(*ip),
{
    match ip {
        IpAddress::V4(o) => {
            o[0] == 10 || (o[0] == 172 && 16 <= o[1] && o[1] <= 31) || (o[0] == 192 && o[1] == 168)
                || o[0] == 127 || (o[0] == 169 && o[1] == 254) || (o[0] == 0 && o[1] == 0 && o[2]
                == 0 && o[3] == 0)
        },
        IpAddress::V6(s) => {
            let zero_prefix = s[0] == 0 && s[1] == 0 && s[2] == 0 && s[3] == 0 && s[4] == 0 && s[5]
                == 0 && s[6] == 0;
            (zero_prefix && s[7] == 1) || (s[0] & 0xfe00u16) == 0xfc00u16 || (s[0] & 0xffc0u16)
                == 0xfe80u16 || (zero_prefix && s[7] == 0)
        },
    }
}

/// Check a URL's host and, when it is an IP address, the address.
pub fn check_host(host: &str, ip: Option<IpAddress>) -> (r: Result<(), String>)
    ensures
        verdict_view(r) == host_verdict(host@, ip),
{
    let h = chars_of(host);
    if let Some(addr) = ip {
        if is_private_ip(&addr) {
            let text = if h.len() >= 2 && h[0] == '[' && h[h.len() - 1] == ']' {
                slice(&h, 1, h.len() - 1)
            } else {
                slice(&h, 0, h.len())
            };
            proof {
                assert(h@.subrange(0, h@.len() as int) =~= h@);
            }
            let mut m: Vec<char> = Vec::new();
            extend_str(&mut m, "Access to private/internal IP ");
            extend(&mut m, &text);
            extend_str(&mut m, " is blocked");
            return Err(string_of(&m));
        }
    }
    let l = chars_of("localhost");
    if same(&h, &l) || ends_with_str(&h, ".local") || ends_with_str(&h, ".internal") {
        let mut m: Vec<char> = Vec::new();
        extend_str(&mut m, "Access to hostname '");
        extend(&mut m, &h);
        extend_str(&mut m, "' is blocked");
        return Err(string_of(&m));
    }
    Ok(())
}

/// Check a URL given how the url crate reads it.
pub fn validate_parsed(url: &str, parsed: Result<Option<(String, Option<IpAddress>)>, String>) -> (r:
    Result<(), String>)
    ensures
        verdict_view(r) == url_verdict(url@, parsed_host_view(parsed)),
{
    let u = chars_of(url);
    if !starts_with_str(&u, "http://") && !starts_with_str(&u, "https://") {
        return Err(string_of(&chars_of("URL must start with http:// or https://")));
    }
    match parsed {
        Err(e) => {
            let mut m = chars_of("Invalid URL: ");
            extend_str(&mut m, e.as_str());
            Err(string_of(&m))
        },
        Ok(None) => Err(string_of(&chars_of("URL has no host"))),
        Ok(Some((host, ip))) => check_host(host.as_str(), ip),
    }
}

/// Validate that a URL is safe to fetch (not targeting private/internal
/// networks). Returns `Ok(())` if safe, `Err` with a description if blocked.
pub fn validate_url(url: &str) -> (r: Result<(), String>)
    ensures
        verdict_view(r) == url_verdict(url@, parsed_host(url_parse(url@))),
        r is Ok ==> web_scheme(url@),
{
    let u = chars_of(url);
    if !starts_with_str(&u, "http://") && !starts_with_str(&u, "https://") {
        return Err(string_of(&chars_of("URL must start with http:// or https://")));
    }
    let parsed = match parse_url(url) {
        Err(e) => Err(e),
        Ok(p) => Ok(p.host),
    };
    validate_parsed(url, parsed)
}

/// The domain of a page URL as the crawler records it: the URL's host, or
/// nothing when it has none; a URL that does not parse is an error.
pub fn page_domain(url: &str) -> (r: Result<String, String>)
    ensures
        match r {
            Ok(d) => match url_parse(url@) {
                Ok((_, _, Some((h, _)))) => d@ == h,
                Ok((_, _, None)) => d@ == Seq::<char>::empty(),
                Err(_) => false,
            },
            Err(e) => url_parse(url@) == Err::<
                (Seq<char>, Seq<char>, Option<(Seq<char>, Option<IpAddress>)>),
                Seq<char>,
            >(e@),
        },
{
    match parse_url(url) {
        Err(e) => Err(e),
        Ok(p) => match p.host {
            Some((h, _)) => Ok(h),
            None => Ok(String::new()),
        },
    }
}

} // verus!
