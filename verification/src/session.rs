//! A probing session: the options it was started with and the rules
//! that turn each target string into a protocol and a host to resolve.
//!
//! Detection order: a forced family means ICMP; forced TCP expects
//! `host:port`; forced HTTP prefixes a scheme where none is given; a
//! `http://` or `https://` scheme means HTTP; a bare address literal
//! means ICMP; `host:port` means TCP; anything else means ICMP.

use vstd::prelude::*;
use vstd::string::StringSliceAdditionalSpecFns;
use vstd::string::StrSliceExecFns;
use vstd::string::StringExecFns;
use crate::cli::{Cli, Protocol};
use crate::addr::{spec_parse_ipv4, spec_parse_ipv6, parse_ipv4, parse_ipv6};

verus! {

/// What `reqwest::Url::parse` yields for a text: the host and the
/// port (explicit, else the scheme's known default, else 80), or
/// `None` where the text has no parse with a host. The parse is a
/// function of the text alone.
pub uninterp spec fn url_host_port_of(s: Seq<char>) -> Option<(Seq<char>, u16)>;

/// Relies on reqwest::Url::parse, Url::host_str and
/// Url::port_or_known_default (reqwest re-exports the url crate's
/// type): parsing a URL and reading its host and port are functions of
/// the text alone.
#[verifier::external_body]
fn url_host_port(s: &str) -> (r: Option<(String, u16)>)
    ensures
        r is Some <==> url_host_port_of(s@) is Some,
        r matches Some(hp) ==> (url_host_port_of(s@) matches Some(shp) && hp.0@ == shp.0
            && hp.1 == shp.1),
{
    match reqwest::Url::parse(s) {
        Ok(u) => match u.host_str() {
            Some(h) => {
                let port = u.port_or_known_default().unwrap_or(80);
                Some((h.to_string(), port))
            },
            None => None,
        },
        Err(_) => None,
    }
}

/// Index of the last `:` in `s`.
pub open spec fn last_colon(s: Seq<char>) -> Option<int>
    decreases s.len(),
{
    if s.len() == 0 {
        None
    } else if s.last() == ':' {
        Some(s.len() - 1)
    } else {
        last_colon(s.drop_last())
    }
}

/// Decimal value of `s`, dead on a non-digit or past 65535.
pub open spec fn port_run(s: Seq<char>) -> Option<int>
    decreases s.len(),
{
    if s.len() == 0 {
        Some(0)
    } else {
        match port_run(s.drop_last()) {
            None => None,
            Some(v) => {
                let c = s.last();
                if 48 <= c as int <= 57 {
                    if v * 10 + (c as int - 48) <= 65535 {
                        Some(v * 10 + (c as int - 48))
                    } else {
                        None
                    }
                } else {
                    None
                }
            },
        }
    }
}

/// The port grammar: one or more decimal digits valuing at most 65535.
pub open spec fn spec_parse_port(s: Seq<char>) -> Option<u16> {
    if s.len() == 0 {
        None
    } else {
        match port_run(s) {
            Some(v) => Some(v as u16),
            None => None,
        }
    }
}

/// `[host]` becomes `host`; anything else is unchanged.
pub open spec fn strip_brackets(s: Seq<char>) -> Seq<char> {
    if s.len() >= 2 && s[0] == '[' && s.last() == ']' {
        s.subrange(1, s.len() - 1)
    } else {
        s
    }
}

/// The four characters `http` open `s`.
pub open spec fn starts_with_http4(s: Seq<char>) -> bool {
    s.len() >= 4 && s[0] == 'h' && s[1] == 't' && s[2] == 't' && s[3] == 'p'
}

/// `http://` opens `s`.
pub open spec fn starts_with_http_scheme(s: Seq<char>) -> bool {
    s.len() >= 7 && s[0] == 'h' && s[1] == 't' && s[2] == 't' && s[3] == 'p' && s[4] == ':'
        && s[5] == '/' && s[6] == '/'
}

/// `https://` opens `s`.
pub open spec fn starts_with_https_scheme(s: Seq<char>) -> bool {
    s.len() >= 8 && s[0] == 'h' && s[1] == 't' && s[2] == 't' && s[3] == 'p' && s[4] == 's'
        && s[5] == ':' && s[6] == '/' && s[7] == '/'
}

/// The scheme text prepended in forced-HTTP mode.
pub open spec fn http_scheme_prefix() -> Seq<char> {
    seq!['h', 't', 't', 'p', ':', '/', '/']
}

/// `s` is a bare IPv4 or IPv6 address literal.
pub open spec fn is_ip_literal(s: Seq<char>) -> bool {
    spec_parse_ipv4(vstd::utf8::encode_utf8(s)) is Some || spec_parse_ipv6(
        vstd::utf8::encode_utf8(s),
    ) is Some
}

/// The verdict of protocol detection on one target string.
pub enum SpecDetection {
    /// Probe with ICMP Echo; the payload is the host to resolve.
    Icmp(Seq<char>),
    /// Probe with TCP connects to this port on this host.
    Tcp(u16, Seq<char>),
    /// Probe with HTTP HEAD on this URL text; the host to resolve.
    Http(Seq<char>, Seq<char>),
    /// The target cannot be probed as demanded.
    Invalid,
}

/// The detection rules over one target string.
pub open spec fn spec_detect(
    force_icmp: bool,
    force_tcp: bool,
    force_http: bool,
    s: Seq<char>,
) -> SpecDetection {
    if force_icmp {
        SpecDetection::Icmp(s)
    } else if force_tcp {
        match last_colon(s) {
            Some(i) => match spec_parse_port(s.skip(i + 1)) {
                Some(p) => SpecDetection::Tcp(p, strip_brackets(s.take(i))),
                None => SpecDetection::Invalid,
            },
            None => SpecDetection::Invalid,
        }
    } else if force_http {
        let url = if starts_with_http4(s) {
            s
        } else {
            http_scheme_prefix() + s
        };
        match url_host_port_of(url) {
            Some(hp) => SpecDetection::Http(url, hp.0),
            None => SpecDetection::Http(s, s),
        }
    } else if starts_with_http_scheme(s) || starts_with_https_scheme(s) {
        match url_host_port_of(s) {
            Some(hp) => SpecDetection::Http(s, hp.0),
            None => SpecDetection::Http(s, s),
        }
    } else {
        match last_colon(s) {
            Some(i) => match spec_parse_port(s.skip(i + 1)) {
                Some(p) => if is_ip_literal(s) {
                    SpecDetection::Icmp(s)
                } else {
                    SpecDetection::Tcp(p, strip_brackets(s.take(i)))
                },
                None => SpecDetection::Icmp(s),
            },
            None => SpecDetection::Icmp(s),
        }
    }
}

/// Failure of protocol detection.
#[derive(Debug, Clone, Copy, PartialEq, Eq, Structural)]
pub enum DetectError {
    /// Forced TCP needs the target in `host:port` form.
    TcpFormat,
}

/// A probing session over the options it was started with.
pub struct Session {
    pub cli: Cli,
}

/// Index of the last `:` of `s`, executable.
fn find_last_colon(s: &str) -> (r: Option<usize>)
    ensures
        r matches Some(i) ==> last_colon(s@) == Some(i as int) && i < s@.len(),
        r is None ==> last_colon(s@) is None,
{
    let n = s.unicode_len();
    let mut k = n;
    proof {
        assert(s@.take(n as int) =~= s@);
    }
    while k > 0
        invariant
            n == s@.len(),
            k <= n,
            last_colon(s@) == last_colon(s@.take(k as int)),
        decreases k,
    {
        proof {
            assert(s@.take(k as int).drop_last() =~= s@.take(k as int - 1));
            assert(s@.take(k as int).last() == s@[k as int - 1]);
        }
        let c = s.get_char(k - 1);
        if c == ':' {
            return Some(k - 1);
        }
        k = k - 1;
    }
    proof {
        assert(s@.take(0) =~= Seq::<char>::empty());
    }
    None
}

/// Read `s` as a decimal port number.
fn parse_port_str(s: &str) -> (r: Option<u16>)
    ensures
        r == spec_parse_port(s@),
{
    let n = s.unicode_len();
    if n == 0 {
        return None;
    }
    let mut v: u32 = 0;
    let mut i: usize = 0;
    while i < n
        invariant
            n == s@.len(),
            i <= n,
            port_run(s@.take(i as int)) == Some(v as int),
            v <= 65535,
        decreases n - i,
    {
        proof {
            assert(s@.take(i as int + 1).drop_last() =~= s@.take(i as int));
            assert(s@.take(i as int + 1).last() == s@[i as int]);
        }
        let c = s.get_char(i) as u32;
        if c < 48 || c > 57 {
            proof {
                lemma_port_run_fail_persists(s@, i as int + 1);
            }
            return None;
        }
        if v * 10 + (c - 48) > 65535 {
            proof {
                lemma_port_run_fail_persists(s@, i as int + 1);
            }
            return None;
        }
        v = v * 10 + (c - 48);
        i = i + 1;
    }
    proof {
        assert(s@.take(n as int) =~= s@);
    }
    Some(v as u16)
}

proof fn lemma_port_run_fail_persists(s: Seq<char>, i: int)
    requires
        0 <= i <= s.len(),
        port_run(s.take(i)) is None,
    ensures
        port_run(s) is None,
    decreases s.len() - i,
{
    if i < s.len() {
        assert(s.take(i + 1).drop_last() =~= s.take(i));
        lemma_port_run_fail_persists(s, i + 1);
    } else {
        assert(s.take(i) =~= s);
    }
}

impl Session {
    /// A session over the given options.
    pub fn new(cli: Cli) -> (r: Self)
        ensures
            r.cli == cli,
    {
        Self { cli }
    }

    /// Apply the detection rules to one target string; yields the
    /// transport to probe with and the host to resolve.
    pub fn detect_protocol(&self, target: &str) -> (r: Result<(Protocol, String), DetectError>)
        ensures
            ({
                let d = spec_detect(
                    self.cli.ipv4 || self.cli.ipv6,
                    self.cli.tcp,
                    self.cli.http,
                    target@,
                );
                &&& (r is Ok <==> !(d is Invalid))
                &&& (r matches Ok(ph) ==> match d {
                    SpecDetection::Icmp(h) => ph.0 == Protocol::Icmp && ph.1@ == h,
                    SpecDetection::Tcp(port, h) => ph.0 == Protocol::Tcp(port) && ph.1@ == h,
                    SpecDetection::Http(url, h) => (ph.0 matches Protocol::Http(u) && u@ == url
                        && ph.1@ == h),
                    SpecDetection::Invalid => false,
                })
            }),
    {
        let n = target.unicode_len();
        if self.cli.ipv4 || self.cli.ipv6 {
            return Ok((Protocol::Icmp, String::from_str(target)));
        }
        if self.cli.tcp {
            match find_last_colon(target) {
                Some(i) => {
                    let port_text = target.substring_char(i + 1, n);
                    match parse_port_str(port_text) {
                        Some(port) => {
                            proof {
                                assert(target@.subrange(i as int + 1, n as int) =~= target@.skip(
                                    i as int + 1,
                                ));
                            }
                            let host = self.strip_host_brackets(target, i);
                            Ok((Protocol::Tcp(port), host))
                        },
                        None => Err(DetectError::TcpFormat),
                    }
                },
                None => Err(DetectError::TcpFormat),
            }
        } else if self.cli.http {
            let url: String = if starts_http4_exec(target) {
                String::from_str(target)
            } else {
                let mut u = String::from_str("http://");
                proof {
                    reveal_strlit("http://");
                    assert(("http://")@ =~= http_scheme_prefix());
                }
                u.append(target);
                u
            };
            match url_host_port(url.as_str()) {
                Some(hp) => Ok((Protocol::Http(url), hp.0)),
                None => Ok((Protocol::Http(String::from_str(target)), String::from_str(target))),
            }
        } else if starts_http_scheme_exec(target) || starts_https_scheme_exec(target) {
            match url_host_port(target) {
                Some(hp) => Ok((Protocol::Http(String::from_str(target)), hp.0)),
                None => Ok((Protocol::Http(String::from_str(target)), String::from_str(target))),
            }
        } else {
            match find_last_colon(target) {
                Some(i) => {
                    let port_text = target.substring_char(i + 1, n);
                    proof {
                        assert(target@.subrange(i as int + 1, n as int) =~= target@.skip(
                            i as int + 1,
                        ));
                    }
                    match parse_port_str(port_text) {
                        Some(port) => {
                            let v4 = parse_ipv4(target.as_bytes());
                            let v6 = parse_ipv6(target.as_bytes());
                            if v4.is_some() || v6.is_some() {
                                Ok((Protocol::Icmp, String::from_str(target)))
                            } else {
                                let host = self.strip_host_brackets(target, i);
                                Ok((Protocol::Tcp(port), host))
                            }
                        },
                        None => Ok((Protocol::Icmp, String::from_str(target))),
                    }
                },
                None => Ok((Protocol::Icmp, String::from_str(target))),
            }
        }
    }

    /// The host part before the colon at `i`, brackets stripped.
    fn strip_host_brackets(&self, target: &str, i: usize) -> (r: String)
        requires
            i < target@.len(),
        ensures
            r@ == strip_brackets(target@.take(i as int)),
    {
        let host = target.substring_char(0, i);
        proof {
            assert(target@.subrange(0, i as int) =~= target@.take(i as int));
        }
        let hn = host.unicode_len();
        if hn >= 2 && host.get_char(0) == '[' && host.get_char(hn - 1) == ']' {
            let inner = host.substring_char(1, hn - 1);
            String::from_str(inner)
        } else {
            String::from_str(host)
        }
    }
}

/// `http` opens `s`, executable.
fn starts_http4_exec(s: &str) -> (r: bool)
    ensures
        r == starts_with_http4(s@),
{
    let n = s.unicode_len();
    n >= 4 && s.get_char(0) == 'h' && s.get_char(1) == 't' && s.get_char(2) == 't' && s.get_char(3)
        == 'p'
}

/// `http://` opens `s`, executable.
fn starts_http_scheme_exec(s: &str) -> (r: bool)
    ensures
        r == starts_with_http_scheme(s@),
{
    let n = s.unicode_len();
    n >= 7 && s.get_char(0) == 'h' && s.get_char(1) == 't' && s.get_char(2) == 't' && s.get_char(3)
        == 'p' && s.get_char(4) == ':' && s.get_char(5) == '/' && s.get_char(6) == '/'
}

/// `https://` opens `s`, executable.
fn starts_https_scheme_exec(s: &str) -> (r: bool)
    ensures
        r == starts_with_https_scheme(s@),
{
    let n = s.unicode_len();
    n >= 8 && s.get_char(0) == 'h' && s.get_char(1) == 't' && s.get_char(2) == 't' && s.get_char(3)
        == 'p' && s.get_char(4) == 's' && s.get_char(5) == ':' && s.get_char(6) == '/'
        && s.get_char(7) == '/'
}

} // verus!
