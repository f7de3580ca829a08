//! Host resolution decisions: literal handling and address choice.
//!
//! The DNS lookup itself is I/O and lives in the event loop; what to
//! do with a literal target and which resolved address to keep are
//! decided here.

use vstd::prelude::*;
use vstd::string::StringSliceAdditionalSpecFns;
use crate::addr::{parse_ipv4, parse_ipv6, spec_parse_ipv4, spec_parse_ipv6, IpAddress};

verus! {

/// The user's address-family preference.
#[derive(Debug, Clone, Copy, PartialEq, Eq, Structural)]
pub enum IpVersion {
    V4,
    V6,
    Any,
}

/// Failures of host resolution the library decides itself.
#[derive(Debug, Clone, Copy, PartialEq, Eq, Structural)]
pub enum ResolveError {
    /// An IPv6 literal was given together with the IPv4-only flag.
    V6LiteralUnderV4,
    /// An IPv4 literal was given together with the IPv6-only flag.
    V4LiteralUnderV6,
}

/// How a literal target resolves before any DNS query.
pub open spec fn spec_literal_resolution(s: Seq<u8>, version: IpVersion) -> Option<
    Result<IpAddress, ResolveError>,
> {
    match spec_parse_ipv4(s) {
        Some(v) => if version is V6 {
            Some(Err(ResolveError::V4LiteralUnderV6))
        } else {
            Some(Ok(IpAddress::V4(v)))
        },
        None => match spec_parse_ipv6(s) {
            Some(v) => if version is V4 {
                Some(Err(ResolveError::V6LiteralUnderV4))
            } else {
                Some(Ok(IpAddress::V6(v)))
            },
            None => None,
        },
    }
}

/// Resolve a literal target without DNS: an address literal of the
/// allowed family is itself the answer, one of the excluded family is
/// an error, and any other text needs a real lookup (`None`).
pub fn literal_resolution(host: &str, version: IpVersion) -> (r: Option<
    Result<IpAddress, ResolveError>,
>)
    ensures
        r == spec_literal_resolution(host.spec_bytes(), version),
{
    let bytes = host.as_bytes();
    if let Some(v) = parse_ipv4(bytes) {
        if let IpVersion::V6 = version {
            Some(Err(ResolveError::V4LiteralUnderV6))
        } else {
            Some(Ok(IpAddress::V4(v)))
        }
    } else if let Some(v) = parse_ipv6(bytes) {
        if let IpVersion::V4 = version {
            Some(Err(ResolveError::V6LiteralUnderV4))
        } else {
            Some(Ok(IpAddress::V6(v)))
        }
    } else {
        None
    }
}

/// Index of the first address of the wanted family, if any.
pub open spec fn first_of_family(s: Seq<IpAddress>, want_v6: bool) -> Option<int>
    decreases s.len(),
{
    if s.len() == 0 {
        None
    } else if s[0].spec_is_ipv6() == want_v6 {
        Some(0)
    } else {
        match first_of_family(s.skip(1), want_v6) {
            Some(i) => Some(i + 1),
            None => None,
        }
    }
}

/// The address the resolver's answer set yields under a family
/// preference: the first of the forced family, or — for `Any` — the
/// first IPv6 address where one exists (IPv6 sorts first), else the
/// first address of the list.
pub open spec fn spec_pick_address(s: Seq<IpAddress>, version: IpVersion) -> Option<IpAddress> {
    match version {
        IpVersion::V4 => match first_of_family(s, false) {
            Some(i) => Some(s[i]),
            None => None,
        },
        IpVersion::V6 => match first_of_family(s, true) {
            Some(i) => Some(s[i]),
            None => None,
        },
        IpVersion::Any => match first_of_family(s, true) {
            Some(i) => Some(s[i]),
            None => if s.len() > 0 {
                Some(s[0])
            } else {
                None
            },
        },
    }
}

/// Choose the address to probe from a resolved list under the user's
/// family preference.
pub fn pick_address(addrs: &Vec<IpAddress>, version: IpVersion) -> (r: Option<IpAddress>)
    ensures
        r == spec_pick_address(addrs@, version),
{
    let want_v6: bool = match version {
        IpVersion::V4 => false,
        IpVersion::V6 => true,
        IpVersion::Any => true,
    };
    let n = addrs.len();
    let mut i: usize = 0;
    proof {
        lemma_first_of_family_range(addrs@, want_v6);
    }
    while i < n
        invariant
            n == addrs@.len(),
            i <= n,
            want_v6 == !(version is V4),
            first_of_family(addrs@, want_v6) matches Some(j) ==> j >= i,
            forall|j: int| 0 <= j < i ==> (#[trigger] addrs@[j]).spec_is_ipv6() != want_v6,
        decreases n - i,
    {
        if addrs[i].is_ipv6() == want_v6 {
            proof {
                lemma_first_of_family_found(addrs@, want_v6, i as int);
            }
            return Some(addrs[i]);
        }
        proof {
            lemma_first_of_family_range(addrs@, want_v6);
            lemma_first_of_family_skip(addrs@, want_v6, i as int + 1);
        }
        i = i + 1;
    }
    proof {
        lemma_first_of_family_none(addrs@, want_v6);
    }
    match version {
        IpVersion::Any => {
            if n > 0 {
                Some(addrs[0])
            } else {
                None
            }
        },
        IpVersion::V4 => None,
        IpVersion::V6 => None,
    }
}

/// A first match lies inside the list.
proof fn lemma_first_of_family_range(s: Seq<IpAddress>, want_v6: bool)
    ensures
        first_of_family(s, want_v6) matches Some(k) ==> 0 <= k < s.len(),
    decreases s.len(),
{
    if s.len() > 0 {
        lemma_first_of_family_range(s.skip(1), want_v6);
    }
}

/// The first index whose family matches is the first match.
proof fn lemma_first_of_family_found(s: Seq<IpAddress>, want_v6: bool, i: int)
    requires
        0 <= i < s.len(),
        s[i].spec_is_ipv6() == want_v6,
        forall|j: int| 0 <= j < i ==> (#[trigger] s[j]).spec_is_ipv6() != want_v6,
    ensures
        first_of_family(s, want_v6) == Some(i),
    decreases i,
{
    if i > 0 {
        assert(s.skip(1)[i - 1] == s[i]);
        assert forall|j: int| 0 <= j < i - 1 implies !((#[trigger] s.skip(1)[j]).spec_is_ipv6()
            == want_v6) by {
            assert(s.skip(1)[j] == s[j + 1]);
        }
        lemma_first_of_family_found(s.skip(1), want_v6, i - 1);
    }
}

/// No index matches: there is no first match.
proof fn lemma_first_of_family_none(s: Seq<IpAddress>, want_v6: bool)
    requires
        forall|j: int| 0 <= j < s.len() ==> (#[trigger] s[j]).spec_is_ipv6() != want_v6,
    ensures
        first_of_family(s, want_v6) is None,
    decreases s.len(),
{
    if s.len() > 0 {
        assert forall|j: int| 0 <= j < s.skip(1).len() implies !((
        #[trigger] s.skip(1)[j]).spec_is_ipv6() == want_v6) by {
            assert(s.skip(1)[j] == s[j + 1]);
        }
        lemma_first_of_family_none(s.skip(1), want_v6);
    }
}

/// While no match was seen, the first match lies at or past `i`.
proof fn lemma_first_of_family_skip(s: Seq<IpAddress>, want_v6: bool, i: int)
    requires
        0 <= i <= s.len(),
        forall|j: int| 0 <= j < i ==> (#[trigger] s[j]).spec_is_ipv6() != want_v6,
    ensures
        first_of_family(s, want_v6) matches Some(k) ==> k >= i,
    decreases i,
{
    lemma_first_of_family_range(s, want_v6);
    if i > 0 && s.len() > 0 {
        assert forall|j: int| 0 <= j < i - 1 implies !((#[trigger] s.skip(1)[j]).spec_is_ipv6()
            == want_v6) by {
            assert(s.skip(1)[j] == s[j + 1]);
        }
        lemma_first_of_family_skip(s.skip(1), want_v6, i - 1);
        assert forall|k: int| first_of_family(s, want_v6) == Some(k) implies k >= i by {
            assert(s[0].spec_is_ipv6() != want_v6);
            assert(first_of_family(s.skip(1), want_v6) matches Some(k2) && k == k2 + 1);
        }
    }
}

} // verus!
