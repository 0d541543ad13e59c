use vstd::prelude::*;
use vstd::string::*;

use crate::address::{dotted, is_address_text, lemma_format_parse_round_trip, parse_ip};
use crate::classify::{is_special, is_special_use};
use crate::error::RequestError;
use crate::random::{generate_random_ip, is_generated};

verus! {

/// The sentinel that stands for "the own address could not be found".
pub const FALLBACK_IP: &'static str = "0.0.0.0";

/// The status code of a geolocation answer that carries information.
pub const SUCCESS_CODE: &'static str = "200";

/// The text of the sentinel address.
pub open spec fn fallback_text() -> Seq<char> {
    dotted(seq![0u8, 0u8, 0u8, 0u8])
}

/// The status code of a successful answer, as text.
pub open spec fn success_text() -> Seq<char> {
    seq!['2', '0', '0']
}

/// The record that the geolocation service answers with.
#[derive(Debug)]
pub struct IpInfo {
    pub ip: String,
    pub ip_number: String,
    pub ip_version: i32,
    pub country_name: String,
    pub country_code2: String,
    pub isp: String,
    pub response_code: String,
    pub response_message: String,
}

/// Where the address to look up comes from.
#[derive(Debug)]
pub enum ResolutionSource {
    Explicit(String),
    Random,
    PublicLookup,
}

/// What the caller has to do next, or how the lookup ended.
#[derive(Debug)]
pub enum Step {
    /// Ask the echo service for the caller's public address.
    FetchPublicIp,
    /// Ask the geolocation service about this validated address.
    Lookup(String),
    /// The geolocation service answered with information.
    Done(IpInfo),
    /// The lookup failed for good.
    Failed(RequestError),
}

/// The octets that `s` is the dotted-decimal text of (meaningful when
/// `is_address_text(s)`).
pub open spec fn address_of(s: Seq<char>) -> Seq<u8> {
    choose|o: Seq<u8>| o.len() == 4 && #[trigger] dotted(o) == s
}

/// The outcome of checking a resolved address: the sentinel first, then the
/// format, then the reserved ranges.
pub open spec fn validation(s: Seq<char>) -> Result<Seq<u8>, RequestError> {
    if s == fallback_text() {
        Err(RequestError::FallbackAddress)
    } else if !is_address_text(s) {
        Err(RequestError::InvalidIpFormat)
    } else if is_special(address_of(s)) {
        Err(RequestError::SpecialUse)
    } else {
        Ok(address_of(s))
    }
}

/// The step that follows resolving the address `s`: look it up when it passes
/// validation, fail with the validation error when it does not.
pub open spec fn step_after(s: Seq<char>, r: Step) -> bool {
    match validation(s) {
        Ok(_) => r matches Step::Lookup(t) && t@ == s,
        Err(e) => r == Step::Failed(e),
    }
}

/// Whether two strings hold the same characters.
fn text_eq(a: &str, b: &str) -> (r: bool)
    ensures
        r == (a@ == b@),
{
    let n = a.unicode_len();
    if n != b.unicode_len() {
        return false;
    }
    let mut i: usize = 0;
    while i < n
        invariant
            i <= n,
            n == a@.len(),
            n == b@.len(),
            forall|j: int| 0 <= j < i ==> a@[j] == b@[j],
        decreases n - i,
    {
        if a.get_char(i) != b.get_char(i) {
            return false;
        }
        i = i + 1;
    }
    assert(a@ =~= b@);
    true
}

/// The parsed address is the one its text names.
proof fn lemma_address_of(v: Seq<u8>)
    requires
        v.len() == 4,
    ensures
        is_address_text(dotted(v)),
        address_of(dotted(v)) == v,
{
    lemma_format_parse_round_trip(v);
    let o = address_of(dotted(v));
    assert(o.len() == 4 && dotted(o) == dotted(v));
}

/// Checks a resolved address: the sentinel fails with `FallbackAddress`
/// before its format is looked at, text that is not dotted decimal fails with
/// `InvalidIpFormat`, and a reserved address with `SpecialUse`.
pub fn validate_resolved(ip: &str) -> (r: Result<Vec<u8>, RequestError>)
    ensures
        match r {
            Ok(v) => validation(ip@) == Ok::<Seq<u8>, RequestError>(v@),
            Err(e) => validation(ip@) == Err::<Seq<u8>, RequestError>(e),
        },
{
    proof {
        reveal_strlit("0.0.0.0");
        let zero = seq![0u8, 0u8, 0u8, 0u8];
        assert(dotted(zero) =~= FALLBACK_IP@);
    }
    if text_eq(ip, FALLBACK_IP) {
        return Err(RequestError::FallbackAddress);
    }
    match parse_ip(ip) {
        Err(e) => Err(e),
        Ok(v) => {
            proof {
                lemma_address_of(v@);
            }
            if is_special_use(v.as_slice()) {
                Err(RequestError::SpecialUse)
            } else {
                Ok(v)
            }
        },
    }
}

/// Every address the generator can return passes validation.
pub proof fn lemma_generated_passes_validation(o: Seq<u8>)
    requires
        is_generated(o),
    ensures
        validation(dotted(o)) == Ok::<Seq<u8>, RequestError>(o),
{
    lemma_address_of(o);
    let zero = seq![0u8, 0u8, 0u8, 0u8];
    lemma_format_parse_round_trip(zero);
    if dotted(o) == fallback_text() {
        assert(o[0] >= 1);
        assert(o == zero);
    }
}

/// The step for a resolved address.
fn step_for(ip: String) -> (r: Step)
    ensures
        step_after(ip@, r),
{
    match validate_resolved(ip.as_str()) {
        Ok(_) => Step::Lookup(ip),
        Err(e) => Step::Failed(e),
    }
}

impl ResolutionSource {
    /// Picks the source: an explicit address first, then random mode, and the
    /// caller's public address otherwise.
    pub fn from_flags(ip_address: Option<String>, random: bool) -> (r: Self)
        ensures
            match ip_address {
                Some(s) => r == ResolutionSource::Explicit(s),
                None => if random {
                    r == ResolutionSource::Random
                } else {
                    r == ResolutionSource::PublicLookup
                },
            },
    {
        match ip_address {
            Some(s) => ResolutionSource::Explicit(s),
            None => if random {
                ResolutionSource::Random
            } else {
                ResolutionSource::PublicLookup
            },
        }
    }
}

/// The first step of a lookup. An explicit address is validated at once; a
/// random one is generated and validated; otherwise the public address has to
/// be fetched first.
pub fn start(source: ResolutionSource) -> (r: Step)
    ensures
        match source {
            ResolutionSource::Explicit(s) => step_after(s@, r),
            ResolutionSource::Random => step_after(r->Lookup_0@, r) && exists|o: Seq<u8>|
                is_generated(o) && r->Lookup_0@ == #[trigger] dotted(o),
            ResolutionSource::PublicLookup => r == Step::FetchPublicIp,
        },
{
    match source {
        ResolutionSource::Explicit(s) => step_for(s),
        ResolutionSource::Random => {
            let ip = generate_random_ip();
            let ghost o = choose|o: Seq<u8>| is_generated(o) && ip@ == #[trigger] dotted(o);
            proof {
                lemma_generated_passes_validation(o);
            }
            step_for(ip)
        },
        ResolutionSource::PublicLookup => Step::FetchPublicIp,
    }
}

/// The step after the echo service answered. A failed fetch resolves to the
/// sentinel, and so ends in `FallbackAddress`.
pub fn on_public_ip(fetched: Result<String, RequestError>) -> (r: Step)
    ensures
        match fetched {
            Ok(s) => step_after(s@, r),
            Err(_) => r == Step::Failed(RequestError::FallbackAddress),
        },
{
    let resolved = match fetched {
        Ok(s) => s,
        Err(_) => String::from_str(FALLBACK_IP),
    };
    proof {
        reveal_strlit("0.0.0.0");
        assert(dotted(seq![0u8, 0u8, 0u8, 0u8]) =~= FALLBACK_IP@);
    }
    step_for(resolved)
}

/// The step after the geolocation service answered: its failure ends the
/// lookup, and so does an answer whose status code is not `SUCCESS_CODE`.
pub fn on_ip_info(fetched: Result<IpInfo, RequestError>) -> (r: Step)
    ensures
        match fetched {
            Ok(info) => if info.response_code@ == success_text() {
                r == Step::Done(info)
            } else {
                r == Step::Failed(RequestError::NoIpInformation)
            },
            Err(e) => r == Step::Failed(e),
        },
{
    proof {
        reveal_strlit("200");
        assert(SUCCESS_CODE@ =~= success_text());
    }
    match fetched {
        Err(e) => Step::Failed(e),
        Ok(info) => if text_eq(info.response_code.as_str(), SUCCESS_CODE) {
            Step::Done(info)
        } else {
            Step::Failed(RequestError::NoIpInformation)
        },
    }
}

} // verus!
