use vstd::prelude::*;

use crate::address::{dotted, format_ip, lemma_format_parse_round_trip, is_address_text};
use crate::classify::{is_special, is_special_use};

verus! {

/// Smallest octet value the generator draws.
pub const MIN_OCTET: u8 = 1;

/// Largest octet value the generator draws.
pub const MAX_OCTET: u8 = 254;

/// How many candidates the generator draws before it gives up on chance.
/// Fewer than a third of all candidates are reserved, so reaching this bound
/// does not happen in practice; it only makes the loop finite.
pub const MAX_DRAWS: u32 = 1_000_000;

/// Every octet of the address returned should every draw have been reserved
/// (1.1.1.1: within the drawn range, and in no reserved range).
pub const LAST_RESORT_OCTET: u8 = 1;

/// Octets the generator may return: four of them, none 0 or 255, and not a
/// special-use address.
pub open spec fn is_generated(o: Seq<u8>) -> bool {
    &&& o.len() == 4
    &&& forall|i: int| 0 <= i < 4 ==> MIN_OCTET <= #[trigger] o[i] <= MAX_OCTET
    &&& !is_special(o)
}

/// Relies on fastrand::u8: it returns a value of the given inclusive range,
/// and panics only when the range is empty.
#[verifier::external_body]
fn random_octet(low: u8, high: u8) -> (r: u8)
    requires
        low <= high,
    ensures
        low <= r <= high,
{
    fastrand::u8(low..=high)
}

/// Draws four octets from `MIN_OCTET..=MAX_OCTET`.
fn random_candidate() -> (r: Vec<u8>)
    ensures
        r@.len() == 4,
        forall|i: int| 0 <= i < 4 ==> MIN_OCTET <= #[trigger] r@[i] <= MAX_OCTET,
{
    let mut v: Vec<u8> = Vec::new();
    let mut k: usize = 0;
    while k < 4
        invariant
            k <= 4,
            v@.len() == k,
            forall|i: int| 0 <= i < k ==> MIN_OCTET <= #[trigger] v@[i] <= MAX_OCTET,
        decreases 4 - k,
    {
        v.push(random_octet(MIN_OCTET, MAX_OCTET));
        k = k + 1;
    }
    v
}

/// A random, globally routable address in dotted-decimal form. Candidates are
/// drawn octet by octet from `MIN_OCTET..=MAX_OCTET` until one is not reserved.
pub fn generate_random_ip() -> (r: String)
    ensures
        exists|o: Seq<u8>| is_generated(o) && r@ == #[trigger] dotted(o),
        is_address_text(r@),
        r@ != dotted(seq![0u8, 0u8, 0u8, 0u8]),
{
    let mut draws: u32 = 0;
    let mut chosen: Vec<u8> = vec![LAST_RESORT_OCTET, LAST_RESORT_OCTET, LAST_RESORT_OCTET, LAST_RESORT_OCTET];
    while draws < MAX_DRAWS
        invariant
            draws <= MAX_DRAWS,
            is_generated(chosen@),
        decreases MAX_DRAWS - draws,
    {
        let candidate = random_candidate();
        if !is_special_use(&candidate) {
            chosen = candidate;
            break;
        }
        draws = draws + 1;
    }
    let r = format_ip(&chosen);
    proof {
        lemma_format_parse_round_trip(chosen@);
        let zero = seq![0u8, 0u8, 0u8, 0u8];
        if r@ == dotted(zero) {
            assert(zero[0] == 0u8);
            assert(chosen@ == zero);
        }
    }
    r
}

} // verus!
