use vstd::prelude::*;

verus! {

/// Whether the address with leading octets `a`, `b`, `c` lies in one of the
/// reserved or special-use IPv4 ranges. The fourth octet never matters.
pub open spec fn special_range(a: u8, b: u8, c: u8) -> bool {
    ||| a == 0
    ||| a == 10
    ||| a == 14
    ||| a == 24
    ||| a == 39
    ||| a == 127
    ||| a == 128
    ||| (a == 169 && b == 254)
    ||| (a == 172 && 16 <= b <= 31)
    ||| (a == 191 && b == 255)
    ||| (a == 192 && b == 0 && c == 0)
    ||| (a == 192 && b == 0 && c == 2)
    ||| (a == 192 && b == 88 && c == 99)
    ||| (a == 192 && b == 168)
    ||| (a == 198 && 18 <= b <= 19)
    ||| (a == 223 && b == 255 && c == 255)
    ||| 224 <= a
}

/// A sequence of octets is special-use when it is a four-octet address in
/// one of the reserved ranges.
pub open spec fn is_special(o: Seq<u8>) -> bool {
    o.len() == 4 && special_range(o[0], o[1], o[2])
}

/// Classifies an address given as its octets. Anything but exactly four
/// octets is not an address and is reported as not special-use.
pub fn is_special_use(ip_parts: &[u8]) -> (r: bool)
    ensures
        r == is_special(ip_parts@),
{
    if ip_parts.len() != 4 {
        return false;
    }
    let a = ip_parts[0];
    let b = ip_parts[1];
    let c = ip_parts[2];
    a == 0 || a == 10 || a == 14 || a == 24 || a == 39 || a == 127 || a == 128
        || (a == 169 && b == 254)
        || (a == 172 && 16 <= b && b <= 31)
        || (a == 191 && b == 255)
        || (a == 192 && b == 0 && c == 0)
        || (a == 192 && b == 0 && c == 2)
        || (a == 192 && b == 88 && c == 99)
        || (a == 192 && b == 168)
        || (a == 198 && 18 <= b && b <= 19)
        || (a == 223 && b == 255 && c == 255)
        || 224 <= a
}

/// Every address whose first octet is one of the wholly reserved blocks, or
/// that lies in the reserved tails of the 191 and 223 blocks, is special-use.
pub proof fn lemma_reserved_first_octets(o: Seq<u8>)
    requires
        o.len() == 4,
        ({
            let a = o[0];
            ||| a == 0 || a == 10 || a == 14 || a == 24 || a == 39 || a == 127
            ||| (a == 191 && o[1] == 255)
            ||| (a == 223 && o[1] == 255 && o[2] == 255)
        }),
    ensures
        is_special(o),
{
}

/// Within 172.0.0.0/8, exactly the second octets 16 through 31 are special-use.
pub proof fn lemma_private_172_block(o: Seq<u8>)
    requires
        o.len() == 4,
        o[0] == 172,
    ensures
        is_special(o) <==> 16 <= o[1] <= 31,
{
}

} // verus!
