//! Ranking keys for scores given by their IEEE-754 double bit pattern.
//!
//! A score `x` is handed in as `x.to_bits()`. Its key is an unsigned integer
//! whose order is the order of the scores: sign-magnitude order on the bit
//! patterns, with the two zeros equal.

use vstd::prelude::*;

verus! {

/// The sign bit of a double.
pub const SIGN_BIT: u64 = 0x8000_0000_0000_0000u64;

/// The bit pattern of negative zero.
pub const NEG_ZERO_BITS: u64 = 0x8000_0000_0000_0000u64;

/// The key of the score with bit pattern `bits`.
pub open spec fn score_key_spec(bits: u64) -> u64 {
    if bits == NEG_ZERO_BITS {
        SIGN_BIT
    } else if bits & SIGN_BIT != 0 {
        !bits
    } else {
        bits | SIGN_BIT
    }
}

/// The order of doubles on their bit patterns: sign and magnitude, with
/// negative zero equal to positive zero.
pub open spec fn bits_less(a: u64, b: u64) -> bool {
    let ma = a & 0x7FFF_FFFF_FFFF_FFFFu64;
    let mb = b & 0x7FFF_FFFF_FFFF_FFFFu64;
    let na = a & SIGN_BIT != 0;
    let nb = b & SIGN_BIT != 0;
    if !na && !nb {
        ma < mb
    } else if na && nb {
        ma > mb
    } else if na && !nb {
        !(ma == 0 && mb == 0)
    } else {
        false
    }
}

/// The ranking key of the score whose bit pattern is `bits`.
pub fn score_key(bits: u64) -> (k: u64)
    ensures
        k == score_key_spec(bits),
{
    if bits == NEG_ZERO_BITS {
        SIGN_BIT
    } else if bits & SIGN_BIT != 0 {
        !bits
    } else {
        bits | SIGN_BIT
    }
}

/// Keys order scores as their values do: one key is below another exactly
/// when its score is below the other's.
pub proof fn lemma_score_key_order(a: u64, b: u64)
    ensures
        score_key_spec(a) < score_key_spec(b) <==> bits_less(a, b),
{
    assert(((if a == 0x8000_0000_0000_0000u64 {
        0x8000_0000_0000_0000u64
    } else if a & 0x8000_0000_0000_0000u64 != 0 {
        !a
    } else {
        a | 0x8000_0000_0000_0000u64
    }) < (if b == 0x8000_0000_0000_0000u64 {
        0x8000_0000_0000_0000u64
    } else if b & 0x8000_0000_0000_0000u64 != 0 {
        !b
    } else {
        b | 0x8000_0000_0000_0000u64
    })) <==> (if a & 0x8000_0000_0000_0000u64 == 0 && b & 0x8000_0000_0000_0000u64 == 0 {
        a & 0x7FFF_FFFF_FFFF_FFFFu64 < b & 0x7FFF_FFFF_FFFF_FFFFu64
    } else if a & 0x8000_0000_0000_0000u64 != 0 && b & 0x8000_0000_0000_0000u64 != 0 {
        a & 0x7FFF_FFFF_FFFF_FFFFu64 > b & 0x7FFF_FFFF_FFFF_FFFFu64
    } else if a & 0x8000_0000_0000_0000u64 != 0 && b & 0x8000_0000_0000_0000u64 == 0 {
        !(a & 0x7FFF_FFFF_FFFF_FFFFu64 == 0 && b & 0x7FFF_FFFF_FFFF_FFFFu64 == 0)
    } else {
        false
    })) by (bit_vector);
}

/// Two scores get the same key exactly when they are the same pattern or
/// both are zeros.
pub proof fn lemma_score_key_equal(a: u64, b: u64)
    ensures
        score_key_spec(a) == score_key_spec(b) <==> (a == b || (a & 0x7FFF_FFFF_FFFF_FFFFu64 == 0
            && b & 0x7FFF_FFFF_FFFF_FFFFu64 == 0)),
{
    assert(((if a == 0x8000_0000_0000_0000u64 {
        0x8000_0000_0000_0000u64
    } else if a & 0x8000_0000_0000_0000u64 != 0 {
        !a
    } else {
        a | 0x8000_0000_0000_0000u64
    }) == (if b == 0x8000_0000_0000_0000u64 {
        0x8000_0000_0000_0000u64
    } else if b & 0x8000_0000_0000_0000u64 != 0 {
        !b
    } else {
        b | 0x8000_0000_0000_0000u64
    })) <==> (a == b || (a & 0x7FFF_FFFF_FFFF_FFFFu64 == 0 && b & 0x7FFF_FFFF_FFFF_FFFFu64
        == 0))) by (bit_vector);
}

/// Collects the ranking keys of a list of score bit patterns.
pub fn score_keys(bits: &Vec<u64>) -> (keys: Vec<u64>)
    ensures
        keys@.len() == bits@.len(),
        forall|i: int| 0 <= i < bits@.len() ==> #[trigger] keys@[i] == score_key_spec(bits@[i]),
{
    let mut keys: Vec<u64> = Vec::new();
    let mut i: usize = 0;
    while i < bits.len()
        invariant
            i <= bits.len(),
            keys@.len() == i,
            forall|j: int| 0 <= j < i ==> #[trigger] keys@[j] == score_key_spec(bits@[j]),
        decreases bits.len() - i,
    {
        keys.push(score_key(bits[i]));
        i = i + 1;
    }
    keys
}

/// Among non-negative scores (sign bit clear) the keys keep the order of
/// the bit patterns, which is the order of the values.
pub proof fn law_score_key_non_negative(a: u64, b: u64)
    requires
        a & 0x8000_0000_0000_0000u64 == 0,
        b & 0x8000_0000_0000_0000u64 == 0,
    ensures
        score_key_spec(a) < score_key_spec(b) <==> a < b,
{
    assert((a & 0x8000_0000_0000_0000u64 == 0 && b & 0x8000_0000_0000_0000u64 == 0) ==> ((if a == 0x8000_0000_0000_0000u64 {
        0x8000_0000_0000_0000u64
    } else if a & 0x8000_0000_0000_0000u64 != 0 {
        !a
    } else {
        a | 0x8000_0000_0000_0000u64
    }) < (if b == 0x8000_0000_0000_0000u64 {
        0x8000_0000_0000_0000u64
    } else if b & 0x8000_0000_0000_0000u64 != 0 {
        !b
    } else {
        b | 0x8000_0000_0000_0000u64
    }) <==> a < b)) by (bit_vector);
}

/// Among scores with the sign bit set the keys reverse the order of the bit
/// patterns: a larger magnitude is a smaller value.
pub proof fn law_score_key_negative(a: u64, b: u64)
    requires
        a & 0x8000_0000_0000_0000u64 != 0,
        b & 0x8000_0000_0000_0000u64 != 0,
    ensures
        score_key_spec(a) < score_key_spec(b) <==> a > b,
{
    assert((a & 0x8000_0000_0000_0000u64 != 0 && b & 0x8000_0000_0000_0000u64 != 0) ==> ((if a == 0x8000_0000_0000_0000u64 {
        0x8000_0000_0000_0000u64
    } else if a & 0x8000_0000_0000_0000u64 != 0 {
        !a
    } else {
        a | 0x8000_0000_0000_0000u64
    }) < (if b == 0x8000_0000_0000_0000u64 {
        0x8000_0000_0000_0000u64
    } else if b & 0x8000_0000_0000_0000u64 != 0 {
        !b
    } else {
        b | 0x8000_0000_0000_0000u64
    }) <==> a > b)) by (bit_vector);
}

/// A score with the sign bit set never ranks above one without it, and they
/// tie only when both are zeros.
pub proof fn law_score_key_mixed(a: u64, b: u64)
    requires
        a & 0x8000_0000_0000_0000u64 != 0,
        b & 0x8000_0000_0000_0000u64 == 0,
    ensures
        score_key_spec(a) <= score_key_spec(b),
        score_key_spec(a) == score_key_spec(b) <==> (a == 0x8000_0000_0000_0000u64 && b == 0),
{
    assert((a & 0x8000_0000_0000_0000u64 != 0 && b & 0x8000_0000_0000_0000u64 == 0) ==> ((if a == 0x8000_0000_0000_0000u64 {
        0x8000_0000_0000_0000u64
    } else if a & 0x8000_0000_0000_0000u64 != 0 {
        !a
    } else {
        a | 0x8000_0000_0000_0000u64
    }) <= (if b == 0x8000_0000_0000_0000u64 {
        0x8000_0000_0000_0000u64
    } else if b & 0x8000_0000_0000_0000u64 != 0 {
        !b
    } else {
        b | 0x8000_0000_0000_0000u64
    }) && ((if a == 0x8000_0000_0000_0000u64 {
        0x8000_0000_0000_0000u64
    } else if a & 0x8000_0000_0000_0000u64 != 0 {
        !a
    } else {
        a | 0x8000_0000_0000_0000u64
    }) == (if b == 0x8000_0000_0000_0000u64 {
        0x8000_0000_0000_0000u64
    } else if b & 0x8000_0000_0000_0000u64 != 0 {
        !b
    } else {
        b | 0x8000_0000_0000_0000u64
    }) <==> (a == 0x8000_0000_0000_0000u64 && b == 0)))) by (bit_vector);
}

/// `bits_less` is the order of double values on bit patterns: within one
/// sign it follows (or, for negatives, reverses) the pattern order, a
/// negative is below a non-negative unless both are zeros, and nothing is
/// below itself.
pub proof fn law_bits_less(a: u64, b: u64)
    ensures
        (a & 0x8000_0000_0000_0000u64 == 0 && b & 0x8000_0000_0000_0000u64 == 0) ==> (bits_less(a, b) <==> a < b),
        (a & 0x8000_0000_0000_0000u64 != 0 && b & 0x8000_0000_0000_0000u64 != 0) ==> (bits_less(a, b) <==> a > b),
        (a & 0x8000_0000_0000_0000u64 != 0 && b & 0x8000_0000_0000_0000u64 == 0) ==> (bits_less(a, b) <==> !(a == 0x8000_0000_0000_0000u64 && b == 0)),
        (a & 0x8000_0000_0000_0000u64 == 0 && b & 0x8000_0000_0000_0000u64 != 0) ==> !bits_less(a, b),
        !bits_less(a, a),
{
    lemma_score_key_order(a, b);
    lemma_score_key_order(a, a);
    if a & 0x8000_0000_0000_0000u64 == 0 && b & 0x8000_0000_0000_0000u64 == 0 {
        law_score_key_non_negative(a, b);
    }
    if a & 0x8000_0000_0000_0000u64 != 0 && b & 0x8000_0000_0000_0000u64 != 0 {
        law_score_key_negative(a, b);
    }
    if a & 0x8000_0000_0000_0000u64 != 0 && b & 0x8000_0000_0000_0000u64 == 0 {
        law_score_key_mixed(a, b);
    }
    if a & 0x8000_0000_0000_0000u64 == 0 && b & 0x8000_0000_0000_0000u64 != 0 {
        law_score_key_mixed(b, a);
    }
}

} // verus!
