//! Choosing the best of several parallel trials.
//!
//! A trial is ranked by a key: an integer that orders trials as their costs
//! are ordered, lower being better. A cost's key comes from its IEEE-754 bit
//! pattern, read as a sign and a magnitude.

use vstd::prelude::*;

verus! {

/// `idx` holds a smallest key of `keys`, and no earlier place holds one as small.
pub open spec fn is_first_minimum(keys: Seq<u64>, idx: int) -> bool {
    &&& 0 <= idx < keys.len()
    &&& forall|j: int| 0 <= j < keys.len() ==> keys[idx] <= #[trigger] keys[j]
    &&& forall|j: int| 0 <= j < idx ==> keys[idx] < #[trigger] keys[j]
}

/// The index of the first smallest key, or 0 when there are no keys.
pub fn first_min_index(keys: &Vec<u64>) -> (idx: usize)
    ensures
        keys@.len() == 0 ==> idx == 0,
        keys@.len() > 0 ==> is_first_minimum(keys@, idx as int),
{
    if keys.len() == 0 {
        return 0;
    }
    let mut best: usize = 0;
    let mut i: usize = 1;
    while i < keys.len()
        invariant
            0 < keys@.len(),
            0 <= best < i <= keys@.len(),
            forall|j: int| 0 <= j < i ==> keys@[best as int] <= #[trigger] keys@[j],
            forall|j: int| 0 <= j < best ==> keys@[best as int] < #[trigger] keys@[j],
        decreases keys.len() - i,
    {
        if keys[i] < keys[best] {
            best = i;
        }
        i = i + 1;
    }
    best
}

/// The first smallest key stands at one place only: two selections over the
/// same keys pick the same trial.
pub proof fn lemma_first_minimum_unique(keys: Seq<u64>, i: int, j: int)
    requires
        is_first_minimum(keys, i),
        is_first_minimum(keys, j),
    ensures
        i == j,
{
    if i < j {
        assert(keys[j] < keys[i]);
        assert(keys[i] <= keys[j]);
    } else if j < i {
        assert(keys[i] < keys[j]);
        assert(keys[j] <= keys[i]);
    }
}

/// The number a 64-bit sign-and-magnitude pattern stands for: the low 63 bits
/// are the magnitude, and the top bit makes it negative. Finite IEEE-754
/// doubles order as these numbers do, since their magnitude bits grow with
/// their absolute value.
pub open spec fn sign_magnitude(bits: u64) -> int {
    if bits >= 0x8000_0000_0000_0000 {
        -(bits - 0x8000_0000_0000_0000)
    } else {
        bits as int
    }
}

/// The bit pattern of a negative zero.
pub open spec fn negative_zero() -> u64 {
    0x8000_0000_0000_0000
}

/// The key of a sign-and-magnitude pattern: negative patterns have their bits
/// flipped, others get the top bit set.
pub open spec fn key_of(bits: u64) -> int {
    if bits >= 0x8000_0000_0000_0000 {
        0xffff_ffff_ffff_ffff - bits
    } else {
        bits + 0x8000_0000_0000_0000
    }
}

/// The ranking key of a sign-and-magnitude bit pattern.
pub fn order_key(bits: u64) -> (key: u64)
    ensures
        key == key_of(bits),
{
    if bits >= 0x8000_0000_0000_0000 {
        0xffff_ffff_ffff_ffff - bits
    } else {
        bits + 0x8000_0000_0000_0000
    }
}

/// Keys order patterns as the numbers they stand for, negative zero apart
/// (it stands for 0, like the pattern of all zeros, but its key is one less).
pub proof fn lemma_order_key_preserves_order(a: u64, b: u64)
    requires
        a != negative_zero(),
        b != negative_zero(),
    ensures
        key_of(a) < key_of(b) <==> sign_magnitude(a) < sign_magnitude(b),
        key_of(a) == key_of(b) <==> a == b,
{
}

} // verus!
