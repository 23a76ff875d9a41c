use vstd::prelude::*;

verus! {

/// The low 32 bits of `x`, as a handler argument.
pub open spec fn low_word(x: u64) -> i32 {
    x as i32
}

/// The high 32 bits of `x`, as a handler argument.
pub open spec fn high_word(x: u64) -> i32 {
    (x >> 32u64) as i32
}

/// The 64-bit value whose low and high 32 bits are `lo` and `hi`.
pub open spec fn join_words(lo: i32, hi: i32) -> u64 {
    (lo as u32 as u64) | ((hi as u32 as u64) << 32u64)
}

/// Splits two 64-bit values into four 32-bit handler arguments, low word
/// first: `(a_lo, a_hi, b_lo, b_hi)`.
pub fn u64_2_to_i32_4(a: u64, b: u64) -> (r: (i32, i32, i32, i32))
    ensures
        r == (low_word(a), high_word(a), low_word(b), high_word(b)),
{
    (a as i32, (a >> 32u64) as i32, b as i32, (b >> 32u64) as i32)
}

/// Joins four 32-bit handler arguments, low word first, into two 64-bit values.
pub fn i32_4_to_u64_2(a: i32, b: i32, c: i32, d: i32) -> (r: (u64, u64))
    ensures
        r == (join_words(a, b), join_words(c, d)),
{
    let x: u64 = (a as u32 as u64) | ((b as u32 as u64) << 32u64);
    let y: u64 = (c as u32 as u64) | ((d as u32 as u64) << 32u64);
    (x, y)
}

/// Splitting a 64-bit value into two words and joining them gives it back.
pub proof fn lemma_join_split(x: u64)
    ensures
        join_words(low_word(x), high_word(x)) == x,
{
    assert(((x as i32) as u32 as u64) | ((((x >> 32u64) as i32) as u32 as u64) << 32u64) == x)
        by (bit_vector);
}

/// Joining two words and splitting the result gives them back.
pub proof fn lemma_split_join(lo: i32, hi: i32)
    ensures
        low_word(join_words(lo, hi)) == lo,
        high_word(join_words(lo, hi)) == hi,
{
    assert((((lo as u32 as u64) | ((hi as u32 as u64) << 32u64)) as i32) == lo) by (bit_vector);
    assert(((((lo as u32 as u64) | ((hi as u32 as u64) << 32u64)) >> 32u64) as i32) == hi)
        by (bit_vector);
}

/// The four handler arguments of a long packet carry its message length and
/// offset unchanged.
pub proof fn lemma_handler_args_round_trip(len: u64, offset: u64)
    ensures
        join_words(low_word(len), high_word(len)) == len,
        join_words(low_word(offset), high_word(offset)) == offset,
{
    lemma_join_split(len);
    lemma_join_split(offset);
}

} // verus!
