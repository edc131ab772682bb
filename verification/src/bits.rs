use bit_vec::BitVec;
use vstd::prelude::*;

verus! {

/// The bit vector of the `bit-vec` crate. Its contents are spoken of through
/// [`bitvec_bits`] only.
#[verifier::external_type_specification]
#[verifier::external_body]
#[verifier::reject_recursive_types(B)]
pub struct ExBitVec<B>(BitVec<B>);

/// The bits that a `BitVec` holds, first to last.
pub uninterp spec fn bitvec_bits(v: BitVec) -> Seq<bool>;

/// The value of the bit at place `place` of a byte, place 0 being the most
/// significant.
pub open spec fn place_value(place: int) -> int {
    if place == 0 {
        128
    } else if place == 1 {
        64
    } else if place == 2 {
        32
    } else if place == 3 {
        16
    } else if place == 4 {
        8
    } else if place == 5 {
        4
    } else if place == 6 {
        2
    } else {
        1
    }
}

/// Bit `j` of a byte buffer: bytes in buffer order, and within each byte the
/// most significant bit first.
pub open spec fn byte_bit(bytes: Seq<u8>, j: int) -> bool {
    (bytes[j / 8] as int / place_value(j % 8)) % 2 == 1
}

/// The bits of a byte buffer, eight per byte.
pub open spec fn unpacked(bytes: Seq<u8>) -> Seq<bool> {
    Seq::new(8 * bytes.len(), |j: int| byte_bit(bytes, j))
}

/// `BitVec::from_bytes`: every byte becomes eight bits, the most significant
/// bit of each byte first. Its length computation gives out on a buffer of
/// more than `usize::MAX / 8` bytes, which `requires` leaves out.
#[verifier::external_body]
pub(crate) fn bits_from_bytes(bytes: &[u8]) -> (v: BitVec)
    requires
        8 * bytes@.len() <= usize::MAX,
    ensures
        bitvec_bits(v) == unpacked(bytes@),
{
    BitVec::from_bytes(bytes)
}

/// `BitVec::from_elem`: `nbits` bits, each equal to `bit`.
#[verifier::external_body]
pub(crate) fn bits_from_elem(nbits: usize, bit: bool) -> (v: BitVec)
    ensures
        bitvec_bits(v) == Seq::new(nbits as nat, |j: int| bit),
{
    BitVec::from_elem(nbits, bit)
}

/// `BitVec::len`: the number of bits.
#[verifier::external_body]
pub(crate) fn bits_len(v: &BitVec) -> (n: usize)
    ensures
        n == bitvec_bits(*v).len(),
{
    v.len()
}

/// Indexing a `BitVec`: the bit at place `i`. Indexing past the end panics,
/// which `requires` leaves out.
#[verifier::external_body]
pub(crate) fn bits_get(v: &BitVec, i: usize) -> (bit: bool)
    requires
        i < bitvec_bits(*v).len(),
    ensures
        bit == bitvec_bits(*v)[i as int],
{
    v[i]
}

/// `BitVec::set`: the bit at place `i` becomes `x`, all others stay. Setting
/// past the end panics, which `requires` leaves out.
#[verifier::external_body]
pub(crate) fn bits_set(v: &mut BitVec, i: usize, x: bool)
    requires
        i < bitvec_bits(*old(v)).len(),
    ensures
        bitvec_bits(*final(v)) == bitvec_bits(*old(v)).update(i as int, x),
{
    v.set(i, x)
}

} // verus!
