use crate::bits::{
    bits_from_bytes, bits_from_elem, bits_get, bits_len, bits_set, bitvec_bits, place_value,
    unpacked,
};
use crate::code::{base64_encoded, decoded, CodeError, B64, PAYLOAD_LEN};
use crate::neighborhood::{bit_value, lemma_bit_values, STATES};
use bit_vec::BitVec;
use vstd::prelude::*;

verus! {

/// Number of table entries that a rule code can set: the bits of its payload.
pub const CODE_BITS: usize = 64;

/// The rule table that a payload stands for. The payload's bits, bytes in
/// buffer order and the most significant bit of each byte first, are
/// reversed end to start and fill the table from entry 0 on; every entry
/// beyond them is dead.
pub open spec fn table_of(payload: Seq<u8>) -> Seq<bool> {
    let bits = unpacked(payload);
    Seq::new(
        STATES as nat,
        |i: int|
            if i < bits.len() {
                bits[bits.len() - 1 - i]
            } else {
                false
            },
    )
}

/// The number that `n` bits of `bits` from place `start` on spell, the first
/// of them being the most significant.
pub open spec fn bits_value(bits: Seq<bool>, start: int, n: int) -> int
    decreases n,
{
    if n <= 0 {
        0
    } else {
        2 * bits_value(bits, start, n - 1) + if bits[start + n - 1] {
            1int
        } else {
            0int
        }
    }
}

/// The bytes that a sequence of bits packs to, eight bits to a byte and the
/// first bit of each eight the most significant.
pub open spec fn packed(bits: Seq<bool>) -> Seq<u8> {
    Seq::new(bits.len() / 8, |b: int| bits_value(bits, 8 * b, 8) as u8)
}

/// The low entries of a table in payload order: entry `CODE_BITS - 1` first,
/// entry 0 last.
pub open spec fn code_bits(table: Seq<bool>) -> Seq<bool> {
    Seq::new(CODE_BITS as nat, |j: int| table[CODE_BITS - 1 - j])
}

/// The payload that stands for a table's entries below `CODE_BITS`. The
/// entries from `CODE_BITS` on have no place in it.
pub open spec fn payload_of(table: Seq<bool>) -> Seq<u8> {
    packed(code_bits(table))
}

/// A table of 512 next-state decisions, one for each neighbor-state code.
pub struct Rule {
    bin: BitVec,
}

impl View for Rule {
    type V = Seq<bool>;

    /// The decisions, indexed by neighbor-state code.
    closed spec fn view(&self) -> Seq<bool> {
        bitvec_bits(self.bin)
    }
}

impl Rule {
    /// The table has one entry for each neighbor-state code.
    pub open spec fn wf(&self) -> bool {
        self@.len() == STATES
    }

    /// The payload that stands for the entries below `CODE_BITS`.
    pub fn to_b64(&self) -> (code: B64)
        requires
            self.wf(),
        ensures
            code@ == payload_of(self@),
    {
        let mut data = [0u8; 8];
        let mut b: usize = 0;
        while b < PAYLOAD_LEN
            invariant
                b <= PAYLOAD_LEN,
                self.wf(),
                forall|q: int| 0 <= q < b ==> data@[q] == bits_value(code_bits(self@), 8 * q, 8),
            decreases PAYLOAD_LEN - b,
        {
            let mut byte: u8 = 0;
            let mut p: usize = 0;
            while p < 8
                invariant
                    p <= 8,
                    b < PAYLOAD_LEN,
                    self.wf(),
                    byte == bits_value(code_bits(self@), 8 * b, p as int),
                decreases 8 - p,
            {
                let bit = bits_get(&self.bin, CODE_BITS - 1 - (8 * b + p));
                proof {
                    lemma_bits_value_bounds(code_bits(self@), 8 * b, p as int);
                    lemma_bit_values();
                }
                byte = 2 * byte + if bit {
                    1u8
                } else {
                    0u8
                };
                p += 1;
            }
            proof {
                lemma_bits_value_bounds(code_bits(self@), 8 * b, 8);
                lemma_bit_values();
            }
            data[b] = byte;
            b += 1;
        }
        let code = B64::new(data);
        assert(code@ =~= payload_of(self@));
        code
    }

    /// Decodes a rule code into the rule that its payload stands for.
    pub fn decode(code: &str) -> (result: Result<Rule, CodeError>)
        ensures
            match decoded(code) {
                Ok(payload) => result matches Ok(rule) && rule.wf() && rule@ == table_of(payload),
                Err(e) => result matches Err(f) && f == e,
            },
    {
        match B64::decode(code) {
            Ok(payload) => Ok(Rule::from(payload)),
            Err(e) => Err(e),
        }
    }

    /// The rule code of the entries below `CODE_BITS`.
    pub fn encode(&self) -> (text: String)
        requires
            self.wf(),
        ensures
            text@ == base64_encoded(payload_of(self@)),
    {
        self.to_b64().to_string()
    }

    /// The decision for a neighbor-state code.
    pub fn get(&self, state: usize) -> (alive: bool)
        requires
            self.wf(),
            state < STATES,
        ensures
            alive == self@[state as int],
    {
        bits_get(&self.bin, state)
    }
}

impl From<B64> for Rule {
    /// The rule that a payload stands for.
    fn from(x: B64) -> (rule: Rule)
        ensures
            rule.wf(),
            rule@ == table_of(x@),
    {
        let data = x.bytes();
        let reversed = bits_from_bytes(data.as_slice());
        let mut result = bits_from_elem(STATES, false);
        let n = bits_len(&reversed);
        let mut i: usize = 0;
        while i < n
            invariant
                i <= n,
                n == CODE_BITS,
                n == bitvec_bits(reversed).len(),
                bitvec_bits(reversed) == unpacked(x@),
                bitvec_bits(result).len() == STATES,
                forall|j: int| 0 <= j < i ==> bitvec_bits(result)[j] == bitvec_bits(reversed)[n - 1 - j],
                forall|j: int| i <= j < STATES ==> bitvec_bits(result)[j] == false,
            decreases n - i,
        {
            let bit = bits_get(&reversed, n - i - 1);
            bits_set(&mut result, i, bit);
            i += 1;
        }
        assert(bitvec_bits(result) =~= table_of(x@));
        Rule { bin: result }
    }
}

impl vstd::std_specs::convert::FromSpecImpl<B64> for Rule {
    /// Two rules with the same table need not be the same value, so the
    /// conversion is described by the contract of `from` and not by a
    /// function of the payload.
    open spec fn obeys_from_spec() -> bool {
        false
    }

    open spec fn from_spec(x: B64) -> Rule {
        arbitrary()
    }
}

/// `n` bits spell a number below two to the power `n`.
pub proof fn lemma_bits_value_bounds(bits: Seq<bool>, start: int, n: int)
    requires
        0 <= n,
    ensures
        0 <= bits_value(bits, start, n) < bit_value(n),
    decreases n,
{
    if n > 0 {
        lemma_bits_value_bounds(bits, start, n - 1);
    }
}

/// Bit `q` of byte `b` of a buffer, as a digit of that byte.
pub proof fn lemma_unpacked_bit(bytes: Seq<u8>, b: int, q: int)
    requires
        0 <= b < bytes.len(),
        0 <= q < 8,
    ensures
        unpacked(bytes)[8 * b + q] == ((bytes[b] as int / place_value(q)) % 2 == 1),
{
    assert((8 * b + q) / 8 == b);
    assert((8 * b + q) % 8 == q);
}

/// Dropping one low bit less of a byte doubles the number and adds the bit
/// that is kept.
proof fn lemma_keep_one_more(v: u8)
    by (bit_vector)
    ensures
        v / 128 == (v / 128) % 2,
        v / 64 == 2 * (v / 128) + (v / 64) % 2,
        v / 32 == 2 * (v / 64) + (v / 32) % 2,
        v / 16 == 2 * (v / 32) + (v / 16) % 2,
        v / 8 == 2 * (v / 16) + (v / 8) % 2,
        v / 4 == 2 * (v / 8) + (v / 4) % 2,
        v / 2 == 2 * (v / 4) + (v / 2) % 2,
        v == 2 * (v / 2) + v % 2,
{
}

/// The eight bits of a byte spell the byte.
pub proof fn lemma_byte_round_trip(bytes: Seq<u8>, b: int)
    requires
        0 <= b < bytes.len(),
    ensures
        bits_value(unpacked(bytes), 8 * b, 8) == bytes[b],
{
    let v = bytes[b];
    let bits = unpacked(bytes);
    lemma_keep_one_more(v);
    // After `n` bits the number spelt is the byte without its `8 - n` low bits.
    assert(bits_value(bits, 8 * b, 0) == 0);
    lemma_unpacked_bit(bytes, b, 0);
    assert(bits_value(bits, 8 * b, 1) == v / 128);
    lemma_unpacked_bit(bytes, b, 1);
    assert(bits_value(bits, 8 * b, 2) == v / 64);
    lemma_unpacked_bit(bytes, b, 2);
    assert(bits_value(bits, 8 * b, 3) == v / 32);
    lemma_unpacked_bit(bytes, b, 3);
    assert(bits_value(bits, 8 * b, 4) == v / 16);
    lemma_unpacked_bit(bytes, b, 4);
    assert(bits_value(bits, 8 * b, 5) == v / 8);
    lemma_unpacked_bit(bytes, b, 5);
    assert(bits_value(bits, 8 * b, 6) == v / 4);
    lemma_unpacked_bit(bytes, b, 6);
    assert(bits_value(bits, 8 * b, 7) == v / 2);
    lemma_unpacked_bit(bytes, b, 7);
    assert(bits_value(bits, 8 * b, 8) == v);
}

/// Packing the bits of a payload gives the payload back.
pub proof fn lemma_packed_unpacked(bytes: Seq<u8>)
    ensures
        packed(unpacked(bytes)) == bytes,
{
    assert forall|b: int| 0 <= b < bytes.len() implies packed(unpacked(bytes))[b] == bytes[b] by {
        lemma_byte_round_trip(bytes, b);
    }
    assert(packed(unpacked(bytes)) =~= bytes);
}

/// A table made from an eight-byte payload stands for that payload again.
pub proof fn lemma_payload_round_trip(payload: Seq<u8>)
    requires
        payload.len() == PAYLOAD_LEN,
    ensures
        payload_of(table_of(payload)) == payload,
{
    assert(code_bits(table_of(payload)) =~= unpacked(payload));
    lemma_packed_unpacked(payload);
}

/// A rule code sets no entry from `CODE_BITS` on: those neighbor-state codes
/// are dead under every rule that a code can give.
pub proof fn lemma_high_entries_dead(payload: Seq<u8>, state: int)
    requires
        payload.len() == PAYLOAD_LEN,
        CODE_BITS <= state < STATES,
    ensures
        !table_of(payload)[state],
{
}

/// Decoding a rule code and encoding the rule again gives the code back,
/// for every code that is the text of its own payload. (The decoder also
/// takes texts with white space, without padding, or with stray bits in the
/// last character; those come back in the one form the encoder writes.)
pub proof fn lemma_code_round_trip(code: &str)
    requires
        decoded(code) matches Ok(payload) && base64_encoded(payload) == code@,
    ensures
        decoded(code) matches Ok(payload) && base64_encoded(payload_of(table_of(payload)))
            == code@,
{
    lemma_payload_round_trip(decoded(code)->Ok_0);
}

} // verus!
