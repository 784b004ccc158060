//! ICMP echo-request packet construction and the one's-complement checksum.
//!
//! The checksum sums the buffer as 16-bit big-endian words (an odd trailing
//! byte is padded with a zero low byte), folds every carry above bit 15 back
//! into the low 16 bits, and complements the result.  A receiver accepts a
//! buffer when the folded word sum of the whole buffer, checksum included,
//! is `0xFFFF`.

use vstd::prelude::*;
use vstd::arithmetic::div_mod::{
    lemma_fundamental_div_mod, lemma_mod_add_multiples_vanish, lemma_mod_equivalence,
    lemma_mod_multiples_vanish,
};

verus! {

/// Sum of the 16-bit big-endian words of `data` from index `i` on;
/// an odd trailing byte is padded with a zero low byte.
pub open spec fn word_sum_from(data: Seq<u8>, i: int) -> int
    decreases data.len() - i,
{
    if i + 2 <= data.len() {
        data[i] * 256 + data[i + 1] + word_sum_from(data, i + 2)
    } else if i + 1 == data.len() {
        data[i] * 256
    } else {
        0
    }
}

/// Sum of all 16-bit big-endian words of `data`.
pub open spec fn word_sum(data: Seq<u8>) -> int {
    word_sum_from(data, 0)
}

/// Folds the carries of `sum` above bit 15 back into the low 16 bits,
/// repeatedly, until the value fits in 16 bits.
pub open spec fn fold_carries(sum: nat) -> nat
    decreases sum,
{
    if sum < 0x10000 {
        sum
    } else {
        fold_carries((sum % 0x10000 + sum / 0x10000) as nat)
    }
}

/// The checksum of a buffer whose checksum field is held at zero: the
/// one's complement of the folded word sum.
pub open spec fn spec_checksum(data: Seq<u8>) -> int {
    0xFFFF - fold_carries(word_sum(data) as nat)
}

/// The word sum is non-negative.
pub proof fn lemma_word_sum_nonneg(data: Seq<u8>, i: int)
    ensures
        word_sum_from(data, i) >= 0,
    decreases data.len() - i,
{
    if i + 2 <= data.len() {
        lemma_word_sum_nonneg(data, i + 2);
    }
}

/// Folding leaves the value congruent modulo 0xFFFF, within 16 bits, and
/// positive when the sum was positive.
proof fn lemma_fold_carries_props(sum: nat)
    ensures
        fold_carries(sum) < 0x10000,
        fold_carries(sum) % 0xFFFF == sum % 0xFFFF,
        sum > 0 ==> fold_carries(sum) > 0,
    decreases sum,
{
    if sum < 0x10000 {
    } else {
        let q = sum / 0x10000;
        let r = sum % 0x10000;
        lemma_fundamental_div_mod(sum as int, 0x10000);
        assert(sum == q * 0x10000 + r);
        assert(q * 0x10000 + r == 0xFFFF * (q as int) + (q + r)) by (nonlinear_arith);
        lemma_mod_multiples_vanish(q as int, q + r as int, 0xFFFF);
        assert(sum % 0xFFFF == (q + r) % 0xFFFF);
        assert(q >= 1);
        lemma_fold_carries_props((r + q) as nat);
    }
}

/// One's-complement verification identity: adding the checksum of a
/// zero-checksum buffer back into its word sum folds to `0xFFFF`.
pub proof fn lemma_checksum_verifies(zeroed: Seq<u8>)
    ensures
        fold_carries((word_sum(zeroed) + spec_checksum(zeroed)) as nat) == 0xFFFF,
{
    lemma_word_sum_nonneg(zeroed, 0);
    let ws = word_sum(zeroed);
    lemma_fold_carries_props(ws as nat);
    let f = fold_carries(ws as nat) as int;
    let c = 0xFFFF - f;
    let total = ws + c;
    lemma_fold_carries_props(total as nat);
    let ft = fold_carries(total as nat) as int;
    // ws and f are congruent modulo 0xFFFF, so total == (ws - f) + 0xFFFF is
    // a positive multiple of 0xFFFF; its folded form is within 16 bits and
    // positive, which leaves only 0xFFFF itself.
    lemma_mod_equivalence(ws, f, 0xFFFF);
    assert((ws - f) % 0xFFFF == 0);
    lemma_mod_add_multiples_vanish(ws - f, 0xFFFF);
    assert(total % 0xFFFF == 0);
    assert(total > 0);
    assert(ft % 0xFFFF == 0);
    assert(ft > 0);
    assert(ft < 0x10000);
    assert(ft == 0xFFFF) by {
        lemma_fundamental_div_mod(ft, 0xFFFF);
    };
}

/// Computes the folded 16-bit word sum of `data`.
pub fn folded_word_sum(data: &Vec<u8>) -> (r: u16)
    requires
        data@.len() <= 0x10000,
    ensures
        r == fold_carries(word_sum(data@) as nat),
{
    proof {
        lemma_word_sum_nonneg(data@, 0);
    }
    let n = data.len();
    let mut sum: u32 = 0;
    let mut i: usize = 0;
    while i + 1 < n
        invariant
            n == data@.len() <= 0x10000,
            i % 2 == 0,
            i <= n,
            sum + word_sum_from(data@, i as int) == word_sum(data@),
            sum <= 0xFFFF * (i / 2),
        decreases n - i,
    {
        proof {
            lemma_word_sum_nonneg(data@, i + 2);
            assert(0xFFFF * ((i / 2) + 1) == 0xFFFF * (i / 2) + 0xFFFF) by (nonlinear_arith);
        }
        sum = sum + ((data[i] as u32) * 256 + data[i + 1] as u32);
        i = i + 2;
    }
    if i < n {
        proof {
            lemma_word_sum_nonneg(data@, i as int);
        }
        sum = sum + (data[i] as u32) * 256;
    }
    assert(sum == word_sum(data@));
    while sum >= 0x10000
        invariant
            fold_carries(sum as nat) == fold_carries(word_sum(data@) as nat),
        decreases sum,
    {
        let lo = sum & 0xFFFF;
        let hi = sum >> 16;
        proof {
            assert(lo == sum % 0x10000 && hi == sum / 0x10000) by (bit_vector)
                requires
                    lo == sum & 0xFFFF && hi == sum >> 16,
            ;
            lemma_fundamental_div_mod(sum as int, 0x10000);
            assert(hi >= 1);
            assert(hi * 0x10000 >= hi * 1) by (nonlinear_arith)
                requires
                    hi >= 1,
            ;
        }
        sum = lo + hi;
    }
    sum as u16
}

/// The checksum of `data`, whose checksum field must already hold zeros:
/// the one's complement of the folded word sum.
pub fn checksum(data: &Vec<u8>) -> (r: u16)
    requires
        data@.len() <= 0x10000,
    ensures
        r == spec_checksum(data@),
{
    let folded = folded_word_sum(data);
    proof {
        lemma_word_sum_nonneg(data@, 0);
        lemma_fold_carries_props(word_sum(data@) as nat);
    }
    0xFFFF - folded
}

/// `word_sum_from` reads only the bytes from `i` on: buffers that agree
/// there have the same tail sum.
pub proof fn lemma_word_sum_from_agree(a: Seq<u8>, b: Seq<u8>, i: int)
    requires
        a.len() == b.len(),
        forall|j: int| i <= j < a.len() ==> a[j] == b[j],
    ensures
        word_sum_from(a, i) == word_sum_from(b, i),
    decreases a.len() - i,
{
    if i + 2 <= a.len() {
        lemma_word_sum_from_agree(a, b, i + 2);
    }
}

/// Length of an echo-request datagram: 8 header bytes plus the payload,
/// zero-padded to the fixed buffer size.
pub const PACKET_LEN: usize = 64;

/// The fixed ASCII payload carried by every echo request.
pub open spec fn payload_bytes() -> Seq<u8> {
    seq![82u8, 117u8, 115u8, 116u8, 80u8, 105u8, 110u8, 103u8, 33u8]
}

/// Builds a 64-byte ICMP echo-request datagram: type 8 (echo request),
/// code 0, the given identifier and sequence number in big-endian order,
/// the fixed ASCII payload `RustPing!`, zero padding, and a checksum that
/// makes the folded word sum of the whole buffer verify to `0xFFFF`.
pub fn encode_packet(sequence: u16, identifier: u16) -> (r: Vec<u8>)
    ensures
        r@.len() == PACKET_LEN,
        r@[0] == 8u8,
        r@[1] == 0u8,
        r@[4] * 256 + r@[5] == identifier,
        r@[6] * 256 + r@[7] == sequence,
        r@.subrange(8, 17) =~= payload_bytes(),
        forall|j: int| 17 <= j < 64 ==> r@[j] == 0u8,
        r@[2] * 256 + r@[3] == spec_checksum(r@.update(2, 0u8).update(3, 0u8)),
        fold_carries(word_sum(r@) as nat) == 0xFFFF,
{
    let mut buffer: Vec<u8> = Vec::new();
    let mut k: usize = 0;
    while k < PACKET_LEN
        invariant
            buffer@.len() == k,
            k <= PACKET_LEN,
            forall|j: int| 0 <= j < k ==> buffer@[j] == 0u8,
        decreases PACKET_LEN - k,
    {
        buffer.push(0u8);
        k = k + 1;
    }
    buffer[0] = 8u8;
    let id_hi = (identifier >> 8) as u8;
    let id_lo = (identifier & 0xFF) as u8;
    let seq_hi = (sequence >> 8) as u8;
    let seq_lo = (sequence & 0xFF) as u8;
    proof {
        assert(((identifier >> 8) as u8) * 256 + ((identifier & 0xFF) as u8) == identifier)
            by (bit_vector);
        assert(((sequence >> 8) as u8) * 256 + ((sequence & 0xFF) as u8) == sequence)
            by (bit_vector);
    }
    buffer[4] = id_hi;
    buffer[5] = id_lo;
    buffer[6] = seq_hi;
    buffer[7] = seq_lo;
    buffer[8] = 82u8;
    buffer[9] = 117u8;
    buffer[10] = 115u8;
    buffer[11] = 116u8;
    buffer[12] = 80u8;
    buffer[13] = 105u8;
    buffer[14] = 110u8;
    buffer[15] = 103u8;
    buffer[16] = 33u8;
    let ghost zeroed = buffer@;
    let cs = checksum(&buffer);
    let cs_hi = (cs >> 8) as u8;
    let cs_lo = (cs & 0xFF) as u8;
    proof {
        assert(((cs >> 8) as u8) * 256 + ((cs & 0xFF) as u8) == cs) by (bit_vector);
    }
    buffer[2] = cs_hi;
    buffer[3] = cs_lo;
    proof {
        let patched = buffer@;
        assert(patched.update(2, 0u8).update(3, 0u8) =~= zeroed);
        lemma_word_sum_from_agree(patched, zeroed, 4);
        assert(word_sum_from(patched, 2) == patched[2] * 256 + patched[3]
            + word_sum_from(patched, 4));
        assert(word_sum_from(zeroed, 2) == 0 + word_sum_from(zeroed, 4));
        assert(word_sum(patched) == word_sum(zeroed) + cs);
        lemma_checksum_verifies(zeroed);
    }
    buffer
}

/// Reads the identifier and sequence number out of an ICMP echo reply
/// (type 0, code 0); nothing for any other or truncated message.  The
/// transport correlates replies with these, so probes of other programs
/// are never mistaken for an answer.
pub fn decode_echo_reply(data: &Vec<u8>) -> (r: Option<(u16, u16)>)
    ensures
        r is Some <==> (data@.len() >= 8 && data@[0] == 0u8 && data@[1] == 0u8),
        r matches Some((id, seq)) ==> {
            &&& id == data@[4] * 256 + data@[5]
            &&& seq == data@[6] * 256 + data@[7]
        },
{
    if data.len() >= 8 && data[0] == 0 && data[1] == 0 {
        let id = (data[4] as u16) * 256 + (data[5] as u16);
        let seq = (data[6] as u16) * 256 + (data[7] as u16);
        Some((id, seq))
    } else {
        None
    }
}

/// Whether `data` passes one's-complement checksum verification: the folded
/// word sum over the whole buffer, checksum field included, is `0xFFFF`.
pub fn verify_checksum(data: &Vec<u8>) -> (r: bool)
    requires
        data@.len() <= 0x10000,
    ensures
        r == (fold_carries(word_sum(data@) as nat) == 0xFFFF),
{
    let folded = folded_word_sum(data);
    folded == 0xFFFF
}

} // verus!
