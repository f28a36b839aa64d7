//! The bytes of one exchange: an 8-byte size frame, the payload, and a
//! 2-byte acknowledgment.

use vstd::prelude::*;

verus! {

/// Length of the size frame that opens an exchange.
pub const SIZE_FRAME_LEN: usize = 8;

/// Length of the acknowledgment that closes an exchange.
pub const ACK_LEN: usize = 2;

/// The acknowledgment: the two ASCII letters `OK`.
pub open spec fn ack_bytes() -> Seq<u8> {
    seq![0x4fu8, 0x4bu8]
}

/// The acknowledgment as the array that is written to the channel.
pub open spec fn ack_array() -> [u8; 2] {
    [0x4fu8, 0x4bu8]
}

/// The number that a sequence of bytes denotes when the first byte is the
/// least significant one.
pub open spec fn le_value(bytes: Seq<u8>) -> nat
    decreases bytes.len(),
{
    if bytes.len() == 0 {
        0
    } else {
        bytes[0] as nat + 256 * le_value(bytes.skip(1))
    }
}

/// The `len` low-order base-256 digits of `value`, least significant first.
pub open spec fn le_digits(value: nat, len: nat) -> Seq<u8>
    decreases len,
{
    if len == 0 {
        Seq::empty()
    } else {
        seq![(value % 256) as u8] + le_digits(value / 256, (len - 1) as nat)
    }
}

/// The size frame for a payload of `file_size` bytes: the size as an
/// unsigned 64-bit number, little-endian.
pub open spec fn size_frame(file_size: u64) -> Seq<u8> {
    le_digits(file_size as nat, 8)
}

/// The size frame as the array that is written to the channel.
pub open spec fn size_frame_array(file_size: u64) -> [u8; 8] {
    let frame = size_frame(file_size);
    [frame[0], frame[1], frame[2], frame[3], frame[4], frame[5], frame[6], frame[7]]
}

/// Encodes the size frame.
pub fn encode_size(file_size: u64) -> (frame: [u8; 8])
    ensures
        frame == size_frame_array(file_size),
        frame@ == size_frame(file_size),
{
    let b0: u8 = (file_size % 256) as u8;
    let r1: u64 = file_size / 256;
    let b1: u8 = (r1 % 256) as u8;
    let r2: u64 = r1 / 256;
    let b2: u8 = (r2 % 256) as u8;
    let r3: u64 = r2 / 256;
    let b3: u8 = (r3 % 256) as u8;
    let r4: u64 = r3 / 256;
    let b4: u8 = (r4 % 256) as u8;
    let r5: u64 = r4 / 256;
    let b5: u8 = (r5 % 256) as u8;
    let r6: u64 = r5 / 256;
    let b6: u8 = (r6 % 256) as u8;
    let r7: u64 = r6 / 256;
    let b7: u8 = (r7 % 256) as u8;
    let frame = [b0, b1, b2, b3, b4, b5, b6, b7];
    proof {
        reveal_with_fuel(le_digits, 9);
        assert(frame@ =~= size_frame(file_size));
        assert(frame =~= size_frame_array(file_size));
    }
    frame
}

/// Decodes a size frame: the size that the frame is the frame of.
pub fn decode_size(frame: &[u8; 8]) -> (file_size: u64)
    ensures
        file_size == le_value(frame@),
        size_frame(file_size) == frame@,
{
    proof {
        lemma_size_frame_unique(frame@);
    }
    let mut value: u64 = 0;
    let mut i: usize = 8;
    while i > 0
        invariant
            i <= 8,
            value == le_value(frame@.skip(i as int)),
            value < pow256((8 - i) as nat),
        decreases i,
    {
        i = i - 1;
        proof {
            let tail = frame@.skip(i as int);
            assert(tail.skip(1) =~= frame@.skip(i + 1));
            assert(tail[0] == frame@[i as int]);
            lemma_pow256_eight();
            lemma_pow256_monotone((8 - i) as nat, 8);
        }
        value = value * 256 + frame[i] as u64;
    }
    proof {
        assert(frame@.skip(0) =~= frame@);
    }
    value
}

/// The acknowledgment that the receiver writes.
pub fn acknowledgment() -> (ack: [u8; 2])
    ensures
        ack == ack_array(),
        ack@ == ack_bytes(),
{
    let ack = [0x4fu8, 0x4bu8];
    assert(ack@ =~= ack_bytes());
    assert(ack =~= ack_array());
    ack
}

/// Whether the bytes read in place of the acknowledgment are the
/// acknowledgment.
pub fn is_acknowledgment(bytes: &[u8]) -> (ok: bool)
    ensures
        ok == (bytes@ == ack_bytes()),
{
    if bytes.len() != 2 {
        return false;
    }
    let ok = bytes[0] == 0x4fu8 && bytes[1] == 0x4bu8;
    proof {
        if ok {
            assert(bytes@ =~= ack_bytes());
        }
    }
    ok
}

/// Law of the size frame: it has eight bytes, and the number that they
/// denote is the size. So a frame that is decoded gives back the size that
/// was encoded.
pub proof fn lemma_size_frame_round_trip(file_size: u64)
    ensures
        size_frame(file_size).len() == 8,
        size_frame_array(file_size)@ == size_frame(file_size),
        le_value(size_frame(file_size)) == file_size,
{
    lemma_le_digits_len(file_size as nat, 8);
    assert(size_frame_array(file_size)@ =~= size_frame(file_size));
    lemma_value_of_digits(file_size as nat, 8);
    lemma_pow256_eight();
    assert(pow256(8) * ((file_size as nat) / pow256(8)) == 0) by {
        assert((file_size as nat) / 0x1_0000_0000_0000_0000 == 0);
    }
}

/// Law of the size frame: any eight bytes are the frame of exactly one
/// size, the number that they denote.
pub proof fn lemma_size_frame_unique(frame: Seq<u8>)
    requires
        frame.len() == 8,
    ensures
        le_value(frame) <= u64::MAX,
        size_frame(le_value(frame) as u64) == frame,
        forall|file_size: u64| size_frame(file_size) == frame ==> file_size == le_value(frame),
{
    lemma_digits_of_value(frame);
    lemma_pow256_eight();
    assert forall|file_size: u64| size_frame(file_size) == frame implies file_size == le_value(
        frame,
    ) by {
        lemma_size_frame_round_trip(file_size);
    }
}

/// 256 to the power `n`.
spec fn pow256(n: nat) -> nat
    decreases n,
{
    if n == 0 {
        1
    } else {
        256 * pow256((n - 1) as nat)
    }
}

/// There are as many digits as were asked for.
proof fn lemma_le_digits_len(value: nat, len: nat)
    ensures
        le_digits(value, len).len() == len,
    decreases len,
{
    if len > 0 {
        lemma_le_digits_len(value / 256, (len - 1) as nat);
    }
}

/// The `len` low-order digits of a number denote the number without its
/// multiples of 256 to the power `len`.
proof fn lemma_value_of_digits(value: nat, len: nat)
    ensures
        le_value(le_digits(value, len)) + pow256(len) * (value / pow256(len)) == value,
    decreases len,
{
    if len == 0 {
        assert(le_digits(value, 0).len() == 0);
        assert(pow256(0) == 1);
    } else {
        let rest = le_digits(value / 256, (len - 1) as nat);
        let all = le_digits(value, len);
        lemma_le_digits_len(value / 256, (len - 1) as nat);
        assert(all.skip(1) =~= rest);
        assert(all[0] == (value % 256) as u8);
        lemma_value_of_digits(value / 256, (len - 1) as nat);
        let p = pow256((len - 1) as nat);
        let q = (value / 256) / p;
        lemma_pow256_positive((len - 1) as nat);
        assert(pow256(len) == 256 * p);
        assert(value / (256 * p) == q) by (nonlinear_arith)
            requires
                p > 0,
                q == (value / 256) / p,
        ;
        assert((256 * p) * q == 256 * (p * q)) by (nonlinear_arith);
        assert(le_value(all) == value % 256 + 256 * le_value(rest));
    }
}

/// The digits of the number that a sequence of bytes denotes are those
/// bytes, and the number has no more digits than there are bytes.
proof fn lemma_digits_of_value(bytes: Seq<u8>)
    ensures
        le_digits(le_value(bytes), bytes.len()) == bytes,
        le_value(bytes) < pow256(bytes.len()),
    decreases bytes.len(),
{
    if bytes.len() == 0 {
        assert(le_digits(le_value(bytes), 0) =~= bytes);
    } else {
        let tail = bytes.skip(1);
        lemma_digits_of_value(tail);
        let v = le_value(bytes);
        assert(v == bytes[0] as nat + 256 * le_value(tail));
        assert(v % 256 == bytes[0] as nat);
        assert(v / 256 == le_value(tail));
        assert(le_digits(v, bytes.len()) =~= bytes);
    }
}

/// A power of 256 is positive.
proof fn lemma_pow256_positive(n: nat)
    ensures
        pow256(n) > 0,
    decreases n,
{
    if n > 0 {
        lemma_pow256_positive((n - 1) as nat);
    }
}

/// Powers of 256 grow with the exponent.
proof fn lemma_pow256_monotone(a: nat, b: nat)
    requires
        a <= b,
    ensures
        pow256(a) <= pow256(b),
    decreases b,
{
    if a < b {
        lemma_pow256_monotone(a, (b - 1) as nat);
    }
}

/// Eight bytes hold the numbers below 2 to the power 64.
proof fn lemma_pow256_eight()
    ensures
        pow256(8) == 0x1_0000_0000_0000_0000,
{
    reveal_with_fuel(pow256, 9);
}

} // verus!
