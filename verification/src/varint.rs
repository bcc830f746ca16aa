//! The variable-length integer of the Minecraft protocol: a signed 32-bit
//! value written as one to five bytes, seven bits per byte, low bits first,
//! with the top bit of a byte saying that another byte follows.

use crate::error::ProxyError;
use vstd::prelude::*;

verus! {

/// The most bytes an encoded value can take.
pub const MAX_VAR_INT_LEN: usize = 5;

/// `128^k`.
pub open spec fn pow128(k: nat) -> nat
    decreases k,
{
    if k == 0 {
        1
    } else {
        128 * pow128((k - 1) as nat)
    }
}

/// The two's-complement bit pattern of `value`, read as a natural number.
pub open spec fn bits_of(value: i32) -> nat {
    if value >= 0 {
        value as nat
    } else {
        (value + 0x1_0000_0000) as nat
    }
}

/// The signed value whose bit pattern is the low 32 bits of `bits`.
pub open spec fn value_of(bits: nat) -> i32 {
    let low = bits % 0x1_0000_0000;
    if low < 0x8000_0000 {
        low as i32
    } else {
        (low - 0x1_0000_0000) as i32
    }
}

/// The base-128 digits of `n`, lowest first, every digit but the last
/// carrying the continuation bit.
pub open spec fn var_int_digits(n: nat) -> Seq<u8>
    decreases n,
{
    if n < 128 {
        seq![n as u8]
    } else {
        seq![(n % 128 + 128) as u8] + var_int_digits(n / 128)
    }
}

/// The bytes that stand for `value` on the wire.
pub open spec fn var_int_encoding(value: i32) -> Seq<u8> {
    var_int_digits(bits_of(value))
}

/// The number that the leading digits of `bytes` stand for and how many
/// bytes they take, when a digit without continuation bit occurs among the
/// first `limit` bytes.
pub open spec fn digits_value(bytes: Seq<u8>, limit: nat) -> Option<(nat, nat)>
    decreases limit,
{
    if limit == 0 || bytes.len() == 0 {
        None
    } else if bytes[0] < 128 {
        Some((bytes[0] as nat, 1nat))
    } else {
        match digits_value(bytes.drop_first(), (limit - 1) as nat) {
            Some((rest, used)) => Some(((bytes[0] - 128) as nat + 128 * rest, used + 1)),
            None => None,
        }
    }
}

/// The value at the front of `bytes` and the number of bytes it takes;
/// `None` when the bytes end too early or a sixth byte would be needed.
pub open spec fn var_int_decoding(bytes: Seq<u8>) -> Option<(i32, nat)> {
    match digits_value(bytes, 5) {
        Some((n, used)) => Some((value_of(n), used)),
        None => None,
    }
}

proof fn lemma_pow128_values()
    ensures
        pow128(0) == 1,
        pow128(1) == 0x80,
        pow128(2) == 0x4000,
        pow128(3) == 0x20_0000,
        pow128(4) == 0x1000_0000,
        pow128(5) == 0x8_0000_0000,
{
    reveal_with_fuel(pow128, 6);
}

/// The bit pattern of a value stands for that value again.
pub proof fn lemma_value_of_bits(value: i32)
    ensures
        bits_of(value) < 0x1_0000_0000,
        value_of(bits_of(value)) == value,
{
}

/// An encoding has between one and `k` bytes when the number is below `128^k`.
pub proof fn lemma_digits_len(n: nat, k: nat)
    requires
        k >= 1,
        n < pow128(k),
    ensures
        1 <= var_int_digits(n).len() <= k,
    decreases k,
{
    if n >= 128 {
        assert(k >= 2) by {
            reveal_with_fuel(pow128, 2);
        }
        assert(n / 128 < pow128((k - 1) as nat));
        lemma_digits_len(n / 128, (k - 1) as nat);
    }
}

/// Reading the digits of `n` gives `n` back, whatever follows them.
pub proof fn lemma_digits_round_trip(n: nat, rest: Seq<u8>, limit: nat)
    requires
        limit >= 1,
        n < pow128(limit),
    ensures
        digits_value(var_int_digits(n) + rest, limit) == Some((n, var_int_digits(n).len())),
    decreases limit,
{
    let all = var_int_digits(n) + rest;
    if n < 128 {
        assert(all[0] == n as u8);
    } else {
        assert(limit >= 2) by {
            reveal_with_fuel(pow128, 2);
        }
        let tail = var_int_digits(n / 128);
        assert(all[0] == (n % 128 + 128) as u8);
        assert(all.drop_first() =~= tail + rest);
        assert(n / 128 < pow128((limit - 1) as nat));
        lemma_digits_round_trip(n / 128, rest, (limit - 1) as nat);
    }
}

/// Every signed 32-bit value is read back from its encoding, whatever bytes
/// follow it, and the encoding has at most five bytes.
pub proof fn lemma_var_int_round_trip(value: i32, rest: Seq<u8>)
    ensures
        1 <= var_int_encoding(value).len() <= 5,
        var_int_decoding(var_int_encoding(value) + rest) == Some(
            (value, var_int_encoding(value).len()),
        ),
{
    lemma_pow128_values();
    lemma_value_of_bits(value);
    lemma_digits_len(bits_of(value), 5);
    lemma_digits_round_trip(bits_of(value), rest, 5);
}

/// Five bytes that all announce a successor cannot be read: a sixth byte
/// would be needed.
pub proof fn lemma_var_int_sixth_byte(bytes: Seq<u8>)
    requires
        bytes.len() >= 5,
        forall|i: int| 0 <= i < 5 ==> bytes[i] >= 128,
    ensures
        var_int_decoding(bytes) is None,
{
    lemma_continuations_only(bytes, 5);
}

proof fn lemma_continuations_only(bytes: Seq<u8>, limit: nat)
    requires
        forall|i: int| 0 <= i < limit && i < bytes.len() ==> bytes[i] >= 128,
    ensures
        digits_value(bytes, limit) is None,
    decreases limit,
{
    if limit > 0 && bytes.len() > 0 {
        assert(bytes[0] >= 128);
        let tail = bytes.drop_first();
        assert forall|i: int| 0 <= i < limit - 1 && i < tail.len() implies tail[i] >= 128 by {
            assert(tail[i] == bytes[i + 1]);
        }
        lemma_continuations_only(tail, (limit - 1) as nat);
    }
}

/// A successful read takes between one and five bytes, none beyond the input.
pub proof fn lemma_decoding_bounds(bytes: Seq<u8>)
    ensures
        var_int_decoding(bytes) matches Some((_, used)) ==> 1 <= used <= 5 && used <= bytes.len(),
{
    lemma_digits_bounds(bytes, 5);
}

proof fn lemma_digits_bounds(bytes: Seq<u8>, limit: nat)
    ensures
        digits_value(bytes, limit) matches Some((n, used)) ==> 1 <= used <= limit && used
            <= bytes.len() && n < pow128(used),
    decreases limit,
{
    if limit > 0 && bytes.len() > 0 {
        if bytes[0] < 128 {
            reveal_with_fuel(pow128, 2);
        } else {
            lemma_digits_bounds(bytes.drop_first(), (limit - 1) as nat);
        }
    }
}

/// Appends the encoding of `value` to `buf`: at least one byte, at most
/// five.
pub fn write_var_int(buf: &mut Vec<u8>, value: i32)
    ensures
        final(buf)@ == old(buf)@ + var_int_encoding(value),
        old(buf).len() < final(buf).len() <= old(buf).len() + MAX_VAR_INT_LEN,
{
    proof {
        lemma_var_int_round_trip(value, Seq::empty());
    }
    let mut rest: u32 = value as u32;
    assert(rest as nat == bits_of(value)) by {
        assert(value >= 0 ==> value as u32 == value) by (bit_vector);
        assert(value < 0 ==> value as u32 == value + 0x1_0000_0000) by (bit_vector);
    }
    while rest >= 0x80
        invariant
            old(buf)@ + var_int_encoding(value) == buf@ + var_int_digits(rest as nat),
        decreases rest,
    {
        let digit: u8 = ((rest & 0x7f) | 0x80) as u8;
        assert(((rest & 0x7f) | 0x80) == rest % 128 + 128) by (bit_vector);
        assert(rest >> 7 == rest / 128) by (bit_vector);
        assert(buf@.push(digit) + var_int_digits((rest / 128) as nat) =~= buf@ + var_int_digits(
            rest as nat,
        ));
        buf.push(digit);
        rest = rest >> 7;
    }
    assert(buf@.push(rest as u8) =~= buf@ + var_int_digits(rest as nat));
    buf.push(rest as u8);
}

/// The encoding of `value` as a fresh vector.
pub fn encode_var_int(value: i32) -> (bytes: Vec<u8>)
    ensures
        bytes@ == var_int_encoding(value),
        1 <= bytes.len() <= MAX_VAR_INT_LEN,
{
    let mut bytes: Vec<u8> = Vec::new();
    write_var_int(&mut bytes, value);
    assert(bytes@ =~= var_int_encoding(value));
    bytes
}

/// What the digits read so far and the digits still to read stand for
/// together: the rest counts `scale` times, and `done` bytes are behind.
spec fn shifted(acc: nat, scale: nat, done: nat, rest: Option<(nat, nat)>) -> Option<(nat, nat)> {
    match rest {
        Some((n, used)) => Some((acc + scale * n, used + done)),
        None => None,
    }
}

/// Reads one value from the front of `bytes`: the value and the number of
/// bytes it took. Fails when the bytes end before a final digit or when the
/// first five bytes all announce a successor.
pub fn read_var_int(bytes: &[u8]) -> (res: Result<(i32, usize), ProxyError>)
    ensures
        match res {
            Ok((value, used)) => var_int_decoding(bytes@) == Some((value, used as nat)),
            Err(e) => e == ProxyError::Malformed && var_int_decoding(bytes@) is None,
        },
{
    let mut acc: u64 = 0;
    let mut scale: u64 = 1;
    let mut i: usize = 0;
    proof {
        lemma_pow128_values();
        assert(bytes@.skip(0) =~= bytes@);
    }
    while i < 5 && i < bytes.len()
        invariant
            i <= 5,
            i <= bytes.len(),
            scale == pow128(i as nat),
            acc < scale,
            digits_value(bytes@, 5) == shifted(
                acc as nat,
                scale as nat,
                i as nat,
                digits_value(bytes@.skip(i as int), (5 - i) as nat),
            ),
        decreases 5 - i,
    {
        let b = bytes[i];
        proof {
            lemma_pow128_values();
            assert(bytes@.skip(i as int)[0] == b);
            assert(bytes@.skip(i as int).drop_first() =~= bytes@.skip(i + 1));
            assert(scale <= 0x1000_0000);
        }
        if b < 128 {
            assert(b as u64 * scale <= 127 * 0x1000_0000) by (nonlinear_arith)
                requires
                    b < 128,
                    scale <= 0x1000_0000,
            ;
            let total: u64 = acc + (b as u64) * scale;
            let low: u32 = (total % 0x1_0000_0000) as u32;
            let value: i32 = low as i32;
            proof {
                assert(low < 0x8000_0000 ==> low as i32 == low) by (bit_vector);
                assert(low >= 0x8000_0000 ==> low as i32 == low - 0x1_0000_0000) by (bit_vector);
                assert(value == value_of(total as nat));
                assert(scale * b == b * scale) by (nonlinear_arith);
            }
            return Ok((value, i + 1));
        }
        let digit: u64 = (b - 128) as u64;
        proof {
            let tail = digits_value(bytes@.skip(i + 1), (5 - i - 1) as nat);
            assert(digit * scale <= 127 * scale) by (nonlinear_arith)
                requires
                    digit <= 127,
            ;
            assert(128 * scale == pow128((i + 1) as nat));
            match tail {
                Some((n, used)) => {
                    assert((acc + digit * scale) + (scale * 128) * n == acc + scale * (digit + 128
                        * n)) by (nonlinear_arith);
                },
                None => {},
            }
        }
        acc = acc + digit * scale;
        scale = scale * 128;
        i = i + 1;
    }
    Err(ProxyError::Malformed)
}

} // verus!
