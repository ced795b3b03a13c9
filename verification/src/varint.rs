//! Variable-length integers: seven payload bits per byte, least significant
//! group first, the high bit set on every byte but the last.

use vstd::prelude::*;

verus! {

/// Why a byte sequence does not start with a well-formed varint.
#[derive(Clone, Copy, Debug, PartialEq, Eq, Structural)]
pub enum VarintFault {
    /// The bytes ended before a byte without the continuation bit.
    UnexpectedEof,
    /// The first five bytes all carry the continuation bit.
    TooLong,
}

/// The most bytes a varint may take.
pub const MAX_VARINT_BYTES: usize = 5;

/// The seven payload bits of a byte.
pub open spec fn payload(b: u8) -> int {
    b as int % 128
}

/// Whether the continuation bit of a byte is set.
pub open spec fn continues(b: u8) -> bool {
    b >= 128
}

/// The number of bytes at the front of `bytes` that carry the continuation
/// bit.
pub open spec fn leading_continuations(bytes: Seq<u8>) -> int
    decreases bytes.len(),
{
    if bytes.len() == 0 || !continues(bytes[0]) {
        0
    } else {
        1 + leading_continuations(bytes.drop_first())
    }
}

/// The number that the payloads of `bytes` spell, the first byte holding
/// the lowest seven bits.
pub open spec fn groups_value(bytes: Seq<u8>) -> int
    decreases bytes.len(),
{
    if bytes.len() == 0 {
        0
    } else {
        payload(bytes[0]) + 128 * groups_value(bytes.drop_first())
    }
}

/// The signed 32-bit integer with the same low 32 bits as `x`.
pub open spec fn wrap32(x: int) -> i32 {
    let low = x % 0x1_0000_0000;
    if low >= 0x8000_0000 {
        (low - 0x1_0000_0000) as i32
    } else {
        low as i32
    }
}

/// The unsigned reading of the 32 bits of `v`.
pub open spec fn unsigned32(v: i32) -> nat {
    if v < 0 {
        (v + 0x1_0000_0000) as nat
    } else {
        v as nat
    }
}

/// What decoding a varint from the front of `bytes` gives: the value and the
/// number of bytes it took, or the fault.
pub open spec fn decode(bytes: Seq<u8>) -> Result<(i32, int), VarintFault> {
    let k = leading_continuations(bytes);
    if k >= MAX_VARINT_BYTES as int {
        Err(VarintFault::TooLong)
    } else if k >= bytes.len() {
        Err(VarintFault::UnexpectedEof)
    } else {
        Ok((wrap32(groups_value(bytes.take(k + 1))), k + 1))
    }
}

/// The groups of `u`, lowest first, each but the last with the continuation
/// bit.
pub open spec fn encode_groups(u: nat) -> Seq<u8>
    decreases u,
{
    if u < 128 {
        seq![u as u8]
    } else {
        seq![(u % 128 + 128) as u8] + encode_groups(u / 128)
    }
}

/// The encoding of `v`, taken as its 32 bits read unsigned.
pub open spec fn encode(v: i32) -> Seq<u8> {
    encode_groups(unsigned32(v))
}

/// If the first `k` bytes all continue, at least `k` do.
proof fn lemma_continuations_at_least(bytes: Seq<u8>, k: int)
    requires
        0 <= k <= bytes.len(),
        forall|j: int| 0 <= j < k ==> continues(#[trigger] bytes[j]),
    ensures
        leading_continuations(bytes) >= k,
    decreases k,
{
    if k > 0 {
        let rest = bytes.drop_first();
        assert forall|j: int| 0 <= j < k - 1 implies continues(#[trigger] rest[j]) by {
            assert(rest[j] == bytes[j + 1]);
        }
        assert(continues(bytes[0]));
        lemma_continuations_at_least(rest, k - 1);
    } else {
        lemma_continuations_bounded(bytes);
    }
}

/// If the first `k` bytes all continue and the next one does not, exactly
/// `k` do.
proof fn lemma_continuations_exact(bytes: Seq<u8>, k: int)
    requires
        0 <= k < bytes.len(),
        forall|j: int| 0 <= j < k ==> continues(#[trigger] bytes[j]),
        !continues(bytes[k]),
    ensures
        leading_continuations(bytes) == k,
    decreases k,
{
    if k > 0 {
        let rest = bytes.drop_first();
        assert forall|j: int| 0 <= j < k - 1 implies continues(#[trigger] rest[j]) by {
            assert(rest[j] == bytes[j + 1]);
        }
        assert(rest[k - 1] == bytes[k]);
        assert(continues(bytes[0]));
        lemma_continuations_exact(rest, k - 1);
    }
}

/// Decodes the varint at the front of `buf`. On success gives its value and
/// the number of bytes it took.
pub fn read_varint_from_slice(buf: &[u8]) -> (r: Result<(i32, usize), VarintFault>)
    ensures
        match r {
            Ok((v, n)) => decode(buf@) == Ok::<(i32, int), VarintFault>((v, n as int)),
            Err(e) => decode(buf@) == Err::<(i32, int), VarintFault>(e),
        },
{
    let mut k: usize = 0;
    while k < MAX_VARINT_BYTES && k < buf.len() && buf[k] >= 128
        invariant
            k <= MAX_VARINT_BYTES,
            k <= buf.len(),
            forall|j: int| 0 <= j < k ==> continues(#[trigger] buf@[j]),
        decreases MAX_VARINT_BYTES - k,
    {
        k = k + 1;
    }
    if k >= MAX_VARINT_BYTES {
        proof {
            lemma_continuations_at_least(buf@, k as int);
        }
        return Err(VarintFault::TooLong);
    }
    if k >= buf.len() {
        proof {
            lemma_continuations_at_least(buf@, k as int);
            lemma_continuations_bounded(buf@);
        }
        return Err(VarintFault::UnexpectedEof);
    }
    proof {
        lemma_continuations_exact(buf@, k as int);
    }
    let n: usize = k + 1;
    let ghost taken = buf@.take(n as int);
    let mut acc: u64 = 0;
    let mut i: usize = n;
    while i > 0
        invariant
            i <= n,
            n <= MAX_VARINT_BYTES,
            n <= buf.len(),
            taken == buf@.take(n as int),
            acc == groups_value(taken.skip(i as int)),
            acc < pow128((n - i) as nat),
        decreases i,
    {
        i = i - 1;
        proof {
            let tail = taken.skip(i as int);
            assert(tail.drop_first() =~= taken.skip(i + 1));
            assert(tail[0] == buf@[i as int]);
            lemma_pow128_bounds((n - i - 1) as nat);
        }
        acc = (buf[i] % 128) as u64 + 128 * acc;
    }
    proof {
        assert(taken.skip(0) =~= taken);
    }
    let low: u64 = acc % 0x1_0000_0000;
    let v: i32 = if low >= 0x8000_0000 {
        (low as i64 - 0x1_0000_0000) as i32
    } else {
        low as i32
    };
    Ok((v, n))
}

/// 128 to the power `k`.
spec fn pow128(k: nat) -> nat
    decreases k,
{
    if k == 0 {
        1
    } else {
        128 * pow128((k - 1) as nat)
    }
}

/// The powers of 128 up to the fifth.
proof fn lemma_pow128_bounds(k: nat)
    requires
        k <= 5,
    ensures
        pow128(k) <= 0x8_0000_0000,
        k <= 4 ==> pow128(k) <= 0x1000_0000,
{
    reveal_with_fuel(pow128, 6);
}

/// No more bytes continue than there are.
proof fn lemma_continuations_bounded(bytes: Seq<u8>)
    ensures
        0 <= leading_continuations(bytes) <= bytes.len(),
    decreases bytes.len(),
{
    if bytes.len() > 0 && continues(bytes[0]) {
        lemma_continuations_bounded(bytes.drop_first());
    }
}

/// The encoding of a number below the `k`-th power of 128 has at most `k`
/// bytes.
proof fn lemma_encode_groups_len(u: nat, k: nat)
    requires
        k >= 1,
        u < pow128(k),
    ensures
        1 <= encode_groups(u).len() <= k,
    decreases k,
{
    reveal_with_fuel(pow128, 2);
    if u >= 128 {
        lemma_encode_groups_len(u / 128, (k - 1) as nat);
    }
}

/// The encoding of `u` ends at its last byte and spells `u`, whatever
/// follows it.
proof fn lemma_encode_groups_decodes(u: nat, rest: Seq<u8>)
    ensures
        encode_groups(u).len() >= 1,
        leading_continuations(encode_groups(u) + rest) == encode_groups(u).len() - 1,
        groups_value(encode_groups(u)) == u,
    decreases u,
{
    let e = encode_groups(u);
    if u < 128 {
        assert(e.drop_first() =~= Seq::<u8>::empty());
        assert(groups_value(Seq::<u8>::empty()) == 0);
        assert((e + rest)[0] == e[0]);
        assert(payload(e[0]) == u);
    } else {
        let tail = encode_groups(u / 128);
        lemma_encode_groups_decodes(u / 128, rest);
        assert(e.drop_first() =~= tail);
        assert((e + rest).drop_first() =~= tail + rest);
        assert((e + rest)[0] == e[0]);
        assert(e[0] == (u % 128 + 128) as u8);
        assert(payload(e[0]) == u % 128);
        assert(groups_value(e) == payload(e[0]) + 128 * groups_value(tail));
    }
}

/// Encodes `value` in one to five bytes, from which it decodes again.
pub fn write_varint(value: i32) -> (out: Vec<u8>)
    ensures
        out@ == encode(value),
        1 <= out@.len() <= MAX_VARINT_BYTES,
        decode(out@) == Ok::<(i32, int), VarintFault>((value, out@.len() as int)),
{
    proof {
        lemma_varint_round_trip(value, Seq::empty());
        assert(encode(value) + Seq::<u8>::empty() =~= encode(value));
    }
    let mut u: u64 = if value < 0 {
        (value as i64 + 0x1_0000_0000) as u64
    } else {
        value as u64
    };
    let mut out: Vec<u8> = Vec::new();
    while u >= 128
        invariant
            out@ + encode_groups(u as nat) =~= encode(value),
        decreases u,
    {
        let b: u8 = (u % 128 + 128) as u8;
        proof {
            assert(encode_groups(u as nat) =~= seq![b] + encode_groups((u / 128) as nat));
            assert(out@.push(b) + encode_groups((u / 128) as nat) =~= out@ + encode_groups(
                u as nat,
            ));
        }
        out.push(b);
        u = u / 128;
    }
    proof {
        assert(out@.push(u as u8) =~= out@ + encode_groups(u as nat));
    }
    out.push(u as u8);
    out
}

/// A varint decodes to the value it was encoded from, and takes exactly the
/// bytes of its encoding, whatever bytes follow. This holds of every 32-bit
/// value, negative ones included.
pub proof fn lemma_varint_round_trip(v: i32, rest: Seq<u8>)
    ensures
        1 <= encode(v).len() <= MAX_VARINT_BYTES,
        decode(encode(v) + rest) == Ok::<(i32, int), VarintFault>((v, encode(v).len() as int)),
{
    let u = unsigned32(v);
    let e = encode(v);
    reveal_with_fuel(pow128, 6);
    lemma_encode_groups_len(u, 5);
    lemma_encode_groups_decodes(u, rest);
    assert((e + rest).take(e.len() as int) =~= e);
    assert(wrap32(u as int) == v);
}

/// Five bytes that all carry the continuation bit are too long a varint,
/// whatever follows them.
pub proof fn lemma_five_continuations_too_long(bytes: Seq<u8>)
    requires
        bytes.len() >= MAX_VARINT_BYTES,
        forall|j: int| 0 <= j < MAX_VARINT_BYTES ==> continues(#[trigger] bytes[j]),
    ensures
        decode(bytes) == Err::<(i32, int), VarintFault>(VarintFault::TooLong),
{
    lemma_continuations_at_least(bytes, MAX_VARINT_BYTES as int);
}

/// Fewer than five bytes that all carry the continuation bit, the empty
/// sequence among them, end too early.
pub proof fn lemma_truncated_is_eof(bytes: Seq<u8>)
    requires
        bytes.len() < MAX_VARINT_BYTES,
        forall|j: int| 0 <= j < bytes.len() ==> continues(#[trigger] bytes[j]),
    ensures
        decode(bytes) == Err::<(i32, int), VarintFault>(VarintFault::UnexpectedEof),
{
    lemma_continuations_at_least(bytes, bytes.len() as int);
    lemma_continuations_bounded(bytes);
}

} // verus!
