//! Variable-length integers: seven payload bits per byte, least significant
//! group first, the high bit of a byte set when another byte follows.
use vstd::prelude::*;

verus! {

/// Largest number of bytes a VarInt may occupy.
pub const VARINT_MAX_BYTES: usize = 5;

/// Largest number of bytes a VarLong may occupy.
pub const VARLONG_MAX_BYTES: usize = 10;

/// Why a byte sequence could not be decoded.
#[derive(Clone, Copy, Debug, PartialEq, Eq, Structural)]
pub enum DecodeError {
    /// A variable-length integer ran past its byte bound.
    MalformedVarInt,
    /// The bytes ended before the value did.
    UnexpectedEnd,
    /// A declared length is negative or does not fit the frame.
    BadLength,
    /// A string's bytes are not UTF-8.
    InvalidString,
}

/// 128 to the power `k`.
pub open spec fn pow128(k: nat) -> nat
    decreases k,
{
    if k == 0 {
        1
    } else {
        128 * pow128((k - 1) as nat)
    }
}

/// The unsigned bit pattern of a 32-bit signed integer.
pub open spec fn bits32(x: i32) -> nat {
    if x >= 0 {
        x as nat
    } else {
        (x + 0x1_0000_0000) as nat
    }
}

/// The unsigned bit pattern of a 64-bit signed integer.
pub open spec fn bits64(x: i64) -> nat {
    if x >= 0 {
        x as nat
    } else {
        (x + 0x1_0000_0000_0000_0000) as nat
    }
}

/// The signed 32-bit integer whose bit pattern is the low 32 bits of `u`.
pub open spec fn from_bits32(u: nat) -> i32 {
    let w = u % 0x1_0000_0000;
    if w < 0x8000_0000 {
        w as i32
    } else {
        (w - 0x1_0000_0000) as i32
    }
}

/// The signed 64-bit integer whose bit pattern is the low 64 bits of `u`.
pub open spec fn from_bits64(u: nat) -> i64 {
    let w = u % 0x1_0000_0000_0000_0000;
    if w < 0x8000_0000_0000_0000 {
        w as i64
    } else {
        (w - 0x1_0000_0000_0000_0000) as i64
    }
}

/// The variable-length encoding of a natural number.
pub open spec fn var_bytes(v: nat) -> Seq<u8>
    decreases v,
{
    if v < 128 {
        seq![v as u8]
    } else {
        seq![(v % 128 + 128) as u8] + var_bytes(v / 128)
    }
}

/// The encoding of a VarInt: that of its 32-bit pattern.
pub open spec fn varint_bytes(x: i32) -> Seq<u8> {
    var_bytes(bits32(x))
}

/// The encoding of a VarLong: that of its 64-bit pattern.
pub open spec fn varlong_bytes(x: i64) -> Seq<u8> {
    var_bytes(bits64(x))
}

/// Reading a variable-length number at position `p` of `s`, taking at most
/// `max` bytes: the value and the number of bytes taken, or why it failed.
pub open spec fn var_at(s: Seq<u8>, p: int, max: nat) -> Result<(nat, nat), DecodeError>
    decreases max,
{
    if max == 0 {
        Err(DecodeError::MalformedVarInt)
    } else if p < 0 || p >= s.len() {
        Err(DecodeError::UnexpectedEnd)
    } else if s[p] < 128 {
        Ok((s[p] as nat, 1))
    } else {
        match var_at(s, p + 1, (max - 1) as nat) {
            Ok((v, n)) => Ok((((s[p] - 128) + 128 * v) as nat, n + 1)),
            Err(e) => Err(e),
        }
    }
}

/// The VarInt read at position `p`, with the number of bytes it took.
pub open spec fn varint_at(s: Seq<u8>, p: int) -> Result<(i32, nat), DecodeError> {
    match var_at(s, p, VARINT_MAX_BYTES as nat) {
        Ok((v, n)) => Ok((from_bits32(v), n)),
        Err(e) => Err(e),
    }
}

/// The VarLong read at position `p`, with the number of bytes it took.
pub open spec fn varlong_at(s: Seq<u8>, p: int) -> Result<(i64, nat), DecodeError> {
    match var_at(s, p, VARLONG_MAX_BYTES as nat) {
        Ok((v, n)) => Ok((from_bits64(v), n)),
        Err(e) => Err(e),
    }
}

/// What reading from a later position tells of reading from an earlier one,
/// given the groups `acc` already read, `k` bytes, and the weight `mult`.
pub open spec fn lift(r: Result<(nat, nat), DecodeError>, acc: nat, mult: nat, k: nat) -> Result<
    (nat, nat),
    DecodeError,
> {
    match r {
        Ok((v, n)) => Ok((acc + mult * v, n + k)),
        Err(e) => Err(e),
    }
}

/// Appends the variable-length encoding of `value`.
fn write_var(out: &mut Vec<u8>, value: u64)
    ensures
        final(out)@ == old(out)@ + var_bytes(value as nat),
{
    let mut v: u64 = value;
    loop
        invariant
            out@ + var_bytes(v as nat) == old(out)@ + var_bytes(value as nat),
        decreases v,
    {
        let low: u8 = (v % 128) as u8;
        let rest: u64 = v / 128;
        if rest == 0 {
            proof {
                assert(out@.push(low) == out@ + var_bytes(v as nat));
            }
            out.push(low);
            return;
        }
        proof {
            let t = var_bytes(rest as nat);
            assert(var_bytes(v as nat) == seq![(low + 128) as u8] + t);
            assert(out@.push((low + 128) as u8) + t == out@ + (seq![(low + 128) as u8] + t));
        }
        out.push(low + 128);
        v = rest;
    }
}

/// Appends the VarInt encoding of `x`.
pub fn write_varint(out: &mut Vec<u8>, x: i32)
    ensures
        final(out)@ == old(out)@ + varint_bytes(x),
{
    let u: u64 = if x >= 0 {
        x as u64
    } else {
        (x as i64 + 0x1_0000_0000) as u64
    };
    write_var(out, u);
}

/// Appends the VarLong encoding of `x`.
pub fn write_varlong(out: &mut Vec<u8>, x: i64)
    ensures
        final(out)@ == old(out)@ + varlong_bytes(x),
{
    let u: u64 = if x >= 0 {
        x as u64
    } else {
        ((x + 1 + i64::MAX) as u64) + 0x8000_0000_0000_0000
    };
    write_var(out, u);
}


/// Reads a variable-length number of at most `max` bytes at `pos`.
fn read_var(s: &[u8], pos: usize, max: usize) -> (r: Result<(u128, usize), DecodeError>)
    requires
        max <= VARLONG_MAX_BYTES,
    ensures
        match var_at(s@, pos as int, max as nat) {
            Ok((v, n)) => {
                &&& v < pow128(10)
                &&& n <= max
                &&& pos + n <= s@.len() <= usize::MAX
                &&& r == Ok::<(u128, usize), DecodeError>((v as u128, n as usize))
            },
            Err(e) => r == Err::<(u128, usize), DecodeError>(e),
        },
{
    let mut acc: u128 = 0;
    let mut mult: u128 = 1;
    let mut k: usize = 0;
    let mut p: usize = pos;
    loop
        invariant
            p == pos + k,
            k <= max <= VARLONG_MAX_BYTES,
            mult == pow128(k as nat),
            acc < mult,
            var_at(s@, pos as int, max as nat) == lift(
                var_at(s@, p as int, (max - k) as nat),
                acc as nat,
                mult as nat,
                k as nat,
            ),
        decreases max - k,
    {
        if k == max {
            return Err(DecodeError::MalformedVarInt);
        }
        proof {
            lemma_pow128_monotone((k + 1) as nat, 10);
            lemma_pow128_bound(k as nat);
        }
        if p >= s.len() {
            return Err(DecodeError::UnexpectedEnd);
        }
        let b: u8 = s[p];
        if b < 128 {
            assert(acc + mult * b < pow128(10)) by (nonlinear_arith)
                requires
                    acc < mult,
                    mult * 128 <= pow128(10),
                    b < 128,
            ;
            return Ok((acc + mult * (b as u128), k + 1));
        }
        let digit: u128 = (b - 128) as u128;
        proof {
            let rest = var_at(s@, p + 1, (max - k - 1) as nat);
            assert(var_at(s@, p as int, (max - k) as nat) == lift(rest, digit as nat, 128, 1));
            match rest {
                Ok((v, n)) => {
                    assert(acc + mult * (digit + 128 * v) == (acc + mult * digit) + (mult * 128) * v)
                        by (nonlinear_arith);
                },
                Err(_) => {},
            }
            assert(acc + mult * digit < mult * 128) by (nonlinear_arith)
                requires
                    acc < mult,
                    digit < 128,
            ;
        }
        acc = acc + mult * digit;
        mult = mult * 128;
        k = k + 1;
        p = p + 1;
    }
}

proof fn lemma_pow128_bound(k: nat)
    requires
        k <= VARLONG_MAX_BYTES,
    ensures
        1 <= pow128(k) <= pow128(10),
        pow128(10) == 0x40_0000_0000_0000_0000,
{
    reveal_with_fuel(pow128, 11);
    lemma_pow128_monotone(k, 10);
}

proof fn lemma_pow128_monotone(a: nat, b: nat)
    requires
        a <= b,
    ensures
        1 <= pow128(a) <= pow128(b),
    decreases b,
{
    if b > 0 {
        if a < b {
            lemma_pow128_monotone(a, (b - 1) as nat);
        } else {
            lemma_pow128_monotone((a - 1) as nat, (b - 1) as nat);
        }
    }
}

/// A successful read takes between one and `max` bytes, all inside `s`.
pub proof fn lemma_var_at_within(s: Seq<u8>, p: int, max: nat)
    ensures
        var_at(s, p, max) matches Ok((v, n)) ==> 1 <= n <= max && 0 <= p && p + n <= s.len(),
    decreases max,
{
    if max > 0 && 0 <= p < s.len() && s[p] >= 128 {
        lemma_var_at_within(s, p + 1, (max - 1) as nat);
    }
}

/// Reads the VarInt at `pos`: its value and the number of bytes it took.
pub fn read_varint_at(s: &[u8], pos: usize) -> (r: Result<(i32, usize), DecodeError>)
    ensures
        match varint_at(s@, pos as int) {
            Ok((x, n)) => r == Ok::<(i32, usize), DecodeError>((x, n as usize)) && pos + n
                <= s@.len() <= usize::MAX,
            Err(e) => r == Err::<(i32, usize), DecodeError>(e),
        },
{
    proof {
        lemma_pow128_bound(0);
        lemma_var_at_within(s@, pos as int, VARINT_MAX_BYTES as nat);
        lemma_var_at_within(s@, pos as int, VARLONG_MAX_BYTES as nat);
    }
    match read_var(s, pos, VARINT_MAX_BYTES) {
        Ok((v, n)) => {
            let w: u128 = v % 0x1_0000_0000;
            let x: i32 = if w < 0x8000_0000 {
                w as i32
            } else {
                (w as i64 - 0x1_0000_0000) as i32
            };
            Ok((x, n))
        },
        Err(e) => Err(e),
    }
}

/// Reads the VarLong at `pos`: its value and the number of bytes it took.
pub fn read_varlong_at(s: &[u8], pos: usize) -> (r: Result<(i64, usize), DecodeError>)
    ensures
        match varlong_at(s@, pos as int) {
            Ok((x, n)) => r == Ok::<(i64, usize), DecodeError>((x, n as usize)) && pos + n
                <= s@.len() <= usize::MAX,
            Err(e) => r == Err::<(i64, usize), DecodeError>(e),
        },
{
    proof {
        lemma_pow128_bound(0);
        lemma_var_at_within(s@, pos as int, VARINT_MAX_BYTES as nat);
        lemma_var_at_within(s@, pos as int, VARLONG_MAX_BYTES as nat);
    }
    match read_var(s, pos, VARLONG_MAX_BYTES) {
        Ok((v, n)) => {
            let w: u128 = v % 0x1_0000_0000_0000_0000;
            let x: i64 = if w < 0x8000_0000_0000_0000 {
                w as i64
            } else {
                ((w - 0x8000_0000_0000_0000) as i64) - i64::MAX - 1
            };
            Ok((x, n))
        },
        Err(e) => Err(e),
    }
}


/// Reading past a prefix: positions in `t` keep their meaning after `a`.
pub proof fn lemma_var_at_shift(a: Seq<u8>, t: Seq<u8>, p: int, max: nat)
    requires
        p >= 0,
    ensures
        var_at(a + t, a.len() + p, max) == var_at(t, p, max),
    decreases max,
{
    if max > 0 && p < t.len() {
        assert((a + t)[a.len() + p] == t[p]);
        lemma_var_at_shift(a, t, p + 1, (max - 1) as nat);
        assert(a.len() + p + 1 == a.len() + (p + 1));
    }
}

/// The encoding of `v` fits in `k` bytes when `v < 128^k`.
pub proof fn lemma_var_len(v: nat, k: nat)
    requires
        k >= 1,
        v < pow128(k),
    ensures
        1 <= var_bytes(v).len() <= k,
    decreases v,
{
    if v >= 128 {
        assert(k >= 2) by {
            if k == 1 {
                reveal_with_fuel(pow128, 2);
            }
        }
        assert(v / 128 < pow128((k - 1) as nat)) by (nonlinear_arith)
            requires
                v < 128 * pow128((k - 1) as nat),
        ;
        lemma_var_len(v / 128, (k - 1) as nat);
    }
}

/// Decoding the encoding of `v`, whatever follows it, gives back `v` and
/// the encoding's length.
pub proof fn lemma_var_round_trip(v: nat, rest: Seq<u8>, max: nat)
    requires
        var_bytes(v).len() <= max,
    ensures
        var_at(var_bytes(v) + rest, 0, max) == Ok::<(nat, nat), DecodeError>(
            (v, var_bytes(v).len()),
        ),
    decreases v,
{
    let s = var_bytes(v) + rest;
    if v < 128 {
        assert(s[0] == v as u8);
    } else {
        let head = seq![(v % 128 + 128) as u8];
        let tail = var_bytes(v / 128);
        assert(s == head + (tail + rest));
        lemma_var_round_trip(v / 128, rest, (max - 1) as nat);
        lemma_var_at_shift(head, tail + rest, 0, (max - 1) as nat);
        assert(s[0] == (v % 128 + 128) as u8);
    }
}

/// The bit pattern of a 32-bit integer is below 2^32 and reads back as it.
pub proof fn lemma_bits32(x: i32)
    ensures
        bits32(x) < 0x1_0000_0000,
        from_bits32(bits32(x)) == x,
{
}

/// The bit pattern of a 64-bit integer is below 2^64 and reads back as it.
pub proof fn lemma_bits64(x: i64)
    ensures
        bits64(x) < 0x1_0000_0000_0000_0000,
        from_bits64(bits64(x)) == x,
{
}

/// Any 32-bit integer encodes as one to five bytes, and decoding those bytes
/// at the start of a buffer, whatever follows them, gives back the integer
/// and the number of bytes of its encoding.
pub proof fn lemma_varint_round_trip(x: i32, rest: Seq<u8>)
    ensures
        1 <= varint_bytes(x).len() <= VARINT_MAX_BYTES,
        varint_at(varint_bytes(x) + rest, 0) == Ok::<(i32, nat), DecodeError>(
            (x, varint_bytes(x).len()),
        ),
{
    lemma_bits32(x);
    reveal_with_fuel(pow128, 6);
    lemma_var_len(bits32(x), 5);
    lemma_var_round_trip(bits32(x), rest, 5);
}

/// Any 64-bit integer encodes as one to ten bytes, and decoding those bytes
/// at the start of a buffer, whatever follows them, gives back the integer
/// and the number of bytes of its encoding.
pub proof fn lemma_varlong_round_trip(x: i64, rest: Seq<u8>)
    ensures
        1 <= varlong_bytes(x).len() <= VARLONG_MAX_BYTES,
        varlong_at(varlong_bytes(x) + rest, 0) == Ok::<(i64, nat), DecodeError>(
            (x, varlong_bytes(x).len()),
        ),
{
    lemma_bits64(x);
    lemma_pow128_bound(10);
    lemma_var_len(bits64(x), 10);
    lemma_var_round_trip(bits64(x), rest, 10);
}

/// Zero encodes as exactly one zero byte.
pub proof fn lemma_zero_is_one_byte()
    ensures
        varint_bytes(0) == seq![0u8],
        varlong_bytes(0) == seq![0u8],
{
}

/// Reading fails with `MalformedVarInt` wherever the next `max` bytes all
/// carry the continuation bit.
pub proof fn lemma_overlong_rejected(s: Seq<u8>, p: int, max: nat)
    requires
        0 <= p,
        p + max <= s.len(),
        forall|j: int| p <= j < p + max ==> s[j] >= 128,
    ensures
        var_at(s, p, max) == Err::<(nat, nat), DecodeError>(DecodeError::MalformedVarInt),
    decreases max,
{
    if max > 0 {
        lemma_overlong_rejected(s, p + 1, (max - 1) as nat);
    }
}

/// Six (or more) bytes that all carry the continuation bit are no VarInt:
/// reading one there fails with `MalformedVarInt`, and the same holds of ten
/// such bytes and a VarLong.
pub proof fn lemma_varint_bound_enforced(s: Seq<u8>, p: int)
    requires
        0 <= p,
        p + VARINT_MAX_BYTES <= s.len(),
        forall|j: int| p <= j < p + VARINT_MAX_BYTES ==> s[j] >= 128,
    ensures
        varint_at(s, p) == Err::<(i32, nat), DecodeError>(DecodeError::MalformedVarInt),
        p + VARLONG_MAX_BYTES <= s.len() && (forall|j: int|
            p <= j < p + VARLONG_MAX_BYTES ==> s[j] >= 128) ==> varlong_at(s, p) == Err::<
            (i64, nat),
            DecodeError,
        >(DecodeError::MalformedVarInt),
{
    lemma_overlong_rejected(s, p, 5);
    if p + VARLONG_MAX_BYTES <= s.len() && (forall|j: int|
        p <= j < p + VARLONG_MAX_BYTES ==> s[j] >= 128) {
        lemma_overlong_rejected(s, p, 10);
    }
}

} // verus!
