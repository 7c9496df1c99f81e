//! Cursor-based reading of packet fields and buffer-based writing of them.
use vstd::prelude::*;
use vstd::utf8::{encode_utf8, valid_utf8};
use crate::varint::{
    DecodeError, bits32, bits64, from_bits32, from_bits64, read_varint_at, read_varlong_at,
    varint_at, varint_bytes, varlong_at, varlong_bytes, write_varint, write_varlong,
};

verus! {

/// 256 to the power `k`.
pub open spec fn pow256(k: nat) -> nat
    decreases k,
{
    if k == 0 {
        1
    } else {
        256 * pow256((k - 1) as nat)
    }
}

/// The unsigned big-endian number that the bytes of `s` spell.
pub open spec fn be_nat(s: Seq<u8>) -> nat
    decreases s.len(),
{
    if s.len() == 0 {
        0
    } else {
        be_nat(s.drop_last()) * 256 + s.last() as nat
    }
}

/// The `n` low bytes of `v`, most significant first.
pub open spec fn be_bytes(v: nat, n: nat) -> Seq<u8> {
    Seq::new(n, |k: int| ((v / pow256((n - 1 - k) as nat)) % 256) as u8)
}

/// The bytes of a string on the wire: its UTF-8 length as a VarInt, then
/// its UTF-8 bytes.
pub open spec fn string_bytes(s: Seq<char>) -> Seq<u8> {
    varint_bytes(encode_utf8(s).len() as i32) + encode_utf8(s)
}

/// The signed byte whose bit pattern is `b`.
pub open spec fn from_bits8(b: u8) -> i8 {
    if b < 128 {
        b as i8
    } else {
        (b as int - 256) as i8
    }
}

proof fn lemma_pow256_facts(k: nat)
    requires
        k <= 8,
    ensures
        1 <= pow256(k) <= pow256(8),
        pow256(8) == 0x1_0000_0000_0000_0000,
        pow256(7) == 0x100_0000_0000_0000,
        pow256(4) == 0x1_0000_0000,
        pow256(2) == 0x1_0000,
    decreases k,
{
    reveal_with_fuel(pow256, 9);
    if k > 0 {
        lemma_pow256_facts((k - 1) as nat);
    }
}

proof fn lemma_pow256_pos(k: nat)
    ensures
        pow256(k) >= 1,
    decreases k,
{
    if k > 0 {
        lemma_pow256_pos((k - 1) as nat);
    }
}

/// The big-endian bytes of the number that `b` spells are `b` itself.
pub proof fn lemma_be_round_trip(b: Seq<u8>)
    ensures
        be_nat(b) < pow256(b.len()),
        be_bytes(be_nat(b), b.len()) == b,
    decreases b.len(),
{
    if b.len() > 0 {
        let n = b.len();
        let w = be_nat(b.drop_last());
        let l = b.last() as nat;
        let v = be_nat(b);
        lemma_be_round_trip(b.drop_last());
        assert(v == w * 256 + l);
        assert(v < pow256(n)) by (nonlinear_arith)
            requires
                v == w * 256 + l,
                w < pow256((n - 1) as nat),
                l < 256,
                pow256(n) == 256 * pow256((n - 1) as nat),
        ;
        assert(v / 256 == w && v % 256 == l) by (nonlinear_arith)
            requires
                v == w * 256 + l,
                l < 256,
        ;
        assert forall|k: int| 0 <= k < n implies #[trigger] be_bytes(v, n)[k] == b[k] by {
            if k < n - 1 {
                let m = (n - 2 - k) as nat;
                assert(pow256((n - 1 - k) as nat) == 256 * pow256(m));
                lemma_pow256_pos(m);
                vstd::arithmetic::div_mod::lemma_div_denominator(v as int, 256, pow256(m) as int);
                assert(v / pow256((n - 1 - k) as nat) == w / pow256(m));
                assert(be_bytes(w, (n - 1) as nat)[k] == ((w / pow256(m)) % 256) as u8);
                assert(be_bytes(w, (n - 1) as nat)[k] == b.drop_last()[k]);
                assert(be_bytes(v, n)[k] == ((v / pow256((n - 1 - k) as nat)) % 256) as u8);
            } else {
                assert(pow256(0) == 1);
                assert(v / 1 == v);
                assert(be_bytes(v, n)[k] == ((v / pow256(0)) % 256) as u8);
            }
        }
        assert(be_bytes(v, n) == b);
    }
}

/// Relies on String::from_utf8: it succeeds exactly on valid UTF-8, and the
/// string it returns then holds those bytes.
#[verifier::external_body]
pub(crate) fn utf8_string(b: Vec<u8>) -> (r: Option<String>)
    ensures
        r is Some <==> valid_utf8(b@),
        r matches Some(s) ==> encode_utf8(s@) == b@,
{
    String::from_utf8(b).ok()
}

/// A frame being read: its bytes, the length and packet id read from its
/// head, and a cursor into its payload.
pub struct PacketDecoder {
    pub buffer: Vec<u8>,
    pub packet_id: i32,
    pub length: i32,
    pub pos: usize,
}

/// What a reading method leaves unchanged, and where its cursor stands.
pub open spec fn advanced(old_d: PacketDecoder, new_d: PacketDecoder, n: int) -> bool {
    &&& new_d.buffer@ == old_d.buffer@
    &&& new_d.packet_id == old_d.packet_id
    &&& new_d.length == old_d.length
    &&& new_d.pos == old_d.pos + n
}

/// Whether `n` more bytes stand after the cursor.
pub open spec fn has_bytes(d: PacketDecoder, n: int) -> bool {
    d.pos + n <= d.buffer@.len()
}

/// The `n` bytes after the cursor.
pub open spec fn next_bytes(d: PacketDecoder, n: int) -> Seq<u8> {
    d.buffer@.subrange(d.pos as int, d.pos + n)
}

impl PacketDecoder {
    /// Reads `n` bytes as an unsigned big-endian number.
    fn read_be(&mut self, n: usize) -> (r: Result<u64, DecodeError>)
        requires
            n <= 8,
        ensures
            has_bytes(*old(self), n as int) ==> r == Ok::<u64, DecodeError>(
                be_nat(next_bytes(*old(self), n as int)) as u64,
            ) && be_nat(next_bytes(*old(self), n as int)) < pow256(n as nat) && advanced(
                *old(self),
                *final(self),
                n as int,
            ),
            !has_bytes(*old(self), n as int) ==> r == Err::<u64, DecodeError>(
                DecodeError::UnexpectedEnd,
            ) && advanced(*old(self), *final(self), 0),
    {
        if n > self.buffer.len() || self.pos > self.buffer.len() - n {
            return Err(DecodeError::UnexpectedEnd);
        }
        let ghost s = next_bytes(*self, n as int);
        let mut acc: u64 = 0;
        let mut k: usize = 0;
        while k < n
            invariant
                k <= n <= 8,
                self.pos + n <= self.buffer@.len() <= usize::MAX,
                s == next_bytes(*self, n as int),
                acc == be_nat(s.subrange(0, k as int)),
                acc < pow256(k as nat),
            decreases n - k,
        {
            proof {
                lemma_pow256_facts(k as nat);
                lemma_pow256_facts((k + 1) as nat);
                assert(s.subrange(0, k + 1).drop_last() == s.subrange(0, k as int));
                assert(acc * 256 + s[k as int] < pow256((k + 1) as nat)) by (nonlinear_arith)
                    requires
                        acc < pow256(k as nat),
                        pow256((k + 1) as nat) == 256 * pow256(k as nat),
                        s[k as int] < 256,
                ;
            }
            acc = acc * 256 + self.buffer[self.pos + k] as u64;
            k = k + 1;
        }
        assert(s.subrange(0, n as int) == s);
        self.pos = self.pos + n;
        Ok(acc)
    }

    /// Reads one unsigned byte.
    pub fn read_ubyte(&mut self) -> (r: Result<u8, DecodeError>)
        ensures
            has_bytes(*old(self), 1) ==> r == Ok::<u8, DecodeError>(
                old(self).buffer@[old(self).pos as int],
            ) && advanced(*old(self), *final(self), 1),
            !has_bytes(*old(self), 1) ==> r == Err::<u8, DecodeError>(DecodeError::UnexpectedEnd)
                && advanced(*old(self), *final(self), 0),
    {
        if self.pos >= self.buffer.len() {
            return Err(DecodeError::UnexpectedEnd);
        }
        let b = self.buffer[self.pos];
        self.pos = self.pos + 1;
        Ok(b)
    }

    /// Reads one signed byte.
    pub fn read_byte(&mut self) -> (r: Result<i8, DecodeError>)
        ensures
            has_bytes(*old(self), 1) ==> r == Ok::<i8, DecodeError>(
                from_bits8(old(self).buffer@[old(self).pos as int]),
            ) && advanced(*old(self), *final(self), 1),
            !has_bytes(*old(self), 1) ==> r == Err::<i8, DecodeError>(DecodeError::UnexpectedEnd)
                && advanced(*old(self), *final(self), 0),
    {
        match self.read_ubyte() {
            Ok(b) => {
                if b < 128 {
                    Ok(b as i8)
                } else {
                    Ok((b as i16 - 256) as i8)
                }
            },
            Err(e) => Err(e),
        }
    }

    /// Reads `n` raw bytes.
    pub fn read_bytes(&mut self, n: usize) -> (r: Result<Vec<u8>, DecodeError>)
        ensures
            has_bytes(*old(self), n as int) ==> (r matches Ok(v) && v@ == next_bytes(
                *old(self),
                n as int,
            )) && advanced(*old(self), *final(self), n as int),
            !has_bytes(*old(self), n as int) ==> r == Err::<Vec<u8>, DecodeError>(
                DecodeError::UnexpectedEnd,
            ) && advanced(*old(self), *final(self), 0),
    {
        if n > self.buffer.len() || self.pos > self.buffer.len() - n {
            return Err(DecodeError::UnexpectedEnd);
        }
        let out = vstd::slice::slice_to_vec(&self.buffer.as_slice()[self.pos..self.pos + n]);
        self.pos = self.pos + n;
        Ok(out)
    }

    /// Reads a big-endian signed 64-bit integer.
    pub fn read_long(&mut self) -> (r: Result<i64, DecodeError>)
        ensures
            has_bytes(*old(self), 8) ==> r == Ok::<i64, DecodeError>(
                from_bits64(be_nat(next_bytes(*old(self), 8))),
            ) && advanced(*old(self), *final(self), 8),
            !has_bytes(*old(self), 8) ==> r == Err::<i64, DecodeError>(DecodeError::UnexpectedEnd)
                && advanced(*old(self), *final(self), 0),
    {
        proof {
            lemma_pow256_facts(8);
        }
        match self.read_be(8) {
            Ok(v) => {
                if v < 0x8000_0000_0000_0000 {
                    Ok(v as i64)
                } else {
                    Ok(((v - 0x8000_0000_0000_0000) as i64) - i64::MAX - 1)
                }
            },
            Err(e) => Err(e),
        }
    }

    /// Reads a big-endian signed 32-bit integer.
    pub fn read_int(&mut self) -> (r: Result<i32, DecodeError>)
        ensures
            has_bytes(*old(self), 4) ==> r == Ok::<i32, DecodeError>(
                from_bits32(be_nat(next_bytes(*old(self), 4))),
            ) && advanced(*old(self), *final(self), 4),
            !has_bytes(*old(self), 4) ==> r == Err::<i32, DecodeError>(DecodeError::UnexpectedEnd)
                && advanced(*old(self), *final(self), 0),
    {
        proof {
            lemma_pow256_facts(4);
        }
        match self.read_be(4) {
            Ok(v) => {
                if v < 0x8000_0000 {
                    Ok(v as i32)
                } else {
                    Ok((v as i64 - 0x1_0000_0000) as i32)
                }
            },
            Err(e) => Err(e),
        }
    }

    /// Reads a big-endian unsigned 16-bit integer.
    pub fn read_ushort(&mut self) -> (r: Result<u16, DecodeError>)
        ensures
            has_bytes(*old(self), 2) ==> r == Ok::<u16, DecodeError>(
                be_nat(next_bytes(*old(self), 2)) as u16,
            ) && be_nat(next_bytes(*old(self), 2)) < 0x1_0000 && advanced(
                *old(self),
                *final(self),
                2,
            ),
            !has_bytes(*old(self), 2) ==> r == Err::<u16, DecodeError>(DecodeError::UnexpectedEnd)
                && advanced(*old(self), *final(self), 0),
    {
        proof {
            lemma_pow256_facts(2);
        }
        match self.read_be(2) {
            Ok(v) => Ok(v as u16),
            Err(e) => Err(e),
        }
    }

    /// Reads a boolean: true exactly when the byte is 1.
    pub fn read_bool(&mut self) -> (r: Result<bool, DecodeError>)
        ensures
            has_bytes(*old(self), 1) ==> r == Ok::<bool, DecodeError>(
                old(self).buffer@[old(self).pos as int] == 1,
            ) && advanced(*old(self), *final(self), 1),
            !has_bytes(*old(self), 1) ==> r == Err::<bool, DecodeError>(DecodeError::UnexpectedEnd)
                && advanced(*old(self), *final(self), 0),
    {
        match self.read_ubyte() {
            Ok(b) => Ok(b == 1),
            Err(e) => Err(e),
        }
    }

    /// Reads a VarInt at the cursor.
    pub fn read_varint(&mut self) -> (r: Result<i32, DecodeError>)
        ensures
            match varint_at(old(self).buffer@, old(self).pos as int) {
                Ok((x, n)) => r == Ok::<i32, DecodeError>(x) && advanced(
                    *old(self),
                    *final(self),
                    n as int,
                ),
                Err(e) => r == Err::<i32, DecodeError>(e) && advanced(*old(self), *final(self), 0),
            },
    {
        match read_varint_at(self.buffer.as_slice(), self.pos) {
            Ok((x, n)) => {
                self.pos = self.pos + n;
                Ok(x)
            },
            Err(e) => Err(e),
        }
    }

    /// Reads a VarLong at the cursor.
    pub fn read_varlong(&mut self) -> (r: Result<i64, DecodeError>)
        ensures
            match varlong_at(old(self).buffer@, old(self).pos as int) {
                Ok((x, n)) => r == Ok::<i64, DecodeError>(x) && advanced(
                    *old(self),
                    *final(self),
                    n as int,
                ),
                Err(e) => r == Err::<i64, DecodeError>(e) && advanced(*old(self), *final(self), 0),
            },
    {
        match read_varlong_at(self.buffer.as_slice(), self.pos) {
            Ok((x, n)) => {
                self.pos = self.pos + n;
                Ok(x)
            },
            Err(e) => Err(e),
        }
    }
}

/// The string at position `p` of `s`: its UTF-8 bytes and the number of
/// bytes it takes with its length prefix, or why it cannot be read.
pub open spec fn string_at(s: Seq<u8>, p: int) -> Result<(Seq<u8>, nat), DecodeError> {
    match varint_at(s, p) {
        Ok((len, n)) => {
            if len < 0 {
                Err(DecodeError::BadLength)
            } else if p + n + len > s.len() {
                Err(DecodeError::UnexpectedEnd)
            } else if !valid_utf8(s.subrange(p + n, p + n + len)) {
                Err(DecodeError::InvalidString)
            } else {
                Ok((s.subrange(p + n, p + n + len), (n + len) as nat))
            }
        },
        Err(e) => Err(e),
    }
}

impl PacketDecoder {
    /// Reads a string: a VarInt byte length, then that many UTF-8 bytes.
    pub fn read_string(&mut self) -> (r: Result<String, DecodeError>)
        ensures
            match string_at(old(self).buffer@, old(self).pos as int) {
                Ok((b, n)) => (r matches Ok(st) && encode_utf8(st@) == b) && advanced(
                    *old(self),
                    *final(self),
                    n as int,
                ),
                Err(e) => r == Err::<String, DecodeError>(e) && advanced(
                    *old(self),
                    *final(self),
                    0,
                ),
            },
    {
        let start = self.pos;
        let len = match self.read_varint() {
            Ok(len) => len,
            Err(e) => return Err(e),
        };
        if len < 0 {
            self.pos = start;
            return Err(DecodeError::BadLength);
        }
        let bytes = match self.read_bytes(len as usize) {
            Ok(b) => b,
            Err(e) => {
                self.pos = start;
                return Err(e);
            },
        };
        match utf8_string(bytes) {
            Some(st) => Ok(st),
            None => {
                self.pos = start;
                Err(DecodeError::InvalidString)
            },
        }
    }
}

/// The bit pattern of a signed byte.
pub open spec fn bits8(x: i8) -> u8 {
    if x >= 0 {
        x as u8
    } else {
        (x + 256) as u8
    }
}

/// The bit pattern of a signed 16-bit integer.
pub open spec fn bits16(x: i16) -> nat {
    if x >= 0 {
        x as nat
    } else {
        (x + 0x1_0000) as nat
    }
}

/// The payload of an outgoing packet, with its packet id.
pub struct PacketEncoder {
    pub buffer: Vec<u8>,
    pub packet_id: u8,
}

impl PacketEncoder {
    /// An encoder for packet `packet_id` with an empty payload.
    pub fn new(packet_id: u8) -> (r: PacketEncoder)
        ensures
            r.buffer@ == Seq::<u8>::empty(),
            r.packet_id == packet_id,
    {
        PacketEncoder { buffer: Vec::new(), packet_id }
    }

    /// Appends the `n` low bytes of `v`, most significant first.
    fn write_be(&mut self, v: u64, n: usize)
        requires
            1 <= n <= 8,
        ensures
            final(self).buffer@ == old(self).buffer@ + be_bytes(v as nat, n as nat),
            final(self).packet_id == old(self).packet_id,
    {
        proof {
            lemma_pow256_facts((n - 1) as nat);
            lemma_pow256_facts(7);
        }
        let mut d: u64 = if n == 8 {
            0x100_0000_0000_0000
        } else {
            let mut x: u64 = 1;
            let mut j: usize = 1;
            while j < n
                invariant
                    1 <= j <= n < 8,
                    x == pow256((j - 1) as nat),
                decreases n - j,
            {
                proof {
                    lemma_pow256_facts(j as nat);
                    lemma_pow256_facts(7);
                    assert(pow256(j as nat) == 256 * pow256((j - 1) as nat));
                }
                x = x * 256;
                j = j + 1;
            }
            x
        };
        let ghost want = be_bytes(v as nat, n as nat);
        let mut k: usize = 0;
        while k < n
            invariant
                k <= n <= 8,
                want == be_bytes(v as nat, n as nat),
                k < n ==> d == pow256((n - 1 - k) as nat),
                self.buffer@ == old(self).buffer@ + want.subrange(0, k as int),
                self.packet_id == old(self).packet_id,
            decreases n - k,
        {
            proof {
                lemma_pow256_facts((n - 1 - k) as nat);
            }
            let byte: u8 = ((v / d) % 256) as u8;
            assert(want.subrange(0, k + 1) == want.subrange(0, k as int).push(byte));
            self.buffer.push(byte);
            if k + 1 < n {
                proof {
                    assert(d / 256 == pow256((n - 1 - (k + 1)) as nat)) by (nonlinear_arith)
                        requires
                            d == 256 * pow256((n - 1 - (k + 1)) as nat),
                    ;
                }
                d = d / 256;
            }
            k = k + 1;
        }
        assert(want.subrange(0, n as int) == want);
    }

    /// Appends one unsigned byte.
    pub fn write_ubyte(&mut self, byte: u8)
        ensures
            final(self).buffer@ == old(self).buffer@.push(byte),
            final(self).packet_id == old(self).packet_id,
    {
        self.buffer.push(byte);
    }

    /// Appends one signed byte.
    pub fn write_byte(&mut self, byte: i8)
        ensures
            final(self).buffer@ == old(self).buffer@.push(bits8(byte)),
            final(self).packet_id == old(self).packet_id,
    {
        let b: u8 = if byte >= 0 {
            byte as u8
        } else {
            (byte as i16 + 256) as u8
        };
        self.buffer.push(b);
    }

    /// Moves all of `bytes` onto the end of the payload.
    pub fn write_bytes(&mut self, bytes: &mut Vec<u8>)
        ensures
            final(self).buffer@ == old(self).buffer@ + old(bytes)@,
            final(bytes)@ == Seq::<u8>::empty(),
            final(self).packet_id == old(self).packet_id,
    {
        self.buffer.append(bytes);
    }

    /// Appends a big-endian signed 64-bit integer.
    pub fn write_long(&mut self, long: i64)
        ensures
            final(self).buffer@ == old(self).buffer@ + be_bytes(bits64(long), 8),
            final(self).packet_id == old(self).packet_id,
    {
        let u: u64 = if long >= 0 {
            long as u64
        } else {
            ((long + 1 + i64::MAX) as u64) + 0x8000_0000_0000_0000
        };
        self.write_be(u, 8);
    }

    /// Appends a big-endian signed 32-bit integer.
    pub fn write_int(&mut self, value: i32)
        ensures
            final(self).buffer@ == old(self).buffer@ + be_bytes(bits32(value), 4),
            final(self).packet_id == old(self).packet_id,
    {
        let u: u64 = if value >= 0 {
            value as u64
        } else {
            (value as i64 + 0x1_0000_0000) as u64
        };
        self.write_be(u, 4);
    }

    /// Appends a boolean as the byte 1 or 0.
    pub fn write_bool(&mut self, b: bool)
        ensures
            final(self).buffer@ == old(self).buffer@.push(if b { 1u8 } else { 0u8 }),
            final(self).packet_id == old(self).packet_id,
    {
        if b {
            self.write_byte(1);
        } else {
            self.write_byte(0);
        }
    }

    /// Appends a big-endian signed 16-bit integer.
    pub fn write_short(&mut self, short: i16)
        ensures
            final(self).buffer@ == old(self).buffer@ + be_bytes(bits16(short), 2),
            final(self).packet_id == old(self).packet_id,
    {
        let u: u64 = if short >= 0 {
            short as u64
        } else {
            (short as i64 + 0x1_0000) as u64
        };
        self.write_be(u, 2);
    }

    /// Appends a big-endian unsigned 16-bit integer.
    pub fn write_ushort(&mut self, ushort: u16)
        ensures
            final(self).buffer@ == old(self).buffer@ + be_bytes(ushort as nat, 2),
            final(self).packet_id == old(self).packet_id,
    {
        self.write_be(ushort as u64, 2);
    }

    /// Appends a VarInt.
    pub fn write_varint(&mut self, value: i32)
        ensures
            final(self).buffer@ == old(self).buffer@ + varint_bytes(value),
            final(self).packet_id == old(self).packet_id,
    {
        write_varint(&mut self.buffer, value);
    }

    /// Appends a VarLong.
    pub fn write_varlong(&mut self, value: i64)
        ensures
            final(self).buffer@ == old(self).buffer@ + varlong_bytes(value),
            final(self).packet_id == old(self).packet_id,
    {
        write_varlong(&mut self.buffer, value);
    }

    /// Appends a string: its UTF-8 byte length as a VarInt, then the bytes.
    pub fn write_string(&mut self, string: String)
        requires
            encode_utf8(string@).len() <= i32::MAX,
        ensures
            final(self).buffer@ == old(self).buffer@ + string_bytes(string@),
            final(self).packet_id == old(self).packet_id,
    {
        let bytes: &[u8] = string.as_str().as_bytes();
        let len: usize = bytes.len();
        self.write_varint(len as i32);
        let mut copy = vstd::slice::slice_to_vec(bytes);
        self.write_bytes(&mut copy);
    }
}

} // verus!
