//! Small value types and the text form of digests.
use vstd::prelude::*;
use vstd::utf8::{encode_utf8, partial_valid_utf8_extend_ascii_block, valid_utf8};
use crate::codec::utf8_string;
use crate::crypto::{sha1, sha1_of};
use vstd::string::{StringExecFns, StringSliceAdditionalSpecFns};

verus! {

/// A vector of three integer coordinates.
pub struct Vec3 {
    pub x: i32,
    pub y: i32,
    pub z: i32,
}

impl Vec3 {
    /// The vector `(x, y, z)`.
    pub fn new(x: i32, y: i32, z: i32) -> (r: Self)
        ensures
            r == (Vec3 { x, y, z }),
    {
        Self { x, y, z }
    }
}

/// A position with a viewing direction.
pub struct Location {
    pub x: i32,
    pub y: i32,
    pub z: i32,
    pub pitch: i8,
    pub yaw: i8,
}

impl Location {
    /// The origin, facing straight ahead.
    pub open spec fn spawn() -> Location {
        Location { x: 0, y: 0, z: 0, pitch: 0, yaw: 0 }
    }

    /// The location with the given coordinates and direction.
    pub fn new(x: i32, y: i32, z: i32, pitch: i8, yaw: i8) -> (r: Self)
        ensures
            r == (Location { x, y, z, pitch, yaw }),
    {
        Self { x, y, z, pitch, yaw }
    }
}

/// serde_json's object map, carried through unopened.
#[verifier::external_type_specification]
#[verifier::external_body]
#[verifier::reject_recursive_types(K)]
#[verifier::reject_recursive_types(V)]
pub struct ExJsonMap<K, V>(serde_json::Map<K, V>);

/// Styled chat text in its plain form: text, child texts, a colour name
/// and style flags.
pub struct ChatComponent {
    pub text: String,
    pub children: Vec<String>,
    pub color: String,
    pub bold: bool,
    pub underline: bool,
    pub italics: bool,
    pub obfuscated: bool,
}

impl ChatComponent {
    /// Plain text with colour `"none"`, no style and no children.
    pub fn new(text: String) -> (r: Self)
        ensures
            r.text == text,
            r.children@.len() == 0,
            r.color@ == "none"@,
            !r.bold && !r.underline && !r.italics && !r.obfuscated,
    {
        Self {
            text,
            children: Vec::new(),
            color: String::from_str("none"),
            bold: false,
            underline: false,
            italics: false,
            obfuscated: false,
        }
    }

    /// The JSON object form of a component; no component has one yet.
    pub fn build() -> (r: Option<serde_json::Map<String, bool>>)
        ensures
            r is None,
    {
        None
    }
}

/// The lowercase hexadecimal digit of `n`, below 16, as an ASCII byte.
pub open spec fn hex_digit(n: nat) -> u8 {
    if n < 10 {
        (48 + n) as u8
    } else {
        (87 + n) as u8
    }
}

/// Two lowercase hexadecimal digits for each byte, in order, as ASCII.
pub open spec fn hex_of(b: Seq<u8>) -> Seq<u8>
    decreases b.len(),
{
    if b.len() == 0 {
        Seq::empty()
    } else {
        hex_of(b.drop_last()) + seq![hex_digit(b.last() as nat / 16), hex_digit(b.last() as nat % 16)]
    }
}

/// `s` without its leading `'0'` characters.
pub open spec fn trim_zeros(s: Seq<u8>) -> Seq<u8>
    decreases s.len(),
{
    if s.len() > 0 && s[0] == 48 {
        trim_zeros(s.drop_first())
    } else {
        s
    }
}

/// Whether every byte of `b` after position `i` is zero: a carry reaches
/// position `i` when a big-endian number is negated.
pub open spec fn carry_into(b: Seq<u8>, i: int) -> bool {
    forall|j: int| i < j < b.len() ==> b[j] == 0
}

/// The two's complement negation of the big-endian number `b`, byte by
/// byte: each byte inverted, plus the carry that reaches it.
pub open spec fn negated(b: Seq<u8>) -> Seq<u8> {
    Seq::new(
        b.len(),
        |i: int| ((255 - b[i]) + (if carry_into(b, i) { 1int } else { 0int })) as nat % 256,
    ).map_values(|v: nat| v as u8)
}

/// The digest text of the hash `h` read as a signed big-endian number: its
/// magnitude in lowercase hexadecimal without leading zeros, after a `'-'`
/// when it is negative.
pub open spec fn digest_text(h: Seq<u8>) -> Seq<u8> {
    if h.len() > 0 && h[0] >= 128 {
        seq![45u8] + trim_zeros(hex_of(negated(h)))
    } else {
        trim_zeros(hex_of(h))
    }
}

/// Whether every byte of `b` is ASCII.
pub open spec fn all_ascii(b: Seq<u8>) -> bool {
    forall|i: int| 0 <= i < b.len() ==> #[trigger] b[i] < 128
}

proof fn lemma_ascii_valid(b: Seq<u8>)
    requires
        all_ascii(b),
    ensures
        valid_utf8(b),
{
    assert(b.subrange(0, 0) == Seq::<u8>::empty());
    reveal_with_fuel(valid_utf8, 1);
    assert forall|i: int| 0 <= 0 <= i < b.len() <= b.len() implies #[trigger] vstd::utf8::is_leading_byte_width_1(b[i]) by {
        assert(b[i] < 128);
    }
    partial_valid_utf8_extend_ascii_block(b, 0, b.len() as int);
    assert(b.subrange(0, b.len() as int) == b);
}

proof fn lemma_hex_ascii(b: Seq<u8>)
    ensures
        all_ascii(hex_of(b)),
        hex_of(b).len() == 2 * b.len(),
    decreases b.len(),
{
    if b.len() > 0 {
        lemma_hex_ascii(b.drop_last());
    }
}

proof fn lemma_trim_suffix(s: Seq<u8>)
    ensures
        exists|k: int| 0 <= k <= s.len() && trim_zeros(s) == s.subrange(k, s.len() as int),
    decreases s.len(),
{
    if s.len() > 0 && s[0] == 48 {
        lemma_trim_suffix(s.drop_first());
        let k = choose|k: int| 0 <= k <= s.drop_first().len() && trim_zeros(s.drop_first()) == s.drop_first().subrange(k, s.drop_first().len() as int);
        assert(s.drop_first().subrange(k, s.drop_first().len() as int) == s.subrange(k + 1, s.len() as int));
    } else {
        assert(s.subrange(0, s.len() as int) == s);
    }
}

/// The ASCII digits of `bytes`, two lowercase hexadecimal digits each.
fn hex_bytes(bytes: &Vec<u8>) -> (r: Vec<u8>)
    ensures
        r@ == hex_of(bytes@),
{
    let mut out: Vec<u8> = Vec::new();
    let mut i: usize = 0;
    while i < bytes.len()
        invariant
            i <= bytes@.len(),
            out@ == hex_of(bytes@.subrange(0, i as int)),
        decreases bytes@.len() - i,
    {
        let b = bytes[i];
        let hi: u8 = b / 16;
        let lo: u8 = b % 16;
        out.push(if hi < 10 { 48 + hi } else { 87 + hi });
        out.push(if lo < 10 { 48 + lo } else { 87 + lo });
        assert(bytes@.subrange(0, i + 1).drop_last() == bytes@.subrange(0, i as int));
        i = i + 1;
    }
    assert(bytes@.subrange(0, bytes@.len() as int) == bytes@);
    out
}

/// The bytes as lowercase hexadecimal text, two digits each.
pub fn to_hex_string(bytes: Vec<u8>) -> (r: String)
    ensures
        encode_utf8(r@) == hex_of(bytes@),
{
    let out = hex_bytes(&bytes);
    proof {
        lemma_hex_ascii(bytes@);
        lemma_ascii_valid(out@);
    }
    match utf8_string(out) {
        Some(s) => s,
        None => String::new(),
    }
}

/// Negates the big-endian number `bytes` in two's complement.
pub fn mc_twos_comp(bytes: &mut Vec<u8>)
    ensures
        final(bytes)@ == negated(old(bytes)@),
{
    let ghost b = bytes@;
    let mut carry = true;
    let mut i: usize = bytes.len();
    while i > 0
        invariant
            i <= b.len(),
            bytes@.len() == b.len(),
            carry == carry_into(b, i - 1),
            forall|j: int| 0 <= j < i ==> bytes@[j] == b[j],
            forall|j: int| i <= j < b.len() ==> bytes@[j] == negated(b)[j],
        decreases i,
    {
        i = i - 1;
        let inv: u8 = 255 - bytes[i];
        if carry {
            carry = inv == 255;
            bytes[i] = if inv == 255 { 0 } else { inv + 1 };
        } else {
            bytes[i] = inv;
        }
        assert(carry == carry_into(b, i - 1)) by {
            if carry_into(b, i as int) && b[i as int] == 0 {
                assert forall|j: int| i - 1 < j < b.len() implies b[j] == 0 by {
                    if j > i {
                    }
                }
            }
            if !carry_into(b, i as int) {
                let w = choose|j: int| i < j < b.len() && b[j] != 0;
                assert(i - 1 < w);
            }
        }
    }
    assert(bytes@ == negated(b));
}

/// The digest text of `hash` read as a signed big-endian number: its
/// magnitude in lowercase hexadecimal without leading zeros, after a `-`
/// when it is negative.
pub fn hex_digest_of(hash: Vec<u8>) -> (r: String)
    ensures
        encode_utf8(r@) == digest_text(hash@),
{
    let negative = hash.len() > 0 && hash[0] >= 128;
    let mut h = hash;
    if negative {
        mc_twos_comp(&mut h);
    }
    let hex = hex_bytes(&h);
    let mut start: usize = 0;
    assert(hex@.subrange(0, hex@.len() as int) == hex@);
    while start < hex.len() && hex[start] == 48
        invariant
            start <= hex@.len(),
            trim_zeros(hex@) == trim_zeros(hex@.subrange(start as int, hex@.len() as int)),
        decreases hex@.len() - start,
    {
        assert(hex@.subrange(start as int, hex@.len() as int).drop_first() == hex@.subrange(
            start + 1,
            hex@.len() as int,
        ));
        start = start + 1;
    }
    let mut out: Vec<u8> = Vec::new();
    if negative {
        out.push(45);
    }
    let mut tail = vstd::slice::slice_to_vec(&hex.as_slice()[start..hex.len()]);
    out.append(&mut tail);
    proof {
        let t = hex@.subrange(start as int, hex@.len() as int);
        assert(trim_zeros(t) == t);
        lemma_hex_ascii(h@);
        assert(all_ascii(t));
        lemma_ascii_valid(out@);
        assert(hash@.len() > 0 ==> hash@[0] == hash[0]);
    }
    match utf8_string(out) {
        Some(s) => s,
        None => String::new(),
    }
}

/// The session-service digest of `name`: the SHA-1 digest of its UTF-8
/// bytes, as `hex_digest_of` writes it.
pub fn mc_hex_digest(name: &str) -> (r: String)
    ensures
        encode_utf8(r@) == digest_text(sha1_of(name.spec_bytes())),
{
    let hash = sha1(name.as_bytes());
    hex_digest_of(hash)
}

} // verus!
