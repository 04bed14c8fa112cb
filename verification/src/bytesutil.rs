//! Small byte-level helpers shared by the codecs: fixed-width integer
//! encodings (big-endian in packet headers, little-endian in token payloads),
//! byte-sequence equality, and decimal rendering/parsing of unsigned values.

use vstd::prelude::*;

verus! {

// ---------------------------------------------------------------------------
// 16-bit big endian (packet header fields)
// ---------------------------------------------------------------------------

/// The two big-endian bytes of `x`.
pub open spec fn spec_u16_be(x: u16) -> Seq<u8> {
    seq![(x / 256) as u8, (x % 256) as u8]
}

/// The value read from two big-endian bytes.
pub open spec fn spec_u16_from_be(hi: u8, lo: u8) -> u16 {
    (hi * 256 + lo) as u16
}

pub proof fn lemma_u16_be_roundtrip(x: u16)
    ensures
        spec_u16_from_be(spec_u16_be(x)[0], spec_u16_be(x)[1]) == x,
{
}

/// Appends the big-endian encoding of `x` to `out`.
pub fn push_u16_be(out: &mut Vec<u8>, x: u16)
    ensures
        final(out)@ == old(out)@ + spec_u16_be(x),
{
    out.push((x / 256) as u8);
    out.push((x % 256) as u8);
    assert(out@ =~= old(out)@ + spec_u16_be(x));
}

/// Reads a big-endian 16-bit value at `pos`.
pub fn read_u16_be(bytes: &Vec<u8>, pos: usize) -> (r: u16)
    requires
        pos + 2 <= bytes@.len(),
    ensures
        r == spec_u16_from_be(bytes@[pos as int], bytes@[pos + 1]),
{
    let n = bytes.len();
    let hi = bytes[pos];
    let lo = bytes[pos + 1];
    (hi as u16) * 256 + (lo as u16)
}

// ---------------------------------------------------------------------------
// 16-bit little endian (token payload fields)
// ---------------------------------------------------------------------------

/// The two little-endian bytes of `x`.
pub open spec fn spec_u16_le(x: u16) -> Seq<u8> {
    seq![(x % 256) as u8, (x / 256) as u8]
}

/// The value read from two little-endian bytes.
pub open spec fn spec_u16_from_le(lo: u8, hi: u8) -> u16 {
    (lo + hi * 256) as u16
}

pub proof fn lemma_u16_le_roundtrip(x: u16)
    ensures
        spec_u16_from_le(spec_u16_le(x)[0], spec_u16_le(x)[1]) == x,
{
}

/// Appends the little-endian encoding of `x` to `out`.
pub fn push_u16_le(out: &mut Vec<u8>, x: u16)
    ensures
        final(out)@ == old(out)@ + spec_u16_le(x),
{
    out.push((x % 256) as u8);
    out.push((x / 256) as u8);
    assert(out@ =~= old(out)@ + spec_u16_le(x));
}

/// Reads a little-endian 16-bit value at `pos`.
pub fn read_u16_le(bytes: &Vec<u8>, pos: usize) -> (r: u16)
    requires
        pos + 2 <= bytes@.len(),
    ensures
        r == spec_u16_from_le(bytes@[pos as int], bytes@[pos + 1]),
{
    let n = bytes.len();
    let lo = bytes[pos];
    let hi = bytes[pos + 1];
    (lo as u16) + (hi as u16) * 256
}

// ---------------------------------------------------------------------------
// 32-bit little endian (token payload fields)
// ---------------------------------------------------------------------------

/// The four little-endian bytes of `x`.
pub open spec fn spec_u32_le(x: u32) -> Seq<u8> {
    seq![
        (x % 256) as u8,
        ((x / 256) % 256) as u8,
        ((x / 0x10000) % 256) as u8,
        ((x / 0x1000000) % 256) as u8,
    ]
}

/// The value read from four little-endian bytes.
pub open spec fn spec_u32_from_le(b0: u8, b1: u8, b2: u8, b3: u8) -> u32 {
    (b0 + b1 * 256 + b2 * 0x10000 + b3 * 0x1000000) as u32
}

pub proof fn lemma_u32_le_roundtrip(x: u32)
    ensures
        spec_u32_from_le(
            spec_u32_le(x)[0],
            spec_u32_le(x)[1],
            spec_u32_le(x)[2],
            spec_u32_le(x)[3],
        ) == x,
{
    assert(x % 256 + ((x / 256) % 256) * 256 + ((x / 0x10000) % 256) * 0x10000 + ((x
        / 0x1000000) % 256) * 0x1000000 == x) by (nonlinear_arith);
}

/// Appends the little-endian encoding of `x` to `out`.
pub fn push_u32_le(out: &mut Vec<u8>, x: u32)
    ensures
        final(out)@ == old(out)@ + spec_u32_le(x),
{
    out.push((x % 256) as u8);
    out.push(((x / 256) % 256) as u8);
    out.push(((x / 0x10000) % 256) as u8);
    out.push(((x / 0x1000000) % 256) as u8);
    assert(out@ =~= old(out)@ + spec_u32_le(x));
}

/// Reads a little-endian 32-bit value at `pos`.
pub fn read_u32_le(bytes: &Vec<u8>, pos: usize) -> (r: u32)
    requires
        pos + 4 <= bytes@.len(),
    ensures
        r == spec_u32_from_le(
            bytes@[pos as int],
            bytes@[pos + 1],
            bytes@[pos + 2],
            bytes@[pos + 3],
        ),
{
    let n = bytes.len();
    let b0 = bytes[pos];
    let b1 = bytes[pos + 1];
    let b2 = bytes[pos + 2];
    let b3 = bytes[pos + 3];
    (b0 as u32) + (b1 as u32) * 256 + (b2 as u32) * 0x10000 + (b3 as u32) * 0x1000000
}

// ---------------------------------------------------------------------------
// 32-bit signed values, carried in two's complement
// ---------------------------------------------------------------------------

/// The unsigned 32-bit value that carries `x` in two's complement.
pub open spec fn spec_i32_as_u32(x: i32) -> u32 {
    if x >= 0 {
        x as u32
    } else {
        (x + 0x1_0000_0000) as u32
    }
}

/// The signed value carried by `x` in two's complement.
pub open spec fn spec_u32_as_i32(x: u32) -> i32 {
    if x < 0x8000_0000 {
        x as i32
    } else {
        (x - 0x1_0000_0000) as i32
    }
}

pub proof fn lemma_i32_u32_roundtrip(x: i32)
    ensures
        spec_u32_as_i32(spec_i32_as_u32(x)) == x,
{
}

/// Converts a signed value to its two's-complement carrier.
pub fn i32_as_u32(x: i32) -> (r: u32)
    ensures
        r == spec_i32_as_u32(x),
{
    if x >= 0 {
        x as u32
    } else {
        let wide: i64 = x as i64 + 0x1_0000_0000i64;
        wide as u32
    }
}

/// Reads the signed value out of its two's-complement carrier.
pub fn u32_as_i32(x: u32) -> (r: i32)
    ensures
        r == spec_u32_as_i32(x),
{
    if x < 0x8000_0000 {
        x as i32
    } else {
        let wide: i64 = x as i64 - 0x1_0000_0000i64;
        wide as i32
    }
}

// ---------------------------------------------------------------------------
// byte-sequence equality and copying
// ---------------------------------------------------------------------------

/// Compares two byte slices for equality of contents.
pub fn bytes_eq(a: &[u8], b: &[u8]) -> (r: bool)
    ensures
        r <==> a@ == b@,
{
    if a.len() != b.len() {
        assert(a@.len() != b@.len());
        return false;
    }
    let n = a.len();
    let mut i: usize = 0;
    while i < n
        invariant
            n == a@.len(),
            a@.len() == b@.len(),
            i <= n,
            forall|j: int| 0 <= j < i ==> a@[j] == b@[j],
        decreases n - i,
    {
        if a[i] != b[i] {
            return false;
        }
        i = i + 1;
    }
    assert(a@ =~= b@);
    true
}

/// Appends all of `src` to `out`.
pub fn push_bytes(out: &mut Vec<u8>, src: &[u8])
    ensures
        final(out)@ == old(out)@ + src@,
{
    let n = src.len();
    let mut i: usize = 0;
    while i < n
        invariant
            n == src@.len(),
            i <= n,
            out@ == old(out)@ + src@.take(i as int),
        decreases n - i,
    {
        out.push(src[i]);
        i = i + 1;
        assert(out@ =~= old(out)@ + src@.take(i as int));
    }
    assert(out@ =~= old(out)@ + src@);
}

/// Copies `n` bytes of `src` starting at `pos` into a fresh vector.
pub fn copy_range(src: &Vec<u8>, pos: usize, n: usize) -> (r: Vec<u8>)
    requires
        pos + n <= src@.len(),
    ensures
        r@ == src@.subrange(pos as int, pos + n),
{
    let srclen = src.len();
    let mut out: Vec<u8> = Vec::new();
    let mut i: usize = 0;
    while i < n
        invariant
            pos + n <= src@.len(),
            srclen == src@.len(),
            i <= n,
            out@ == src@.subrange(pos as int, pos + i),
        decreases n - i,
    {
        out.push(src[pos + i]);
        i = i + 1;
        assert(out@ =~= src@.subrange(pos as int, pos + i));
    }
    out
}

// ---------------------------------------------------------------------------
// decimal rendering and parsing of unsigned values
// ---------------------------------------------------------------------------

/// The ASCII decimal digits of `n`, most significant first.
pub open spec fn spec_decimal(n: nat) -> Seq<u8>
    decreases n,
{
    if n < 10 {
        seq![(48 + n) as u8]
    } else {
        spec_decimal(n / 10) + seq![(48 + n % 10) as u8]
    }
}

/// Renders `n` as ASCII decimal digits, most significant first.
pub fn format_decimal(n: u32) -> (r: Vec<u8>)
    ensures
        r@ == spec_decimal(n as nat),
    decreases n,
{
    if n < 10 {
        let mut out: Vec<u8> = Vec::new();
        out.push(48 + n as u8);
        assert(out@ =~= spec_decimal(n as nat));
        out
    } else {
        let mut out = format_decimal(n / 10);
        out.push(48 + (n % 10) as u8);
        assert(out@ =~= spec_decimal(n as nat));
        out
    }
}

/// Ten to the `k`-th power.
pub open spec fn spec_pow10(k: nat) -> nat
    decreases k,
{
    if k == 0 {
        1
    } else {
        10 * spec_pow10((k - 1) as nat)
    }
}

/// A value below the `k`-th power of ten renders as at most `k` digits.
pub proof fn lemma_decimal_len(n: nat, k: nat)
    requires
        k >= 1,
        n < spec_pow10(k),
    ensures
        spec_decimal(n).len() <= k,
    decreases k,
{
    if n < 10 {
    } else {
        assert(spec_pow10(k) == 10 * spec_pow10((k - 1) as nat));
        if k == 1 {
            assert(spec_pow10(1nat) == 10);
        }
        assert(n / 10 < spec_pow10((k - 1) as nat)) by (nonlinear_arith)
            requires
                n < 10 * spec_pow10((k - 1) as nat),
                n >= 10,
        ;
        lemma_decimal_len(n / 10, (k - 1) as nat);
    }
}

/// The numeric value of an ASCII digit sequence, or nothing if some byte is
/// not a digit or the sequence is empty.
pub open spec fn spec_parse_decimal(s: Seq<u8>) -> Option<nat>
    decreases s.len(),
{
    if s.len() == 0 {
        None
    } else if !(48 <= s.last() <= 57) {
        None
    } else if s.len() == 1 {
        Some((s.last() - 48) as nat)
    } else {
        match spec_parse_decimal(s.drop_last()) {
            None => None,
            Some(high) => Some(high * 10 + (s.last() - 48) as nat),
        }
    }
}

/// Parses an ASCII decimal digit sequence as a 16-bit value.
/// Returns nothing when the sequence is empty, holds a non-digit, or its
/// value exceeds `u16::MAX`.
pub fn parse_decimal_u16(s: &Vec<u8>) -> (r: Option<u16>)
    ensures
        match r {
            Some(v) => spec_parse_decimal(s@) == Some(v as nat),
            None => spec_parse_decimal(s@) is None || spec_parse_decimal(s@).unwrap()
                > u16::MAX,
        },
{
    if s.len() == 0 {
        return None;
    }
    let n = s.len();
    let mut acc: u32 = 0;
    let mut i: usize = 0;
    while i < n
        invariant
            n == s@.len(),
            0 < n,
            i <= n,
            acc <= u16::MAX,
            i > 0 ==> spec_parse_decimal(s@.take(i as int)) == Some(acc as nat),
            i == 0 ==> acc == 0,
        decreases n - i,
    {
        let b = s[i];
        if b < 48 || b > 57 {
            proof {
                lemma_parse_decimal_prefix_none(s@, i as int);
            }
            return None;
        }
        let next: u32 = acc * 10 + (b - 48) as u32;
        proof {
            assert(s@.take(i + 1).drop_last() =~= s@.take(i as int));
            assert(s@.take(i + 1).last() == s@[i as int]);
        }
        if next > u16::MAX as u32 {
            proof {
                lemma_parse_decimal_grows(s@, i + 1);
            }
            return None;
        }
        acc = next;
        i = i + 1;
    }
    assert(s@.take(n as int) =~= s@);
    Some(acc as u16)
}

/// Once some prefix of `s` fails to parse, the whole of `s` fails: a
/// non-digit anywhere poisons the sequence.
proof fn lemma_parse_decimal_prefix_none(s: Seq<u8>, i: int)
    requires
        0 <= i < s.len(),
        !(48 <= s[i] <= 57),
    ensures
        spec_parse_decimal(s) is None,
    decreases s.len(),
{
    if s.len() > 0 {
        if i == s.len() - 1 {
        } else {
            lemma_parse_decimal_prefix_none(s.drop_last(), i);
        }
    }
}

/// The value of a digit sequence only grows as digits are appended.
proof fn lemma_parse_decimal_grows(s: Seq<u8>, i: int)
    requires
        0 < i <= s.len(),
        spec_parse_decimal(s.take(i)) is Some,
    ensures
        spec_parse_decimal(s) is None || spec_parse_decimal(s).unwrap()
            >= spec_parse_decimal(s.take(i)).unwrap(),
    decreases s.len() - i,
{
    if i == s.len() {
        assert(s.take(i) =~= s);
    } else {
        let t = s.take(i + 1);
        assert(t.drop_last() =~= s.take(i));
        if 48 <= s[i] <= 57 {
            assert(spec_parse_decimal(t) is Some);
            assert(spec_parse_decimal(t).unwrap() >= spec_parse_decimal(s.take(i)).unwrap())
                by (nonlinear_arith)
                requires
                    spec_parse_decimal(t) == Some(
                        (spec_parse_decimal(s.take(i)).unwrap() * 10 + (t.last() - 48)) as nat,
                    ),
                    spec_parse_decimal(s.take(i)) is Some,
            ;
            lemma_parse_decimal_grows(s, i + 1);
        } else {
            lemma_parse_decimal_none_extends(s, i + 1);
        }
    }
}

/// A sequence whose prefix fails to parse fails as a whole.
proof fn lemma_parse_decimal_none_extends(s: Seq<u8>, i: int)
    requires
        0 < i <= s.len(),
        spec_parse_decimal(s.take(i)) is None,
    ensures
        spec_parse_decimal(s) is None,
    decreases s.len() - i,
{
    if i == s.len() {
        assert(s.take(i) =~= s);
    } else {
        let t = s.take(i + 1);
        assert(t.drop_last() =~= s.take(i));
        assert(spec_parse_decimal(t) is None);
        lemma_parse_decimal_none_extends(s, i + 1);
    }
}

/// Rendering then parsing a value gives the value back.
pub proof fn lemma_decimal_roundtrip(n: nat)
    ensures
        spec_parse_decimal(spec_decimal(n)) == Some(n),
    decreases n,
{
    if n < 10 {
    } else {
        lemma_decimal_roundtrip(n / 10);
        let s = spec_decimal(n);
        assert(s.drop_last() =~= spec_decimal(n / 10));
        assert(n / 10 * 10 + n % 10 == n) by (nonlinear_arith);
    }
}

// ---------------------------------------------------------------------------
// ASCII lower-casing (for case-insensitive configuration keys)
// ---------------------------------------------------------------------------

/// `b` lower-cased if it is an ASCII capital letter, else `b` itself.
pub open spec fn spec_ascii_lower(b: u8) -> u8 {
    if 65 <= b <= 90 {
        (b + 32) as u8
    } else {
        b
    }
}

/// Lower-cases the ASCII capital letters of `s`.
pub fn ascii_lower(s: &Vec<u8>) -> (r: Vec<u8>)
    ensures
        r@ == s@.map_values(|b: u8| spec_ascii_lower(b)),
{
    let n = s.len();
    let mut out: Vec<u8> = Vec::new();
    let mut i: usize = 0;
    while i < n
        invariant
            n == s@.len(),
            i <= n,
            out@ == s@.take(i as int).map_values(|b: u8| spec_ascii_lower(b)),
        decreases n - i,
    {
        let b = s[i];
        if 65 <= b && b <= 90 {
            out.push(b + 32);
        } else {
            out.push(b);
        }
        i = i + 1;
        assert(out@ =~= s@.take(i as int).map_values(|b: u8| spec_ascii_lower(b)));
    }
    assert(s@.take(n as int) =~= s@);
    out
}

} // verus!
