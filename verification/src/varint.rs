//! The variable-width integer codec: a single leading tag byte identifies
//! either a literal small value or one of four fixed-width tiers (16, 32, 64
//! or 128 bits) that follow as payload in the configured endianness.
//!
//! The wire-format constants: unsigned values up to [`SINGLE_BYTE_MAX`] are
//! stored inline in the tag byte itself; signed values in
//! [`SIGNED_SINGLE_BYTE_MIN`]`..=`[`SIGNED_SINGLE_BYTE_MAX`] are stored
//! inline zigzagged. Larger values are stored at the smallest tier that
//! contains them, tagged [`TAG_U16`] through [`TAG_U128`].

use vstd::prelude::*;

use crate::config::Endianness;
use crate::error::DecodeError;

verus! {

/// Largest unsigned value stored inline in the tag byte.
pub const SINGLE_BYTE_MAX: u8 = 250;

/// Tag announcing a 16-bit payload.
pub const TAG_U16: u8 = 251;

/// Tag announcing a 32-bit payload.
pub const TAG_U32: u8 = 252;

/// Tag announcing a 64-bit payload.
pub const TAG_U64: u8 = 253;

/// Tag announcing a 128-bit payload.
pub const TAG_U128: u8 = 254;

/// Largest signed value stored inline in the tag byte.
pub const SIGNED_SINGLE_BYTE_MAX: i8 = 125;

/// Smallest signed value stored inline in the tag byte.
pub const SIGNED_SINGLE_BYTE_MIN: i8 = -125;

/// 256 to the power `n`: the number of byte strings of length `n`.
pub open spec fn pow256(n: nat) -> int
    decreases n,
{
    if n == 0 {
        1
    } else {
        256 * pow256((n - 1) as nat)
    }
}

/// The `n` little-endian bytes of the non-negative integer `v`.
pub open spec fn le_bytes(v: int, n: nat) -> Seq<u8>
    decreases n,
{
    if n == 0 {
        Seq::empty()
    } else {
        seq![(v % 256) as u8] + le_bytes(v / 256, (n - 1) as nat)
    }
}

/// The integer whose little-endian bytes are `s`.
pub open spec fn le_value(s: Seq<u8>) -> int
    decreases s.len(),
{
    if s.len() == 0 {
        0
    } else {
        s[0] + 256 * le_value(s.drop_first())
    }
}

/// The `n`-byte payload of `v` in endianness `e`.
pub open spec fn payload_bytes(v: int, n: nat, e: Endianness) -> Seq<u8> {
    match e {
        Endianness::Little => le_bytes(v, n),
        Endianness::Big => le_bytes(v, n).reverse(),
    }
}

/// The integer whose payload bytes in endianness `e` are `s`.
pub open spec fn payload_value(s: Seq<u8>, e: Endianness) -> int {
    match e {
        Endianness::Little => le_value(s),
        Endianness::Big => le_value(s.reverse()),
    }
}

pub proof fn lemma_pow256_positive(n: nat)
    ensures
        pow256(n) >= 1,
    decreases n,
{
    if n > 0 {
        lemma_pow256_positive((n - 1) as nat);
    }
}

pub proof fn lemma_pow256_increases(m: nat, n: nat)
    requires
        m <= n,
    ensures
        pow256(m) <= pow256(n),
    decreases n,
{
    if m < n {
        lemma_pow256_increases(m, (n - 1) as nat);
        lemma_pow256_positive((n - 1) as nat);
    }
}

/// 256^16 is one more than the largest `u128`.
pub proof fn lemma_pow256_128_bits()
    ensures
        pow256(2) == 0x1_0000,
        pow256(4) == 0x1_0000_0000,
        pow256(8) == 0x1_0000_0000_0000_0000,
        pow256(16) == 0x1_0000_0000_0000_0000_0000_0000_0000_0000,
{
    assert(pow256(0) == 1);
    assert(pow256(1) == 0x100);
    assert(pow256(2) == 0x1_0000);
    assert(pow256(3) == 0x100_0000);
    assert(pow256(4) == 0x1_0000_0000);
    assert(pow256(5) == 0x100_0000_0000);
    assert(pow256(6) == 0x1_0000_0000_0000);
    assert(pow256(7) == 0x100_0000_0000_0000);
    assert(pow256(8) == 0x1_0000_0000_0000_0000);
    assert(pow256(9) == 0x100_0000_0000_0000_0000);
    assert(pow256(10) == 0x1_0000_0000_0000_0000_0000);
    assert(pow256(11) == 0x100_0000_0000_0000_0000_0000);
    assert(pow256(12) == 0x1_0000_0000_0000_0000_0000_0000);
    assert(pow256(13) == 0x100_0000_0000_0000_0000_0000_0000);
    assert(pow256(14) == 0x1_0000_0000_0000_0000_0000_0000_0000);
    assert(pow256(15) == 0x100_0000_0000_0000_0000_0000_0000_0000);
    assert(pow256(16) == 0x1_0000_0000_0000_0000_0000_0000_0000_0000);
}

pub proof fn lemma_le_bytes_len(v: int, n: nat)
    ensures
        le_bytes(v, n).len() == n,
    decreases n,
{
    if n > 0 {
        lemma_le_bytes_len(v / 256, (n - 1) as nat);
    }
}

/// Writing then reading `n` little-endian bytes gives the value back.
pub proof fn lemma_le_bytes_value(v: int, n: nat)
    requires
        0 <= v < pow256(n),
    ensures
        le_value(le_bytes(v, n)) == v,
    decreases n,
{
    if n > 0 {
        assert(v / 256 < pow256((n - 1) as nat)) by {
            assert(pow256(n) == 256 * pow256((n - 1) as nat));
        };
        lemma_le_bytes_value(v / 256, (n - 1) as nat);
        lemma_le_bytes_len(v / 256, (n - 1) as nat);
        let s = le_bytes(v, n);
        assert(s.drop_first() =~= le_bytes(v / 256, (n - 1) as nat));
        assert(le_value(s) == (v % 256) + 256 * (v / 256));
    }
}

/// Every byte string of length `n` reads back as a value below 256^n.
pub proof fn lemma_le_value_bound(s: Seq<u8>)
    ensures
        0 <= le_value(s) < pow256(s.len()),
    decreases s.len(),
{
    if s.len() > 0 {
        lemma_le_value_bound(s.drop_first());
    }
}

/// Payload round trip: writing then reading a payload gives the value back.
pub proof fn lemma_payload_round_trip(v: int, n: nat, e: Endianness)
    requires
        0 <= v < pow256(n),
    ensures
        payload_bytes(v, n, e).len() == n,
        payload_value(payload_bytes(v, n, e), e) == v,
{
    lemma_le_bytes_len(v, n);
    lemma_le_bytes_value(v, n);
    if e == Endianness::Big {
        assert(le_bytes(v, n).reverse().reverse() =~= le_bytes(v, n));
    }
}

/// The two's-complement reading of `v` as an `8n`-bit unsigned integer.
pub open spec fn to_twos_complement(v: int, n: nat) -> int {
    if v >= 0 {
        v
    } else {
        v + pow256(n)
    }
}

/// The signed integer whose `8n`-bit two's-complement reading is `u`.
pub open spec fn from_twos_complement(u: int, n: nat) -> int {
    if 2 * u < pow256(n) {
        u
    } else {
        u - pow256(n)
    }
}

pub proof fn lemma_twos_complement_round_trip(v: int, n: nat)
    requires
        -pow256(n) <= 2 * v < pow256(n),
    ensures
        0 <= to_twos_complement(v, n) < pow256(n),
        from_twos_complement(to_twos_complement(v, n), n) == v,
{
}

/// The zigzag reading of a signed inline value: small magnitudes map to
/// small tag bytes, alternating by sign.
pub open spec fn zigzag(v: int) -> int {
    if v >= 0 {
        2 * v
    } else {
        -2 * v - 1
    }
}

/// The signed value whose zigzag reading is `t`.
pub open spec fn unzigzag(t: int) -> int {
    if t % 2 == 0 {
        t / 2
    } else {
        -((t + 1) / 2)
    }
}

pub proof fn lemma_zigzag_round_trip(v: int)
    ensures
        v >= 0 ==> zigzag(v) == 2 * v,
        v < 0 ==> zigzag(v) == -2 * v - 1,
        unzigzag(zigzag(v)) == v,
{
}

/// The encoding of an unsigned integer under the tiered varint scheme:
/// inline in the tag byte when it fits, else the smallest tier that holds it.
pub open spec fn varint_unsigned_bytes(v: u128, e: Endianness) -> Seq<u8> {
    if v <= SINGLE_BYTE_MAX as u128 {
        seq![v as u8]
    } else if v <= u16::MAX as u128 {
        seq![TAG_U16] + payload_bytes(v as int, 2, e)
    } else if v <= u32::MAX as u128 {
        seq![TAG_U32] + payload_bytes(v as int, 4, e)
    } else if v <= u64::MAX as u128 {
        seq![TAG_U64] + payload_bytes(v as int, 8, e)
    } else {
        seq![TAG_U128] + payload_bytes(v as int, 16, e)
    }
}

/// The encoding of a signed integer: inline zigzagged in the tag byte when
/// its magnitude is small, else two's complement at the smallest tier.
pub open spec fn varint_signed_bytes(v: i128, e: Endianness) -> Seq<u8> {
    if SIGNED_SINGLE_BYTE_MIN as i128 <= v <= SIGNED_SINGLE_BYTE_MAX as i128 {
        seq![zigzag(v as int) as u8]
    } else if i16::MIN as i128 <= v <= i16::MAX as i128 {
        seq![TAG_U16] + payload_bytes(to_twos_complement(v as int, 2), 2, e)
    } else if i32::MIN as i128 <= v <= i32::MAX as i128 {
        seq![TAG_U32] + payload_bytes(to_twos_complement(v as int, 4), 4, e)
    } else if i64::MIN as i128 <= v <= i64::MAX as i128 {
        seq![TAG_U64] + payload_bytes(to_twos_complement(v as int, 8), 8, e)
    } else {
        seq![TAG_U128] + payload_bytes(to_twos_complement(v as int, 16), 16, e)
    }
}

/// The byte length of the varint encoding of an unsigned integer.
pub open spec fn varint_unsigned_size(v: u128) -> int {
    if v <= SINGLE_BYTE_MAX as u128 {
        1
    } else if v <= u16::MAX as u128 {
        3
    } else if v <= u32::MAX as u128 {
        5
    } else if v <= u64::MAX as u128 {
        9
    } else {
        17
    }
}

/// The byte length of the varint encoding of a signed integer.
pub open spec fn varint_signed_size(v: i128) -> int {
    if SIGNED_SINGLE_BYTE_MIN as i128 <= v <= SIGNED_SINGLE_BYTE_MAX as i128 {
        1
    } else if i16::MIN as i128 <= v <= i16::MAX as i128 {
        3
    } else if i32::MIN as i128 <= v <= i32::MAX as i128 {
        5
    } else if i64::MIN as i128 <= v <= i64::MAX as i128 {
        9
    } else {
        17
    }
}

pub proof fn lemma_varint_unsigned_size(v: u128, e: Endianness)
    ensures
        varint_unsigned_bytes(v, e).len() == varint_unsigned_size(v),
{
    lemma_le_bytes_len(v as int, 2);
    lemma_le_bytes_len(v as int, 4);
    lemma_le_bytes_len(v as int, 8);
    lemma_le_bytes_len(v as int, 16);
}

pub proof fn lemma_varint_signed_size(v: i128, e: Endianness)
    ensures
        varint_signed_bytes(v, e).len() == varint_signed_size(v),
{
    lemma_le_bytes_len(to_twos_complement(v as int, 2), 2);
    lemma_le_bytes_len(to_twos_complement(v as int, 4), 4);
    lemma_le_bytes_len(to_twos_complement(v as int, 8), 8);
    lemma_le_bytes_len(to_twos_complement(v as int, 16), 16);
}

/// The payload width a tier tag announces; 0 for a byte that is no tier tag.
pub open spec fn tag_payload_width(t: u8) -> int {
    if t == TAG_U16 {
        2
    } else if t == TAG_U32 {
        4
    } else if t == TAG_U64 {
        8
    } else if t == TAG_U128 {
        16
    } else {
        0
    }
}

/// Decoding an unsigned varint whose requested integer width allows payload
/// tiers up to `max_width` bytes: the tag picks the tier, the payload follows
/// in endianness `e`. Returns the value and the bytes consumed.
pub open spec fn varint_unsigned_dec(s: Seq<u8>, e: Endianness, max_width: int) -> Result<
    (u128, int),
    DecodeError,
> {
    if s.len() == 0 {
        Err(DecodeError::UnexpectedEnd)
    } else {
        let t = s[0];
        if t <= SINGLE_BYTE_MAX {
            Ok((t as u128, 1))
        } else if tag_payload_width(t) == 0 || tag_payload_width(t) > max_width {
            Err(DecodeError::MalformedTag { found: t })
        } else {
            let w = tag_payload_width(t);
            if s.len() < 1 + w {
                Err(DecodeError::UnexpectedEnd)
            } else {
                Ok((payload_value(s.subrange(1, 1 + w), e) as u128, 1 + w))
            }
        }
    }
}

/// Decoding a signed varint: as [`varint_unsigned_dec`], except that the
/// inline byte is read zigzagged and a payload is read as two's complement.
pub open spec fn varint_signed_dec(s: Seq<u8>, e: Endianness, max_width: int) -> Result<
    (i128, int),
    DecodeError,
> {
    if s.len() == 0 {
        Err(DecodeError::UnexpectedEnd)
    } else {
        let t = s[0];
        if t <= SINGLE_BYTE_MAX {
            Ok((unzigzag(t as int) as i128, 1))
        } else if tag_payload_width(t) == 0 || tag_payload_width(t) > max_width {
            Err(DecodeError::MalformedTag { found: t })
        } else {
            let w = tag_payload_width(t);
            if s.len() < 1 + w {
                Err(DecodeError::UnexpectedEnd)
            } else {
                Ok(
                    (
                        from_twos_complement(
                            payload_value(s.subrange(1, 1 + w), e),
                            w as nat,
                        ) as i128,
                        1 + w,
                    ),
                )
            }
        }
    }
}

/// The decoded value of an unsigned varint is below 256^`max_width`, so it
/// fits the requested integer width.
pub proof fn lemma_varint_unsigned_dec_fits(s: Seq<u8>, e: Endianness, max_width: int)
    requires
        2 <= max_width <= 16,
    ensures
        varint_unsigned_dec(s, e, max_width) matches Ok((v, n)) ==> {
            &&& (v as int) < pow256(max_width as nat)
            &&& 1 <= n <= s.len()
        },
{
    lemma_pow256_128_bits();
    if s.len() > 0 {
        let t = s[0];
        let w = tag_payload_width(t);
        if t > SINGLE_BYTE_MAX && 0 < w <= max_width && s.len() >= 1 + w {
            let p = s.subrange(1, 1 + w);
            lemma_le_value_bound(p);
            lemma_le_value_bound(p.reverse());
            lemma_pow256_increases(w as nat, max_width as nat);
        }
        if t <= SINGLE_BYTE_MAX {
            lemma_pow256_increases(2, max_width as nat);
        }
    }
}

/// The decoded value of a signed varint fits the requested integer width:
/// its two's-complement reading at `max_width` bytes is in range.
pub proof fn lemma_varint_signed_dec_fits(s: Seq<u8>, e: Endianness, max_width: int)
    requires
        2 <= max_width <= 16,
    ensures
        varint_signed_dec(s, e, max_width) matches Ok((v, n)) ==> {
            &&& -pow256(max_width as nat) <= 2 * (v as int) < pow256(max_width as nat)
            &&& 1 <= n <= s.len()
        },
{
    lemma_pow256_128_bits();
    if s.len() > 0 {
        let t = s[0];
        let w = tag_payload_width(t);
        if t > SINGLE_BYTE_MAX && 0 < w <= max_width && s.len() >= 1 + w {
            let p = s.subrange(1, 1 + w);
            lemma_le_value_bound(p);
            lemma_le_value_bound(p.reverse());
            lemma_pow256_increases(w as nat, max_width as nat);
            lemma_pow256_positive(w as nat);
        }
        if t <= SINGLE_BYTE_MAX {
            lemma_pow256_increases(2, max_width as nat);
        }
    }
}

/// Round trip for unsigned varints: decoding an encoding, followed by
/// anything, gives the value back and consumes exactly the encoding.
pub proof fn lemma_varint_unsigned_round_trip(v: u128, rest: Seq<u8>, e: Endianness, max_width: int)
    requires
        max_width == 2 || max_width == 4 || max_width == 8 || max_width == 16,
        (v as int) < pow256(max_width as nat),
    ensures
        varint_unsigned_dec(varint_unsigned_bytes(v, e) + rest, e, max_width) == Ok::<
            _,
            DecodeError,
        >((v, varint_unsigned_bytes(v, e).len() as int)),
{
    lemma_pow256_128_bits();
    let enc = varint_unsigned_bytes(v, e);
    let s = enc + rest;
    lemma_varint_unsigned_size(v, e);
    if v <= SINGLE_BYTE_MAX as u128 {
        assert(s[0] == v as u8);
    } else {
        let w = if v <= u16::MAX as u128 {
            2int
        } else if v <= u32::MAX as u128 {
            4int
        } else if v <= u64::MAX as u128 {
            8int
        } else {
            16int
        };
        assert(w <= max_width);
        lemma_payload_round_trip(v as int, w as nat, e);
        assert(s.subrange(1, 1 + w) =~= payload_bytes(v as int, w as nat, e));
        assert(tag_payload_width(s[0]) == w);
    }
}

/// The magnitude of an integer.
pub open spec fn mag(v: int) -> int {
    if v >= 0 {
        v
    } else {
        -v
    }
}

/// Law: the encoded size of an unsigned integer is one of the defined tier
/// sizes, and is the size of the smallest tier that contains the value.
pub proof fn lemma_varint_unsigned_tiering(v: u128)
    ensures
        varint_unsigned_size(v) == 1 || varint_unsigned_size(v) == 3 || varint_unsigned_size(v)
            == 5 || varint_unsigned_size(v) == 9 || varint_unsigned_size(v) == 17,
        varint_unsigned_size(v) <= 1 <==> v <= SINGLE_BYTE_MAX as u128,
        varint_unsigned_size(v) <= 3 <==> v <= u16::MAX as u128,
        varint_unsigned_size(v) <= 5 <==> v <= u32::MAX as u128,
        varint_unsigned_size(v) <= 9 <==> v <= u64::MAX as u128,
{
}

/// Law: the encoded size of a signed integer is one of the defined tier
/// sizes, and is the size of the smallest tier whose symmetric range
/// contains the value.
pub proof fn lemma_varint_signed_tiering(v: i128)
    ensures
        varint_signed_size(v) == 1 || varint_signed_size(v) == 3 || varint_signed_size(v) == 5
            || varint_signed_size(v) == 9 || varint_signed_size(v) == 17,
        varint_signed_size(v) <= 1 <==> SIGNED_SINGLE_BYTE_MIN as i128 <= v
            <= SIGNED_SINGLE_BYTE_MAX as i128,
        varint_signed_size(v) <= 3 <==> i16::MIN as i128 <= v <= i16::MAX as i128,
        varint_signed_size(v) <= 5 <==> i32::MIN as i128 <= v <= i32::MAX as i128,
        varint_signed_size(v) <= 9 <==> i64::MIN as i128 <= v <= i64::MAX as i128,
{
}

/// Law: the encoded size of an unsigned integer never shrinks as the value
/// grows.
pub proof fn lemma_varint_unsigned_size_monotonic(a: u128, b: u128)
    requires
        a <= b,
    ensures
        varint_unsigned_size(a) <= varint_unsigned_size(b),
{
}

/// Law: a signed integer of strictly smaller magnitude never encodes at a
/// larger size.
pub proof fn lemma_varint_signed_size_monotonic(a: i128, b: i128)
    requires
        mag(a as int) < mag(b as int),
    ensures
        varint_signed_size(a) <= varint_signed_size(b),
{
}

/// Round trip for signed varints.
pub proof fn lemma_varint_signed_round_trip(v: i128, rest: Seq<u8>, e: Endianness, max_width: int)
    requires
        max_width == 2 || max_width == 4 || max_width == 8 || max_width == 16,
        -pow256(max_width as nat) <= 2 * (v as int) < pow256(max_width as nat),
    ensures
        varint_signed_dec(varint_signed_bytes(v, e) + rest, e, max_width) == Ok::<
            _,
            DecodeError,
        >((v, varint_signed_bytes(v, e).len() as int)),
{
    lemma_pow256_128_bits();
    let enc = varint_signed_bytes(v, e);
    let s = enc + rest;
    lemma_varint_signed_size(v, e);
    if SIGNED_SINGLE_BYTE_MIN as i128 <= v <= SIGNED_SINGLE_BYTE_MAX as i128 {
        assert(s[0] == zigzag(v as int) as u8);
        lemma_zigzag_round_trip(v as int);
    } else {
        let w = if i16::MIN as i128 <= v <= i16::MAX as i128 {
            2int
        } else if i32::MIN as i128 <= v <= i32::MAX as i128 {
            4int
        } else if i64::MIN as i128 <= v <= i64::MAX as i128 {
            8int
        } else {
            16int
        };
        assert(w <= max_width);
        let u = to_twos_complement(v as int, w as nat);
        lemma_twos_complement_round_trip(v as int, w as nat);
        lemma_payload_round_trip(u, w as nat, e);
        assert(s.subrange(1, 1 + w) =~= payload_bytes(u, w as nat, e));
        assert(tag_payload_width(s[0]) == w);
    }
}

/// The `n` little-endian bytes of `v`.
pub(crate) fn write_le(v: u128, n: usize) -> (out: Vec<u8>)
    requires
        n <= 16,
    ensures
        out@ == le_bytes(v as int, n as nat),
{
    let mut out: Vec<u8> = Vec::new();
    let mut x: u128 = v;
    let mut i: usize = 0;
    while i < n
        invariant
            i <= n,
            out@.len() == i,
            le_bytes(v as int, n as nat) == out@ + le_bytes(x as int, (n - i) as nat),
        decreases n - i,
    {
        let ghost prev = out@;
        let ghost xi = x as int;
        let b: u8 = (x % 256) as u8;
        out.push(b);
        x = x / 256;
        i = i + 1;
        proof {
            assert(le_bytes(xi, (n - i + 1) as nat) == seq![b] + le_bytes(x as int, (n
                - i) as nat));
            assert(le_bytes(v as int, n as nat) =~= out@ + le_bytes(x as int, (n - i) as nat));
        }
    }
    proof {
        assert(out@ =~= le_bytes(v as int, n as nat));
    }
    out
}

/// The `n`-byte payload of `v` in endianness `e`.
pub(crate) fn write_payload(v: u128, n: usize, e: Endianness) -> (out: Vec<u8>)
    requires
        n <= 16,
    ensures
        out@ == payload_bytes(v as int, n as nat, e),
{
    let le = write_le(v, n);
    match e {
        Endianness::Little => le,
        Endianness::Big => {
            let mut out: Vec<u8> = Vec::new();
            let mut i: usize = le.len();
            while i > 0
                invariant
                    i <= le@.len(),
                    out@.len() == le@.len() - i,
                    forall|j: int| 0 <= j < out@.len() ==> out@[j] == le@[le@.len() - 1 - j],
                decreases i,
            {
                i = i - 1;
                let b = le[i];
                out.push(b);
            }
            proof {
                assert(out@ =~= le@.reverse());
            }
            out
        },
    }
}

/// The two's-complement reading of `v` as an `8w`-bit unsigned integer.
pub(crate) fn twos_complement(v: i128, w: usize) -> (u: u128)
    requires
        w == 2 || w == 4 || w == 8 || w == 16,
        -pow256(w as nat) <= 2 * (v as int) < pow256(w as nat),
    ensures
        u as int == to_twos_complement(v as int, w as nat),
{
    proof {
        lemma_pow256_128_bits();
    }
    let m1: u128 = if w == 2 {
        0xFFFF
    } else if w == 4 {
        0xFFFF_FFFF
    } else if w == 8 {
        0xFFFF_FFFF_FFFF_FFFF
    } else {
        u128::MAX
    };
    if v >= 0 {
        v as u128
    } else {
        m1 - ((-(v + 1)) as u128)
    }
}

/// The signed integer whose `8w`-bit two's-complement reading is `u`.
pub(crate) fn untwos_complement(u: u128, w: usize) -> (v: i128)
    requires
        w == 2 || w == 4 || w == 8 || w == 16,
        (u as int) < pow256(w as nat),
    ensures
        v as int == from_twos_complement(u as int, w as nat),
{
    proof {
        lemma_pow256_128_bits();
    }
    let m1: u128 = if w == 2 {
        0xFFFF
    } else if w == 4 {
        0xFFFF_FFFF
    } else if w == 8 {
        0xFFFF_FFFF_FFFF_FFFF
    } else {
        u128::MAX
    };
    if u <= m1 / 2 {
        u as i128
    } else {
        -((m1 - u) as i128) - 1
    }
}

/// Encode an unsigned integer under the tiered varint scheme.
pub fn varint_encode_unsigned(v: u128, e: Endianness) -> (out: Vec<u8>)
    ensures
        out@ == varint_unsigned_bytes(v, e),
{
    let mut out: Vec<u8> = Vec::new();
    if v <= SINGLE_BYTE_MAX as u128 {
        out.push(v as u8);
        proof {
            assert(out@ =~= varint_unsigned_bytes(v, e));
        }
    } else {
        let w: usize = if v <= u16::MAX as u128 {
            2
        } else if v <= u32::MAX as u128 {
            4
        } else if v <= u64::MAX as u128 {
            8
        } else {
            16
        };
        let tag: u8 = if w == 2 {
            TAG_U16
        } else if w == 4 {
            TAG_U32
        } else if w == 8 {
            TAG_U64
        } else {
            TAG_U128
        };
        out.push(tag);
        let mut p = write_payload(v, w, e);
        out.append(&mut p);
        proof {
            assert(out@ =~= varint_unsigned_bytes(v, e));
        }
    }
    out
}

/// Encode a signed integer under the tiered varint scheme.
pub fn varint_encode_signed(v: i128, e: Endianness) -> (out: Vec<u8>)
    ensures
        out@ == varint_signed_bytes(v, e),
{
    let mut out: Vec<u8> = Vec::new();
    if SIGNED_SINGLE_BYTE_MIN as i128 <= v && v <= SIGNED_SINGLE_BYTE_MAX as i128 {
        let b: u8 = if v >= 0 {
            (2 * v) as u8
        } else {
            let m: i128 = -v;
            (2 * m - 1) as u8
        };
        out.push(b);
        proof {
            assert(b == zigzag(v as int) as u8);
            assert(out@ =~= varint_signed_bytes(v, e));
        }
    } else {
        let w: usize = if i16::MIN as i128 <= v && v <= i16::MAX as i128 {
            2
        } else if i32::MIN as i128 <= v && v <= i32::MAX as i128 {
            4
        } else if i64::MIN as i128 <= v && v <= i64::MAX as i128 {
            8
        } else {
            16
        };
        let tag: u8 = if w == 2 {
            TAG_U16
        } else if w == 4 {
            TAG_U32
        } else if w == 8 {
            TAG_U64
        } else {
            TAG_U128
        };
        proof {
            lemma_pow256_128_bits();
        }
        let u = twos_complement(v, w);
        out.push(tag);
        let mut p = write_payload(u, w, e);
        out.append(&mut p);
        proof {
            assert(out@ =~= varint_signed_bytes(v, e));
        }
    }
    out
}

/// The varint-encoded size of an `i16`, without writing any byte.
pub fn varint_size_i16(val: i16) -> (r: usize)
    ensures
        r as int == varint_signed_size(val as i128),
{
    if SIGNED_SINGLE_BYTE_MIN as i16 <= val && val <= SIGNED_SINGLE_BYTE_MAX as i16 {
        1
    } else {
        3
    }
}

/// The varint-encoded size of an `i32`, without writing any byte.
pub fn varint_size_i32(val: i32) -> (r: usize)
    ensures
        r as int == varint_signed_size(val as i128),
{
    if SIGNED_SINGLE_BYTE_MIN as i32 <= val && val <= SIGNED_SINGLE_BYTE_MAX as i32 {
        1
    } else if i16::MIN as i32 <= val && val <= i16::MAX as i32 {
        3
    } else {
        5
    }
}

/// The varint-encoded size of an `i64`, without writing any byte.
pub fn varint_size_i64(val: i64) -> (r: usize)
    ensures
        r as int == varint_signed_size(val as i128),
{
    if SIGNED_SINGLE_BYTE_MIN as i64 <= val && val <= SIGNED_SINGLE_BYTE_MAX as i64 {
        1
    } else if i16::MIN as i64 <= val && val <= i16::MAX as i64 {
        3
    } else if i32::MIN as i64 <= val && val <= i32::MAX as i64 {
        5
    } else {
        9
    }
}

/// The varint-encoded size of an `i128`, without writing any byte.
pub fn varint_size_i128(val: i128) -> (r: usize)
    ensures
        r as int == varint_signed_size(val),
{
    if SIGNED_SINGLE_BYTE_MIN as i128 <= val && val <= SIGNED_SINGLE_BYTE_MAX as i128 {
        1
    } else if i16::MIN as i128 <= val && val <= i16::MAX as i128 {
        3
    } else if i32::MIN as i128 <= val && val <= i32::MAX as i128 {
        5
    } else if i64::MIN as i128 <= val && val <= i64::MAX as i128 {
        9
    } else {
        17
    }
}

/// The varint-encoded size of an `isize`; an `isize` is encoded as an `i64`.
pub fn varint_size_isize(val: isize) -> (r: usize)
    ensures
        r as int == varint_signed_size(val as i128),
{
    varint_size_i64(val as i64)
}

/// The varint-encoded size of a `u16`, without writing any byte.
pub fn varint_size_u16(val: u16) -> (r: usize)
    ensures
        r as int == varint_unsigned_size(val as u128),
{
    if val <= SINGLE_BYTE_MAX as u16 {
        1
    } else {
        3
    }
}

/// The varint-encoded size of a `u32`, without writing any byte.
pub fn varint_size_u32(val: u32) -> (r: usize)
    ensures
        r as int == varint_unsigned_size(val as u128),
{
    if val <= SINGLE_BYTE_MAX as u32 {
        1
    } else if val <= u16::MAX as u32 {
        3
    } else {
        5
    }
}

/// The varint-encoded size of a `u64`, without writing any byte.
pub fn varint_size_u64(val: u64) -> (r: usize)
    ensures
        r as int == varint_unsigned_size(val as u128),
{
    if val <= SINGLE_BYTE_MAX as u64 {
        1
    } else if val <= u16::MAX as u64 {
        3
    } else if val <= u32::MAX as u64 {
        5
    } else {
        9
    }
}

/// The varint-encoded size of a `u128`, without writing any byte.
pub fn varint_size_u128(val: u128) -> (r: usize)
    ensures
        r as int == varint_unsigned_size(val),
{
    if val <= SINGLE_BYTE_MAX as u128 {
        1
    } else if val <= u16::MAX as u128 {
        3
    } else if val <= u32::MAX as u128 {
        5
    } else if val <= u64::MAX as u128 {
        9
    } else {
        17
    }
}

/// The varint-encoded size of a `usize`; a `usize` is encoded as a `u64`.
pub fn varint_size_usize(val: usize) -> (r: usize)
    ensures
        r as int == varint_unsigned_size(val as u128),
{
    varint_size_u64(val as u64)
}

} // verus!
