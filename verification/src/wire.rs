//! The wire layout of integers under a configuration: the tiered varint
//! scheme, or the integer's native width, in the configured endianness.
//! These are the shared spec functions the per-type contracts are stated
//! over, with the executable encoders that realize them.

use vstd::prelude::*;

use crate::config::{Config, IntEncoding};
use crate::error::DecodeError;
use crate::varint::{
    from_twos_complement, lemma_le_value_bound, lemma_payload_round_trip, lemma_pow256_128_bits,
    lemma_varint_signed_dec_fits, lemma_varint_signed_round_trip,
    lemma_varint_signed_size, lemma_varint_unsigned_dec_fits, lemma_varint_unsigned_round_trip,
    lemma_varint_unsigned_size, payload_bytes, payload_value, pow256, to_twos_complement,
    twos_complement, varint_encode_signed, varint_encode_unsigned,
    varint_signed_bytes, varint_signed_dec, varint_signed_size, varint_unsigned_bytes,
    varint_unsigned_dec, varint_unsigned_size, write_payload,
};

verus! {

/// The wire bytes of an unsigned integer whose native width is `w` bytes.
pub open spec fn uint_enc_bytes(v: int, w: int, c: Config) -> Seq<u8> {
    match c.int_encoding {
        IntEncoding::Varint => varint_unsigned_bytes(v as u128, c.endianness),
        IntEncoding::Fixed => payload_bytes(v, w as nat, c.endianness),
    }
}

/// The wire byte count of an unsigned integer whose native width is `w`.
pub open spec fn uint_enc_size(v: int, w: int, c: Config) -> int {
    match c.int_encoding {
        IntEncoding::Varint => varint_unsigned_size(v as u128),
        IntEncoding::Fixed => w,
    }
}

/// Reading an unsigned integer whose native width is `w` bytes from the
/// front of `s`: the value and the bytes consumed.
pub open spec fn uint_dec(s: Seq<u8>, w: int, c: Config) -> Result<(u128, int), DecodeError> {
    match c.int_encoding {
        IntEncoding::Varint => varint_unsigned_dec(s, c.endianness, w),
        IntEncoding::Fixed => if s.len() >= w {
            Ok((payload_value(s.take(w), c.endianness) as u128, w))
        } else {
            Err(DecodeError::UnexpectedEnd)
        },
    }
}

/// The wire bytes of a signed integer whose native width is `w` bytes.
pub open spec fn sint_enc_bytes(v: i128, w: int, c: Config) -> Seq<u8> {
    match c.int_encoding {
        IntEncoding::Varint => varint_signed_bytes(v, c.endianness),
        IntEncoding::Fixed => payload_bytes(
            to_twos_complement(v as int, w as nat),
            w as nat,
            c.endianness,
        ),
    }
}

/// The wire byte count of a signed integer whose native width is `w`.
pub open spec fn sint_enc_size(v: i128, w: int, c: Config) -> int {
    match c.int_encoding {
        IntEncoding::Varint => varint_signed_size(v),
        IntEncoding::Fixed => w,
    }
}

/// Reading a signed integer whose native width is `w` bytes from the front
/// of `s`.
pub open spec fn sint_dec(s: Seq<u8>, w: int, c: Config) -> Result<(i128, int), DecodeError> {
    match c.int_encoding {
        IntEncoding::Varint => varint_signed_dec(s, c.endianness, w),
        IntEncoding::Fixed => if s.len() >= w {
            Ok(
                (
                    from_twos_complement(
                        payload_value(s.take(w), c.endianness),
                        w as nat,
                    ) as i128,
                    w,
                ),
            )
        } else {
            Err(DecodeError::UnexpectedEnd)
        },
    }
}

/// The size spec matches the encoding's length.
pub proof fn lemma_uint_enc_size(v: int, w: int, c: Config)
    requires
        w == 2 || w == 4 || w == 8 || w == 16,
        0 <= v < pow256(w as nat),
    ensures
        uint_enc_bytes(v, w, c).len() == uint_enc_size(v, w, c),
{
    lemma_pow256_128_bits();
    lemma_varint_unsigned_size(v as u128, c.endianness);
    crate::varint::lemma_le_bytes_len(v, w as nat);
}

/// The size spec matches the encoding's length.
pub proof fn lemma_sint_enc_size(v: i128, w: int, c: Config)
    requires
        w == 2 || w == 4 || w == 8 || w == 16,
        -pow256(w as nat) <= 2 * (v as int) < pow256(w as nat),
    ensures
        sint_enc_bytes(v, w, c).len() == sint_enc_size(v, w, c),
{
    lemma_pow256_128_bits();
    lemma_varint_signed_size(v, c.endianness);
    crate::varint::lemma_le_bytes_len(to_twos_complement(v as int, w as nat), w as nat);
}

/// Unsigned wire round trip: reading an encoding, followed by anything,
/// gives the value back and consumes exactly the encoding.
pub proof fn lemma_uint_round_trip(v: u128, rest: Seq<u8>, w: int, c: Config)
    requires
        w == 2 || w == 4 || w == 8 || w == 16,
        (v as int) < pow256(w as nat),
    ensures
        uint_dec(uint_enc_bytes(v as int, w, c) + rest, w, c) == Ok::<_, DecodeError>(
            (v, uint_enc_bytes(v as int, w, c).len() as int),
        ),
{
    lemma_pow256_128_bits();
    match c.int_encoding {
        IntEncoding::Varint => {
            lemma_varint_unsigned_round_trip(v, rest, c.endianness, w);
        },
        IntEncoding::Fixed => {
            lemma_payload_round_trip(v as int, w as nat, c.endianness);
            let enc = payload_bytes(v as int, w as nat, c.endianness);
            assert((enc + rest).take(w) =~= enc);
        },
    }
}

/// Signed wire round trip.
pub proof fn lemma_sint_round_trip(v: i128, rest: Seq<u8>, w: int, c: Config)
    requires
        w == 2 || w == 4 || w == 8 || w == 16,
        -pow256(w as nat) <= 2 * (v as int) < pow256(w as nat),
    ensures
        sint_dec(sint_enc_bytes(v, w, c) + rest, w, c) == Ok::<_, DecodeError>(
            (v, sint_enc_bytes(v, w, c).len() as int),
        ),
{
    lemma_pow256_128_bits();
    match c.int_encoding {
        IntEncoding::Varint => {
            lemma_varint_signed_round_trip(v, rest, c.endianness, w);
        },
        IntEncoding::Fixed => {
            let u = to_twos_complement(v as int, w as nat);
            crate::varint::lemma_twos_complement_round_trip(v as int, w as nat);
            lemma_payload_round_trip(u, w as nat, c.endianness);
            let enc = payload_bytes(u, w as nat, c.endianness);
            assert((enc + rest).take(w) =~= enc);
        },
    }
}

/// A decoded unsigned integer fits the requested width.
pub proof fn lemma_uint_dec_fits(s: Seq<u8>, w: int, c: Config)
    requires
        w == 2 || w == 4 || w == 8 || w == 16,
    ensures
        uint_dec(s, w, c) matches Ok((v, n)) ==> {
            &&& (v as int) < pow256(w as nat)
            &&& 1 <= n <= s.len()
        },
{
    lemma_pow256_128_bits();
    match c.int_encoding {
        IntEncoding::Varint => {
            lemma_varint_unsigned_dec_fits(s, c.endianness, w);
        },
        IntEncoding::Fixed => {
            if s.len() >= w {
                lemma_le_value_bound(s.take(w));
                lemma_le_value_bound(s.take(w).reverse());
            }
        },
    }
}

/// A decoded signed integer fits the requested width.
pub proof fn lemma_sint_dec_fits(s: Seq<u8>, w: int, c: Config)
    requires
        w == 2 || w == 4 || w == 8 || w == 16,
    ensures
        sint_dec(s, w, c) matches Ok((v, n)) ==> {
            &&& -pow256(w as nat) <= 2 * (v as int) < pow256(w as nat)
            &&& 1 <= n <= s.len()
        },
{
    lemma_pow256_128_bits();
    match c.int_encoding {
        IntEncoding::Varint => {
            lemma_varint_signed_dec_fits(s, c.endianness, w);
        },
        IntEncoding::Fixed => {
            if s.len() >= w {
                lemma_le_value_bound(s.take(w));
                lemma_le_value_bound(s.take(w).reverse());
            }
        },
    }
}

/// Encode an unsigned integer of native width `w` under configuration `c`.
pub(crate) fn uint_encode(v: u128, w: usize, c: Config) -> (out: Vec<u8>)
    requires
        w == 2 || w == 4 || w == 8 || w == 16,
        (v as int) < pow256(w as nat),
    ensures
        out@ == uint_enc_bytes(v as int, w as int, c),
{
    match c.int_encoding {
        IntEncoding::Varint => varint_encode_unsigned(v, c.endianness),
        IntEncoding::Fixed => write_payload(v, w, c.endianness),
    }
}

/// Encode a signed integer of native width `w` under configuration `c`.
pub(crate) fn sint_encode(v: i128, w: usize, c: Config) -> (out: Vec<u8>)
    requires
        w == 2 || w == 4 || w == 8 || w == 16,
        -pow256(w as nat) <= 2 * (v as int) < pow256(w as nat),
    ensures
        out@ == sint_enc_bytes(v, w as int, c),
{
    match c.int_encoding {
        IntEncoding::Varint => varint_encode_signed(v, c.endianness),
        IntEncoding::Fixed => {
            let u = twos_complement(v, w);
            proof {
                crate::varint::lemma_twos_complement_round_trip(v as int, w as nat);
            }
            write_payload(u, w, c.endianness)
        },
    }
}

} // verus!
