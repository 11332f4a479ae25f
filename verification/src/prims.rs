//! The value contract for the primitive types: integers encoded through the
//! wire layer under the configured scheme, single bytes written raw, and
//! booleans as one byte. Each decode charges the type's native width
//! against the read budget before reading.

use vstd::prelude::*;

use crate::budget::spec_claim;
use crate::config::{Config, Limit};
use crate::de::{BorrowDecode, BorrowReader, Decode, Decoder, Reader};
use crate::enc::{Encode, EncodedSize, Encoder, Writer};
use crate::error::{DecodeError, EncodeError};
use crate::varint::{
    lemma_pow256_128_bits, pow256, to_twos_complement, varint_size_i128, varint_size_i16, varint_size_i32,
    varint_size_i64, varint_size_isize, varint_size_u128, varint_size_u16, varint_size_u32,
    varint_size_u64, varint_size_usize,
};
use crate::wire::{
    lemma_sint_enc_size, lemma_sint_dec_fits, lemma_uint_dec_fits, lemma_uint_enc_size,
    sint_dec, sint_enc_bytes, sint_encode, uint_dec, uint_enc_bytes, uint_encode,
};

verus! {

/// Decoding an unsigned integer of native width `w`: charge `w` bytes, then
/// read under the configured scheme.
pub open spec fn uint_dec_full(s: Seq<u8>, c: Config, b: Limit, w: int) -> Result<
    (u128, int, Limit),
    DecodeError,
> {
    match spec_claim(b, w) {
        None => Err(DecodeError::LimitExceeded),
        Some(b1) => match uint_dec(s, w, c) {
            Ok((v, n)) => Ok((v, n, b1)),
            Err(e) => Err(e),
        },
    }
}

/// Decoding a signed integer of native width `w`: charge `w` bytes, then
/// read under the configured scheme.
pub open spec fn sint_dec_full(s: Seq<u8>, c: Config, b: Limit, w: int) -> Result<
    (i128, int, Limit),
    DecodeError,
> {
    match spec_claim(b, w) {
        None => Err(DecodeError::LimitExceeded),
        Some(b1) => match sint_dec(s, w, c) {
            Ok((v, n)) => Ok((v, n, b1)),
            Err(e) => Err(e),
        },
    }
}

/// Decoding a raw byte: charge one byte, then read it unchanged.
pub open spec fn byte_dec_full(s: Seq<u8>, b: Limit) -> Result<(u8, int, Limit), DecodeError> {
    match spec_claim(b, 1) {
        None => Err(DecodeError::LimitExceeded),
        Some(b1) => if s.len() >= 1 {
            Ok((s[0], 1, b1))
        } else {
            Err(DecodeError::UnexpectedEnd)
        },
    }
}

impl Encode for u8 {
    open spec fn enc_bytes(m: u8, c: Config) -> Seq<u8> {
        seq![m]
    }

    fn encode<W: Writer>(&self, encoder: &mut Encoder<W>) -> (r: Result<(), EncodeError>) {
        let mut bytes: Vec<u8> = Vec::new();
        bytes.push(*self);
        proof {
            assert(bytes@ =~= seq![*self]);
        }
        encoder.write_vec(bytes)
    }
}

impl Decode for u8 {
    open spec fn dec_full(s: Seq<u8>, c: Config, b: Limit) -> Result<
        (u8, int, Limit),
        DecodeError,
    > {
        byte_dec_full(s, b)
    }

    open spec fn claim_width() -> int {
        1
    }

    fn claim_width_exec() -> (w: usize) {
        1
    }

    proof fn dec_full_sound(s: Seq<u8>, c: Config, b: Limit) {
    }

    fn decode<R: Reader>(decoder: &mut Decoder<R>) -> (r: Result<u8, DecodeError>) {
        decoder.claim_bytes_read(1)?;
        let bytes = decoder.read_bytes(1)?;
        Ok(bytes[0])
    }
}

impl<'de> BorrowDecode<'de> for u8 {
    open spec fn bdec_full(s: Seq<u8>, c: Config, b: Limit) -> Result<
        (u8, int, Limit),
        DecodeError,
    > {
        <u8 as Decode>::dec_full(s, c, b)
    }

    open spec fn bclaim_width() -> int {
        1
    }

    fn bclaim_width_exec() -> (w: usize) {
        1
    }

    proof fn bdec_full_sound(s: Seq<u8>, c: Config, b: Limit) {
        <u8 as Decode>::dec_full_sound(s, c, b);
    }

    fn borrow_decode<R: BorrowReader<'de>>(decoder: &mut Decoder<R>) -> (r: Result<
        u8,
        DecodeError,
    >) {
        decoder.claim_bytes_read(1)?;
        let bytes = decoder.read_bytes(1)?;
        Ok(bytes[0])
    }
}

impl EncodedSize for u8 {
    fn encoded_size(&self, config: Config) -> (r: Result<usize, EncodeError>) {
        Ok(1)
    }
}

impl Encode for bool {
    open spec fn enc_bytes(m: bool, c: Config) -> Seq<u8> {
        if m {
            seq![1u8]
        } else {
            seq![0u8]
        }
    }

    fn encode<W: Writer>(&self, encoder: &mut Encoder<W>) -> (r: Result<(), EncodeError>) {
        let mut bytes: Vec<u8> = Vec::new();
        bytes.push(if *self {
            1u8
        } else {
            0u8
        });
        proof {
            assert(bytes@ =~= Self::enc_bytes(*self, old(encoder).cfg()));
        }
        encoder.write_vec(bytes)
    }
}

/// Decoding a boolean: one charged byte, which must be 0 or 1; any other
/// leading byte is outside the defined set.
pub open spec fn bool_dec_full(s: Seq<u8>, b: Limit) -> Result<(bool, int, Limit), DecodeError> {
    match byte_dec_full(s, b) {
        Ok((v, n, b1)) => if v == 0 {
            Ok((false, n, b1))
        } else if v == 1 {
            Ok((true, n, b1))
        } else {
            Err(DecodeError::MalformedTag { found: v })
        },
        Err(e) => Err(e),
    }
}

impl Decode for bool {
    open spec fn dec_full(s: Seq<u8>, c: Config, b: Limit) -> Result<
        (bool, int, Limit),
        DecodeError,
    > {
        bool_dec_full(s, b)
    }

    open spec fn claim_width() -> int {
        1
    }

    fn claim_width_exec() -> (w: usize) {
        1
    }

    proof fn dec_full_sound(s: Seq<u8>, c: Config, b: Limit) {
    }

    fn decode<R: Reader>(decoder: &mut Decoder<R>) -> (r: Result<bool, DecodeError>) {
        decoder.claim_bytes_read(1)?;
        let bytes = decoder.read_bytes(1)?;
        let v = bytes[0];
        if v == 0 {
            Ok(false)
        } else if v == 1 {
            Ok(true)
        } else {
            Err(DecodeError::MalformedTag { found: v })
        }
    }
}

impl<'de> BorrowDecode<'de> for bool {
    open spec fn bdec_full(s: Seq<u8>, c: Config, b: Limit) -> Result<
        (bool, int, Limit),
        DecodeError,
    > {
        <bool as Decode>::dec_full(s, c, b)
    }

    open spec fn bclaim_width() -> int {
        1
    }

    fn bclaim_width_exec() -> (w: usize) {
        1
    }

    proof fn bdec_full_sound(s: Seq<u8>, c: Config, b: Limit) {
        <bool as Decode>::dec_full_sound(s, c, b);
    }

    fn borrow_decode<R: BorrowReader<'de>>(decoder: &mut Decoder<R>) -> (r: Result<
        bool,
        DecodeError,
    >) {
        <bool as Decode>::decode(decoder)
    }
}

impl EncodedSize for bool {
    fn encoded_size(&self, config: Config) -> (r: Result<usize, EncodeError>) {
        Ok(1)
    }
}

impl Encode for u16 {
    open spec fn enc_bytes(m: u16, c: Config) -> Seq<u8> {
        uint_enc_bytes(m as int, 2, c)
    }

    fn encode<W: Writer>(&self, encoder: &mut Encoder<W>) -> (r: Result<(), EncodeError>) {
        proof {
            lemma_pow256_128_bits();
        }
        let bytes = uint_encode(*self as u128, 2, encoder.config());
        encoder.write_vec(bytes)
    }
}

impl Decode for u16 {
    open spec fn dec_full(s: Seq<u8>, c: Config, b: Limit) -> Result<
        (u16, int, Limit),
        DecodeError,
    > {
        match uint_dec_full(s, c, b, 2) {
            Ok((v, n, b1)) => Ok((v as u16, n, b1)),
            Err(e) => Err(e),
        }
    }

    open spec fn claim_width() -> int {
        2
    }

    fn claim_width_exec() -> (w: usize) {
        2
    }

    proof fn dec_full_sound(s: Seq<u8>, c: Config, b: Limit) {
        lemma_uint_dec_fits(s, 2, c);
    }

    fn decode<R: Reader>(decoder: &mut Decoder<R>) -> (r: Result<u16, DecodeError>) {
        let ghost s = decoder.remaining();
        let ghost c = decoder.cfg();
        decoder.claim_bytes_read(2)?;
        proof {
            lemma_pow256_128_bits();
            lemma_uint_dec_fits(s, 2, c);
        }
        let p = decoder.read_uint(2)?;
        Ok(p.0 as u16)
    }
}

impl<'de> BorrowDecode<'de> for u16 {
    open spec fn bdec_full(s: Seq<u8>, c: Config, b: Limit) -> Result<
        (u16, int, Limit),
        DecodeError,
    > {
        <u16 as Decode>::dec_full(s, c, b)
    }

    open spec fn bclaim_width() -> int {
        2
    }

    fn bclaim_width_exec() -> (w: usize) {
        2
    }

    proof fn bdec_full_sound(s: Seq<u8>, c: Config, b: Limit) {
        <u16 as Decode>::dec_full_sound(s, c, b);
    }

    fn borrow_decode<R: BorrowReader<'de>>(decoder: &mut Decoder<R>) -> (r: Result<
        u16,
        DecodeError,
    >) {
        <u16 as Decode>::decode(decoder)
    }
}

impl EncodedSize for u16 {
    fn encoded_size(&self, config: Config) -> (r: Result<usize, EncodeError>) {
        proof {
            lemma_pow256_128_bits();
            lemma_uint_enc_size(*self as int, 2, config);
        }
        match config.int_encoding {
            crate::config::IntEncoding::Varint => Ok(varint_size_u16(*self)),
            crate::config::IntEncoding::Fixed => Ok(2),
        }
    }
}

impl Encode for u32 {
    open spec fn enc_bytes(m: u32, c: Config) -> Seq<u8> {
        uint_enc_bytes(m as int, 4, c)
    }

    fn encode<W: Writer>(&self, encoder: &mut Encoder<W>) -> (r: Result<(), EncodeError>) {
        proof {
            lemma_pow256_128_bits();
        }
        let bytes = uint_encode(*self as u128, 4, encoder.config());
        encoder.write_vec(bytes)
    }
}

impl Decode for u32 {
    open spec fn dec_full(s: Seq<u8>, c: Config, b: Limit) -> Result<
        (u32, int, Limit),
        DecodeError,
    > {
        match uint_dec_full(s, c, b, 4) {
            Ok((v, n, b1)) => Ok((v as u32, n, b1)),
            Err(e) => Err(e),
        }
    }

    open spec fn claim_width() -> int {
        4
    }

    fn claim_width_exec() -> (w: usize) {
        4
    }

    proof fn dec_full_sound(s: Seq<u8>, c: Config, b: Limit) {
        lemma_uint_dec_fits(s, 4, c);
    }

    fn decode<R: Reader>(decoder: &mut Decoder<R>) -> (r: Result<u32, DecodeError>) {
        let ghost s = decoder.remaining();
        let ghost c = decoder.cfg();
        decoder.claim_bytes_read(4)?;
        proof {
            lemma_pow256_128_bits();
            lemma_uint_dec_fits(s, 4, c);
        }
        let p = decoder.read_uint(4)?;
        Ok(p.0 as u32)
    }
}

impl<'de> BorrowDecode<'de> for u32 {
    open spec fn bdec_full(s: Seq<u8>, c: Config, b: Limit) -> Result<
        (u32, int, Limit),
        DecodeError,
    > {
        <u32 as Decode>::dec_full(s, c, b)
    }

    open spec fn bclaim_width() -> int {
        4
    }

    fn bclaim_width_exec() -> (w: usize) {
        4
    }

    proof fn bdec_full_sound(s: Seq<u8>, c: Config, b: Limit) {
        <u32 as Decode>::dec_full_sound(s, c, b);
    }

    fn borrow_decode<R: BorrowReader<'de>>(decoder: &mut Decoder<R>) -> (r: Result<
        u32,
        DecodeError,
    >) {
        <u32 as Decode>::decode(decoder)
    }
}

impl EncodedSize for u32 {
    fn encoded_size(&self, config: Config) -> (r: Result<usize, EncodeError>) {
        proof {
            lemma_pow256_128_bits();
            lemma_uint_enc_size(*self as int, 4, config);
        }
        match config.int_encoding {
            crate::config::IntEncoding::Varint => Ok(varint_size_u32(*self)),
            crate::config::IntEncoding::Fixed => Ok(4),
        }
    }
}

impl Encode for u64 {
    open spec fn enc_bytes(m: u64, c: Config) -> Seq<u8> {
        uint_enc_bytes(m as int, 8, c)
    }

    fn encode<W: Writer>(&self, encoder: &mut Encoder<W>) -> (r: Result<(), EncodeError>) {
        proof {
            lemma_pow256_128_bits();
        }
        let bytes = uint_encode(*self as u128, 8, encoder.config());
        encoder.write_vec(bytes)
    }
}

impl Decode for u64 {
    open spec fn dec_full(s: Seq<u8>, c: Config, b: Limit) -> Result<
        (u64, int, Limit),
        DecodeError,
    > {
        match uint_dec_full(s, c, b, 8) {
            Ok((v, n, b1)) => Ok((v as u64, n, b1)),
            Err(e) => Err(e),
        }
    }

    open spec fn claim_width() -> int {
        8
    }

    fn claim_width_exec() -> (w: usize) {
        8
    }

    proof fn dec_full_sound(s: Seq<u8>, c: Config, b: Limit) {
        lemma_uint_dec_fits(s, 8, c);
    }

    fn decode<R: Reader>(decoder: &mut Decoder<R>) -> (r: Result<u64, DecodeError>) {
        let ghost s = decoder.remaining();
        let ghost c = decoder.cfg();
        decoder.claim_bytes_read(8)?;
        proof {
            lemma_pow256_128_bits();
            lemma_uint_dec_fits(s, 8, c);
        }
        let p = decoder.read_uint(8)?;
        Ok(p.0 as u64)
    }
}

impl<'de> BorrowDecode<'de> for u64 {
    open spec fn bdec_full(s: Seq<u8>, c: Config, b: Limit) -> Result<
        (u64, int, Limit),
        DecodeError,
    > {
        <u64 as Decode>::dec_full(s, c, b)
    }

    open spec fn bclaim_width() -> int {
        8
    }

    fn bclaim_width_exec() -> (w: usize) {
        8
    }

    proof fn bdec_full_sound(s: Seq<u8>, c: Config, b: Limit) {
        <u64 as Decode>::dec_full_sound(s, c, b);
    }

    fn borrow_decode<R: BorrowReader<'de>>(decoder: &mut Decoder<R>) -> (r: Result<
        u64,
        DecodeError,
    >) {
        <u64 as Decode>::decode(decoder)
    }
}

impl EncodedSize for u64 {
    fn encoded_size(&self, config: Config) -> (r: Result<usize, EncodeError>) {
        proof {
            lemma_pow256_128_bits();
            lemma_uint_enc_size(*self as int, 8, config);
        }
        match config.int_encoding {
            crate::config::IntEncoding::Varint => Ok(varint_size_u64(*self)),
            crate::config::IntEncoding::Fixed => Ok(8),
        }
    }
}

impl Encode for u128 {
    open spec fn enc_bytes(m: u128, c: Config) -> Seq<u8> {
        uint_enc_bytes(m as int, 16, c)
    }

    fn encode<W: Writer>(&self, encoder: &mut Encoder<W>) -> (r: Result<(), EncodeError>) {
        proof {
            lemma_pow256_128_bits();
        }
        let bytes = uint_encode(*self, 16, encoder.config());
        encoder.write_vec(bytes)
    }
}

impl Decode for u128 {
    open spec fn dec_full(s: Seq<u8>, c: Config, b: Limit) -> Result<
        (u128, int, Limit),
        DecodeError,
    > {
        uint_dec_full(s, c, b, 16)
    }

    open spec fn claim_width() -> int {
        16
    }

    fn claim_width_exec() -> (w: usize) {
        16
    }

    proof fn dec_full_sound(s: Seq<u8>, c: Config, b: Limit) {
        lemma_uint_dec_fits(s, 16, c);
    }

    fn decode<R: Reader>(decoder: &mut Decoder<R>) -> (r: Result<u128, DecodeError>) {
        decoder.claim_bytes_read(16)?;
        let p = decoder.read_uint(16)?;
        Ok(p.0)
    }
}

impl<'de> BorrowDecode<'de> for u128 {
    open spec fn bdec_full(s: Seq<u8>, c: Config, b: Limit) -> Result<
        (u128, int, Limit),
        DecodeError,
    > {
        <u128 as Decode>::dec_full(s, c, b)
    }

    open spec fn bclaim_width() -> int {
        16
    }

    fn bclaim_width_exec() -> (w: usize) {
        16
    }

    proof fn bdec_full_sound(s: Seq<u8>, c: Config, b: Limit) {
        <u128 as Decode>::dec_full_sound(s, c, b);
    }

    fn borrow_decode<R: BorrowReader<'de>>(decoder: &mut Decoder<R>) -> (r: Result<
        u128,
        DecodeError,
    >) {
        <u128 as Decode>::decode(decoder)
    }
}

impl EncodedSize for u128 {
    fn encoded_size(&self, config: Config) -> (r: Result<usize, EncodeError>) {
        proof {
            lemma_pow256_128_bits();
            lemma_uint_enc_size(*self as int, 16, config);
        }
        match config.int_encoding {
            crate::config::IntEncoding::Varint => Ok(varint_size_u128(*self)),
            crate::config::IntEncoding::Fixed => Ok(16),
        }
    }
}

impl Encode for usize {
    open spec fn enc_bytes(m: usize, c: Config) -> Seq<u8> {
        uint_enc_bytes(m as int, 8, c)
    }

    fn encode<W: Writer>(&self, encoder: &mut Encoder<W>) -> (r: Result<(), EncodeError>) {
        proof {
            lemma_pow256_128_bits();
        }
        let bytes = uint_encode(*self as u64 as u128, 8, encoder.config());
        encoder.write_vec(bytes)
    }
}

/// A `usize` is decoded as a `u64`; a value over this platform's bound is
/// rejected.
pub open spec fn usize_dec_full(s: Seq<u8>, c: Config, b: Limit) -> Result<
    (usize, int, Limit),
    DecodeError,
> {
    match uint_dec_full(s, c, b, 8) {
        Ok((v, n, b1)) => if v <= usize::MAX as u128 {
            Ok((v as usize, n, b1))
        } else {
            Err(DecodeError::OutsideUsizeRange)
        },
        Err(e) => Err(e),
    }
}

impl Decode for usize {
    open spec fn dec_full(s: Seq<u8>, c: Config, b: Limit) -> Result<
        (usize, int, Limit),
        DecodeError,
    > {
        usize_dec_full(s, c, b)
    }

    open spec fn claim_width() -> int {
        8
    }

    fn claim_width_exec() -> (w: usize) {
        8
    }

    proof fn dec_full_sound(s: Seq<u8>, c: Config, b: Limit) {
        lemma_uint_dec_fits(s, 8, c);
    }

    fn decode<R: Reader>(decoder: &mut Decoder<R>) -> (r: Result<usize, DecodeError>) {
        decoder.claim_bytes_read(8)?;
        let p = decoder.read_uint(8)?;
        if p.0 <= usize::MAX as u128 {
            Ok(p.0 as usize)
        } else {
            Err(DecodeError::OutsideUsizeRange)
        }
    }
}

impl<'de> BorrowDecode<'de> for usize {
    open spec fn bdec_full(s: Seq<u8>, c: Config, b: Limit) -> Result<
        (usize, int, Limit),
        DecodeError,
    > {
        <usize as Decode>::dec_full(s, c, b)
    }

    open spec fn bclaim_width() -> int {
        8
    }

    fn bclaim_width_exec() -> (w: usize) {
        8
    }

    proof fn bdec_full_sound(s: Seq<u8>, c: Config, b: Limit) {
        <usize as Decode>::dec_full_sound(s, c, b);
    }

    fn borrow_decode<R: BorrowReader<'de>>(decoder: &mut Decoder<R>) -> (r: Result<
        usize,
        DecodeError,
    >) {
        <usize as Decode>::decode(decoder)
    }
}

impl EncodedSize for usize {
    fn encoded_size(&self, config: Config) -> (r: Result<usize, EncodeError>) {
        proof {
            lemma_pow256_128_bits();
            lemma_uint_enc_size(*self as int, 8, config);
        }
        match config.int_encoding {
            crate::config::IntEncoding::Varint => Ok(varint_size_usize(*self)),
            crate::config::IntEncoding::Fixed => Ok(8),
        }
    }
}

impl Encode for i8 {
    open spec fn enc_bytes(m: i8, c: Config) -> Seq<u8> {
        seq![to_twos_complement(m as int, 1) as u8]
    }

    fn encode<W: Writer>(&self, encoder: &mut Encoder<W>) -> (r: Result<(), EncodeError>) {
        let v = *self;
        let b: u8 = if v >= 0 {
            v as u8
        } else {
            ((v as i32) + 256) as u8
        };
        let mut bytes: Vec<u8> = Vec::new();
        bytes.push(b);
        proof {
            assert(pow256(0) == 1);
            assert(pow256(1) == 256);
            assert(bytes@ =~= Self::enc_bytes(v, old(encoder).cfg()));
        }
        encoder.write_vec(bytes)
    }
}

/// Decoding an `i8`: one charged byte, read as 8-bit two's complement.
pub open spec fn i8_dec_full(s: Seq<u8>, b: Limit) -> Result<(i8, int, Limit), DecodeError> {
    match byte_dec_full(s, b) {
        Ok((v, n, b1)) => Ok((crate::varint::from_twos_complement(v as int, 1) as i8, n, b1)),
        Err(e) => Err(e),
    }
}

impl Decode for i8 {
    open spec fn dec_full(s: Seq<u8>, c: Config, b: Limit) -> Result<
        (i8, int, Limit),
        DecodeError,
    > {
        i8_dec_full(s, b)
    }

    open spec fn claim_width() -> int {
        1
    }

    fn claim_width_exec() -> (w: usize) {
        1
    }

    proof fn dec_full_sound(s: Seq<u8>, c: Config, b: Limit) {
    }

    fn decode<R: Reader>(decoder: &mut Decoder<R>) -> (r: Result<i8, DecodeError>) {
        decoder.claim_bytes_read(1)?;
        let bytes = decoder.read_bytes(1)?;
        let v = bytes[0];
        proof {
            assert(pow256(0) == 1);
            assert(pow256(1) == 256);
        }
        if v <= 127 {
            Ok(v as i8)
        } else {
            Ok(((v as i32) - 256) as i8)
        }
    }
}

impl<'de> BorrowDecode<'de> for i8 {
    open spec fn bdec_full(s: Seq<u8>, c: Config, b: Limit) -> Result<
        (i8, int, Limit),
        DecodeError,
    > {
        <i8 as Decode>::dec_full(s, c, b)
    }

    open spec fn bclaim_width() -> int {
        1
    }

    fn bclaim_width_exec() -> (w: usize) {
        1
    }

    proof fn bdec_full_sound(s: Seq<u8>, c: Config, b: Limit) {
        <i8 as Decode>::dec_full_sound(s, c, b);
    }

    fn borrow_decode<R: BorrowReader<'de>>(decoder: &mut Decoder<R>) -> (r: Result<
        i8,
        DecodeError,
    >) {
        <i8 as Decode>::decode(decoder)
    }
}

impl EncodedSize for i8 {
    fn encoded_size(&self, config: Config) -> (r: Result<usize, EncodeError>) {
        Ok(1)
    }
}

impl Encode for i16 {
    open spec fn enc_bytes(m: i16, c: Config) -> Seq<u8> {
        sint_enc_bytes(m as i128, 2, c)
    }

    fn encode<W: Writer>(&self, encoder: &mut Encoder<W>) -> (r: Result<(), EncodeError>) {
        proof {
            lemma_pow256_128_bits();
        }
        let bytes = sint_encode(*self as i128, 2, encoder.config());
        encoder.write_vec(bytes)
    }
}

impl Decode for i16 {
    open spec fn dec_full(s: Seq<u8>, c: Config, b: Limit) -> Result<
        (i16, int, Limit),
        DecodeError,
    > {
        match sint_dec_full(s, c, b, 2) {
            Ok((v, n, b1)) => Ok((v as i16, n, b1)),
            Err(e) => Err(e),
        }
    }

    open spec fn claim_width() -> int {
        2
    }

    fn claim_width_exec() -> (w: usize) {
        2
    }

    proof fn dec_full_sound(s: Seq<u8>, c: Config, b: Limit) {
        lemma_sint_dec_fits(s, 2, c);
    }

    fn decode<R: Reader>(decoder: &mut Decoder<R>) -> (r: Result<i16, DecodeError>) {
        let ghost s = decoder.remaining();
        let ghost c = decoder.cfg();
        decoder.claim_bytes_read(2)?;
        proof {
            lemma_pow256_128_bits();
            lemma_sint_dec_fits(s, 2, c);
        }
        let p = decoder.read_sint(2)?;
        Ok(p.0 as i16)
    }
}

impl<'de> BorrowDecode<'de> for i16 {
    open spec fn bdec_full(s: Seq<u8>, c: Config, b: Limit) -> Result<
        (i16, int, Limit),
        DecodeError,
    > {
        <i16 as Decode>::dec_full(s, c, b)
    }

    open spec fn bclaim_width() -> int {
        2
    }

    fn bclaim_width_exec() -> (w: usize) {
        2
    }

    proof fn bdec_full_sound(s: Seq<u8>, c: Config, b: Limit) {
        <i16 as Decode>::dec_full_sound(s, c, b);
    }

    fn borrow_decode<R: BorrowReader<'de>>(decoder: &mut Decoder<R>) -> (r: Result<
        i16,
        DecodeError,
    >) {
        <i16 as Decode>::decode(decoder)
    }
}

impl EncodedSize for i16 {
    fn encoded_size(&self, config: Config) -> (r: Result<usize, EncodeError>) {
        proof {
            lemma_pow256_128_bits();
            lemma_sint_enc_size(*self as i128, 2, config);
        }
        match config.int_encoding {
            crate::config::IntEncoding::Varint => Ok(varint_size_i16(*self)),
            crate::config::IntEncoding::Fixed => Ok(2),
        }
    }
}

impl Encode for i32 {
    open spec fn enc_bytes(m: i32, c: Config) -> Seq<u8> {
        sint_enc_bytes(m as i128, 4, c)
    }

    fn encode<W: Writer>(&self, encoder: &mut Encoder<W>) -> (r: Result<(), EncodeError>) {
        proof {
            lemma_pow256_128_bits();
        }
        let bytes = sint_encode(*self as i128, 4, encoder.config());
        encoder.write_vec(bytes)
    }
}

impl Decode for i32 {
    open spec fn dec_full(s: Seq<u8>, c: Config, b: Limit) -> Result<
        (i32, int, Limit),
        DecodeError,
    > {
        match sint_dec_full(s, c, b, 4) {
            Ok((v, n, b1)) => Ok((v as i32, n, b1)),
            Err(e) => Err(e),
        }
    }

    open spec fn claim_width() -> int {
        4
    }

    fn claim_width_exec() -> (w: usize) {
        4
    }

    proof fn dec_full_sound(s: Seq<u8>, c: Config, b: Limit) {
        lemma_sint_dec_fits(s, 4, c);
    }

    fn decode<R: Reader>(decoder: &mut Decoder<R>) -> (r: Result<i32, DecodeError>) {
        let ghost s = decoder.remaining();
        let ghost c = decoder.cfg();
        decoder.claim_bytes_read(4)?;
        proof {
            lemma_pow256_128_bits();
            lemma_sint_dec_fits(s, 4, c);
        }
        let p = decoder.read_sint(4)?;
        Ok(p.0 as i32)
    }
}

impl<'de> BorrowDecode<'de> for i32 {
    open spec fn bdec_full(s: Seq<u8>, c: Config, b: Limit) -> Result<
        (i32, int, Limit),
        DecodeError,
    > {
        <i32 as Decode>::dec_full(s, c, b)
    }

    open spec fn bclaim_width() -> int {
        4
    }

    fn bclaim_width_exec() -> (w: usize) {
        4
    }

    proof fn bdec_full_sound(s: Seq<u8>, c: Config, b: Limit) {
        <i32 as Decode>::dec_full_sound(s, c, b);
    }

    fn borrow_decode<R: BorrowReader<'de>>(decoder: &mut Decoder<R>) -> (r: Result<
        i32,
        DecodeError,
    >) {
        <i32 as Decode>::decode(decoder)
    }
}

impl EncodedSize for i32 {
    fn encoded_size(&self, config: Config) -> (r: Result<usize, EncodeError>) {
        proof {
            lemma_pow256_128_bits();
            lemma_sint_enc_size(*self as i128, 4, config);
        }
        match config.int_encoding {
            crate::config::IntEncoding::Varint => Ok(varint_size_i32(*self)),
            crate::config::IntEncoding::Fixed => Ok(4),
        }
    }
}

impl Encode for i64 {
    open spec fn enc_bytes(m: i64, c: Config) -> Seq<u8> {
        sint_enc_bytes(m as i128, 8, c)
    }

    fn encode<W: Writer>(&self, encoder: &mut Encoder<W>) -> (r: Result<(), EncodeError>) {
        proof {
            lemma_pow256_128_bits();
        }
        let bytes = sint_encode(*self as i128, 8, encoder.config());
        encoder.write_vec(bytes)
    }
}

impl Decode for i64 {
    open spec fn dec_full(s: Seq<u8>, c: Config, b: Limit) -> Result<
        (i64, int, Limit),
        DecodeError,
    > {
        match sint_dec_full(s, c, b, 8) {
            Ok((v, n, b1)) => Ok((v as i64, n, b1)),
            Err(e) => Err(e),
        }
    }

    open spec fn claim_width() -> int {
        8
    }

    fn claim_width_exec() -> (w: usize) {
        8
    }

    proof fn dec_full_sound(s: Seq<u8>, c: Config, b: Limit) {
        lemma_sint_dec_fits(s, 8, c);
    }

    fn decode<R: Reader>(decoder: &mut Decoder<R>) -> (r: Result<i64, DecodeError>) {
        let ghost s = decoder.remaining();
        let ghost c = decoder.cfg();
        decoder.claim_bytes_read(8)?;
        proof {
            lemma_pow256_128_bits();
            lemma_sint_dec_fits(s, 8, c);
        }
        let p = decoder.read_sint(8)?;
        Ok(p.0 as i64)
    }
}

impl<'de> BorrowDecode<'de> for i64 {
    open spec fn bdec_full(s: Seq<u8>, c: Config, b: Limit) -> Result<
        (i64, int, Limit),
        DecodeError,
    > {
        <i64 as Decode>::dec_full(s, c, b)
    }

    open spec fn bclaim_width() -> int {
        8
    }

    fn bclaim_width_exec() -> (w: usize) {
        8
    }

    proof fn bdec_full_sound(s: Seq<u8>, c: Config, b: Limit) {
        <i64 as Decode>::dec_full_sound(s, c, b);
    }

    fn borrow_decode<R: BorrowReader<'de>>(decoder: &mut Decoder<R>) -> (r: Result<
        i64,
        DecodeError,
    >) {
        <i64 as Decode>::decode(decoder)
    }
}

impl EncodedSize for i64 {
    fn encoded_size(&self, config: Config) -> (r: Result<usize, EncodeError>) {
        proof {
            lemma_pow256_128_bits();
            lemma_sint_enc_size(*self as i128, 8, config);
        }
        match config.int_encoding {
            crate::config::IntEncoding::Varint => Ok(varint_size_i64(*self)),
            crate::config::IntEncoding::Fixed => Ok(8),
        }
    }
}

impl Encode for i128 {
    open spec fn enc_bytes(m: i128, c: Config) -> Seq<u8> {
        sint_enc_bytes(m, 16, c)
    }

    fn encode<W: Writer>(&self, encoder: &mut Encoder<W>) -> (r: Result<(), EncodeError>) {
        proof {
            lemma_pow256_128_bits();
        }
        let bytes = sint_encode(*self, 16, encoder.config());
        encoder.write_vec(bytes)
    }
}

impl Decode for i128 {
    open spec fn dec_full(s: Seq<u8>, c: Config, b: Limit) -> Result<
        (i128, int, Limit),
        DecodeError,
    > {
        sint_dec_full(s, c, b, 16)
    }

    open spec fn claim_width() -> int {
        16
    }

    fn claim_width_exec() -> (w: usize) {
        16
    }

    proof fn dec_full_sound(s: Seq<u8>, c: Config, b: Limit) {
        lemma_sint_dec_fits(s, 16, c);
    }

    fn decode<R: Reader>(decoder: &mut Decoder<R>) -> (r: Result<i128, DecodeError>) {
        decoder.claim_bytes_read(16)?;
        let p = decoder.read_sint(16)?;
        Ok(p.0)
    }
}

impl<'de> BorrowDecode<'de> for i128 {
    open spec fn bdec_full(s: Seq<u8>, c: Config, b: Limit) -> Result<
        (i128, int, Limit),
        DecodeError,
    > {
        <i128 as Decode>::dec_full(s, c, b)
    }

    open spec fn bclaim_width() -> int {
        16
    }

    fn bclaim_width_exec() -> (w: usize) {
        16
    }

    proof fn bdec_full_sound(s: Seq<u8>, c: Config, b: Limit) {
        <i128 as Decode>::dec_full_sound(s, c, b);
    }

    fn borrow_decode<R: BorrowReader<'de>>(decoder: &mut Decoder<R>) -> (r: Result<
        i128,
        DecodeError,
    >) {
        <i128 as Decode>::decode(decoder)
    }
}

impl EncodedSize for i128 {
    fn encoded_size(&self, config: Config) -> (r: Result<usize, EncodeError>) {
        proof {
            lemma_pow256_128_bits();
            lemma_sint_enc_size(*self, 16, config);
        }
        match config.int_encoding {
            crate::config::IntEncoding::Varint => Ok(varint_size_i128(*self)),
            crate::config::IntEncoding::Fixed => Ok(16),
        }
    }
}

impl Encode for isize {
    open spec fn enc_bytes(m: isize, c: Config) -> Seq<u8> {
        sint_enc_bytes(m as i128, 8, c)
    }

    fn encode<W: Writer>(&self, encoder: &mut Encoder<W>) -> (r: Result<(), EncodeError>) {
        proof {
            lemma_pow256_128_bits();
        }
        let bytes = sint_encode(*self as i64 as i128, 8, encoder.config());
        encoder.write_vec(bytes)
    }
}

/// An `isize` is decoded as an `i64`; a value outside this platform's range
/// is rejected.
pub open spec fn isize_dec_full(s: Seq<u8>, c: Config, b: Limit) -> Result<
    (isize, int, Limit),
    DecodeError,
> {
    match sint_dec_full(s, c, b, 8) {
        Ok((v, n, b1)) => if isize::MIN as i128 <= v <= isize::MAX as i128 {
            Ok((v as isize, n, b1))
        } else {
            Err(DecodeError::OutsideUsizeRange)
        },
        Err(e) => Err(e),
    }
}

impl Decode for isize {
    open spec fn dec_full(s: Seq<u8>, c: Config, b: Limit) -> Result<
        (isize, int, Limit),
        DecodeError,
    > {
        isize_dec_full(s, c, b)
    }

    open spec fn claim_width() -> int {
        8
    }

    fn claim_width_exec() -> (w: usize) {
        8
    }

    proof fn dec_full_sound(s: Seq<u8>, c: Config, b: Limit) {
        lemma_sint_dec_fits(s, 8, c);
    }

    fn decode<R: Reader>(decoder: &mut Decoder<R>) -> (r: Result<isize, DecodeError>) {
        decoder.claim_bytes_read(8)?;
        let p = decoder.read_sint(8)?;
        if isize::MIN as i128 <= p.0 && p.0 <= isize::MAX as i128 {
            Ok(p.0 as isize)
        } else {
            Err(DecodeError::OutsideUsizeRange)
        }
    }
}

impl<'de> BorrowDecode<'de> for isize {
    open spec fn bdec_full(s: Seq<u8>, c: Config, b: Limit) -> Result<
        (isize, int, Limit),
        DecodeError,
    > {
        <isize as Decode>::dec_full(s, c, b)
    }

    open spec fn bclaim_width() -> int {
        8
    }

    fn bclaim_width_exec() -> (w: usize) {
        8
    }

    proof fn bdec_full_sound(s: Seq<u8>, c: Config, b: Limit) {
        <isize as Decode>::dec_full_sound(s, c, b);
    }

    fn borrow_decode<R: BorrowReader<'de>>(decoder: &mut Decoder<R>) -> (r: Result<
        isize,
        DecodeError,
    >) {
        <isize as Decode>::decode(decoder)
    }
}

impl EncodedSize for isize {
    fn encoded_size(&self, config: Config) -> (r: Result<usize, EncodeError>) {
        proof {
            lemma_pow256_128_bits();
            lemma_sint_enc_size(*self as i128, 8, config);
        }
        match config.int_encoding {
            crate::config::IntEncoding::Varint => Ok(varint_size_isize(*self)),
            crate::config::IntEncoding::Fixed => Ok(8),
        }
    }
}

} // verus!
