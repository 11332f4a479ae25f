//! The value contract for optional values, the simplest tagged union: a
//! discriminant written through the varint codec as a 32-bit unsigned
//! integer, then the active variant's payload. An unrecognized
//! discriminant is a decode error, not a panic.

use vstd::prelude::*;

use crate::config::{Config, Limit};
use crate::de::{BorrowDecode, BorrowReader, Decode, Decoder, Reader};
use crate::enc::{Encode, EncodedSize, Encoder, Writer};
use crate::error::{DecodeError, EncodeError};
use crate::laws::{BorrowAgrees, Lossless};
use crate::prims::uint_dec_full;
use crate::varint::{lemma_pow256_128_bits, varint_size_u32};
use crate::wire::{
    lemma_uint_dec_fits, lemma_uint_enc_size, lemma_uint_round_trip, uint_enc_bytes, uint_encode,
};

verus! {

/// The per-slot width estimate of an optional value: its payload's own
/// estimate and one discriminant word, within the machine bound.
pub open spec fn option_claim_width(inner: int) -> int {
    if inner + 8 <= usize::MAX {
        inner + 8
    } else {
        inner
    }
}

impl<T: Encode> Encode for Option<T> {
    open spec fn enc_bytes(m: Option<T::V>, c: Config) -> Seq<u8> {
        match m {
            None => uint_enc_bytes(0, 4, c),
            Some(x) => uint_enc_bytes(1, 4, c) + T::enc_bytes(x, c),
        }
    }

    fn encode<W: Writer>(&self, encoder: &mut Encoder<W>) -> (r: Result<(), EncodeError>) {
        proof {
            lemma_pow256_128_bits();
        }
        match self {
            None => {
                let bytes = uint_encode(0, 4, encoder.config());
                encoder.write_vec(bytes)
            },
            Some(x) => {
                let bytes = uint_encode(1, 4, encoder.config());
                match encoder.write_vec(bytes) {
                    Ok(()) => {},
                    Err(e) => {
                        return Err(e);
                    },
                }
                x.encode(encoder)
            },
        }
    }
}

impl<T: EncodedSize> EncodedSize for Option<T> {
    fn encoded_size(&self, config: Config) -> (r: Result<usize, EncodeError>) {
        proof {
            lemma_pow256_128_bits();
        }
        match self {
            None => {
                proof {
                    lemma_uint_enc_size(0, 4, config);
                }
                match config.int_encoding {
                    crate::config::IntEncoding::Varint => Ok(varint_size_u32(0)),
                    crate::config::IntEncoding::Fixed => Ok(4),
                }
            },
            Some(x) => {
                proof {
                    lemma_uint_enc_size(1, 4, config);
                }
                let tag_size: usize = match config.int_encoding {
                    crate::config::IntEncoding::Varint => varint_size_u32(1),
                    crate::config::IntEncoding::Fixed => 4,
                };
                let inner = match x.encoded_size(config) {
                    Ok(n) => n,
                    Err(_) => {
                        return Err(EncodeError::SizeOverflow);
                    },
                };
                if inner <= usize::MAX - tag_size {
                    Ok(tag_size + inner)
                } else {
                    Err(EncodeError::SizeOverflow)
                }
            },
        }
    }
}

/// The full decode model of an optional value: a discriminant read as a
/// 32-bit unsigned integer picks the variant; 0 is the empty value, 1 is
/// followed by the payload, and anything else has no matching variant.
pub open spec fn option_dec_full<T: Decode>(s: Seq<u8>, c: Config, b: Limit) -> Result<
    (Option<T::V>, int, Limit),
    DecodeError,
> {
    match uint_dec_full(s, c, b, 4) {
        Ok((d, n0, b0)) => if d == 0 {
            Ok((None, n0, b0))
        } else if d == 1 {
            match T::dec_full(s.skip(n0), c, b0) {
                Ok((x, k, b1)) => Ok((Some(x), n0 + k, b1)),
                Err(e) => Err(e),
            }
        } else {
            Err(DecodeError::UnexpectedVariant { found: d as u64 })
        },
        Err(e) => Err(e),
    }
}

impl<T: Decode> Decode for Option<T> {
    open spec fn dec_full(s: Seq<u8>, c: Config, b: Limit) -> Result<
        (Option<T::V>, int, Limit),
        DecodeError,
    > {
        option_dec_full::<T>(s, c, b)
    }

    open spec fn claim_width() -> int {
        option_claim_width(T::claim_width())
    }

    fn claim_width_exec() -> (w: usize) {
        let inner = T::claim_width_exec();
        if inner <= usize::MAX - 8 {
            inner + 8
        } else {
            inner
        }
    }

    proof fn dec_full_sound(s: Seq<u8>, c: Config, b: Limit) {
        lemma_pow256_128_bits();
        lemma_uint_dec_fits(s, 4, c);
        match uint_dec_full(s, c, b, 4) {
            Ok((d, n0, b0)) => {
                if d == 1 {
                    T::dec_full_sound(s.skip(n0), c, b0);
                }
            },
            Err(_) => {},
        }
    }

    fn decode<R: Reader>(decoder: &mut Decoder<R>) -> (r: Result<Option<T>, DecodeError>) {
        let ghost s0 = decoder.remaining();
        let ghost c = decoder.cfg();
        match decoder.claim_bytes_read(4) {
            Ok(()) => {},
            Err(e) => {
                return Err(e);
            },
        }
        proof {
            lemma_pow256_128_bits();
            lemma_uint_dec_fits(s0, 4, c);
        }
        let d = match decoder.read_uint(4) {
            Ok(p) => p.0,
            Err(e) => {
                return Err(e);
            },
        };
        if d == 0 {
            Ok(None)
        } else if d == 1 {
            let ghost s1 = decoder.remaining();
            let ghost b1 = decoder.budget_left();
            match T::decode(decoder) {
                Ok(x) => {
                    proof {
                        T::dec_full_sound(s1, c, b1);
                        match T::dec_full(s1, c, b1) {
                            Ok((xm, k, b1)) => {
                                assert(s1.skip(k) =~= s0.skip((s0.len() - s1.len()) + k));
                            },
                            Err(_) => {},
                        }
                    }
                    Ok(Some(x))
                },
                Err(e) => Err(e),
            }
        } else {
            Err(DecodeError::UnexpectedVariant { found: d as u64 })
        }
    }
}

impl<'de, T: BorrowDecode<'de>> BorrowDecode<'de> for Option<T> {
    open spec fn bdec_full(s: Seq<u8>, c: Config, b: Limit) -> Result<
        (Option<T::V>, int, Limit),
        DecodeError,
    > {
        match uint_dec_full(s, c, b, 4) {
            Ok((d, n0, b0)) => if d == 0 {
                Ok((None, n0, b0))
            } else if d == 1 {
                match T::bdec_full(s.skip(n0), c, b0) {
                    Ok((x, k, b1)) => Ok((Some(x), n0 + k, b1)),
                    Err(e) => Err(e),
                }
            } else {
                Err(DecodeError::UnexpectedVariant { found: d as u64 })
            },
            Err(e) => Err(e),
        }
    }

    open spec fn bclaim_width() -> int {
        option_claim_width(T::bclaim_width())
    }

    fn bclaim_width_exec() -> (w: usize) {
        let inner = T::bclaim_width_exec();
        if inner <= usize::MAX - 8 {
            inner + 8
        } else {
            inner
        }
    }

    proof fn bdec_full_sound(s: Seq<u8>, c: Config, b: Limit) {
        lemma_pow256_128_bits();
        lemma_uint_dec_fits(s, 4, c);
        match uint_dec_full(s, c, b, 4) {
            Ok((d, n0, b0)) => {
                if d == 1 {
                    T::bdec_full_sound(s.skip(n0), c, b0);
                }
            },
            Err(_) => {},
        }
    }

    fn borrow_decode<R: BorrowReader<'de>>(decoder: &mut Decoder<R>) -> (r: Result<
        Option<T>,
        DecodeError,
    >) {
        let ghost s0 = decoder.remaining();
        let ghost c = decoder.cfg();
        match decoder.claim_bytes_read(4) {
            Ok(()) => {},
            Err(e) => {
                return Err(e);
            },
        }
        proof {
            lemma_pow256_128_bits();
            lemma_uint_dec_fits(s0, 4, c);
        }
        let d = match decoder.read_uint(4) {
            Ok(p) => p.0,
            Err(e) => {
                return Err(e);
            },
        };
        if d == 0 {
            Ok(None)
        } else if d == 1 {
            let ghost s1 = decoder.remaining();
            let ghost b1 = decoder.budget_left();
            match T::borrow_decode(decoder) {
                Ok(x) => {
                    proof {
                        T::bdec_full_sound(s1, c, b1);
                        match T::bdec_full(s1, c, b1) {
                            Ok((xm, k, b1)) => {
                                assert(s1.skip(k) =~= s0.skip((s0.len() - s1.len()) + k));
                            },
                            Err(_) => {},
                        }
                    }
                    Ok(Some(x))
                },
                Err(e) => Err(e),
            }
        } else {
            Err(DecodeError::UnexpectedVariant { found: d as u64 })
        }
    }
}

impl<T: Lossless> Lossless for Option<T> {
    open spec fn enc_wf(m: Option<T::V>) -> bool {
        match m {
            None => true,
            Some(x) => T::enc_wf(x),
        }
    }

    proof fn lemma_round_trip(m: Option<T::V>, rest: Seq<u8>, c: Config) {
        lemma_pow256_128_bits();
        match m {
            None => {
                lemma_uint_round_trip(0, rest, 4, c);
            },
            Some(x) => {
                let tagb = uint_enc_bytes(1, 4, c);
                let payload = T::enc_bytes(x, c);
                let enc = Self::enc_bytes(m, c);
                assert(enc + rest =~= tagb + (payload + rest));
                lemma_uint_round_trip(1, payload + rest, 4, c);
                assert((enc + rest).skip(tagb.len() as int) =~= payload + rest);
                T::lemma_round_trip(x, rest, c);
            },
        }
    }
}

impl<'de, T: BorrowAgrees<'de>> BorrowAgrees<'de> for Option<T> {
    proof fn lemma_borrow_agrees(s: Seq<u8>, c: Config, b: Limit) {
        T::lemma_borrow_agrees(s, c, b);
        match uint_dec_full(s, c, b, 4) {
            Ok((d, n0, b0)) => {
                if d == 1 {
                    T::lemma_borrow_agrees(s.skip(n0), c, b0);
                }
            },
            Err(_) => {},
        }
    }
}

} // verus!
