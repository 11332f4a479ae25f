//! The value contract for fixed-size byte arrays. The statically known
//! length need not be repeated on the wire: the configuration decides.
//! When it is written, decoding validates that the declared length exactly
//! equals the required size, and a mismatch is its own decode error
//! carrying both values, not a generic truncation.

use vstd::prelude::*;

use crate::budget::spec_claim;
use crate::config::{Config, Limit};
use crate::de::{
    decode_slice_len, len_dec_full, BorrowDecode, BorrowReader, Decode, Decoder, Reader,
};
use crate::enc::{encode_slice_len, len_enc_bytes, size_slice_len, Encode, EncodedSize, Encoder, Writer};
use crate::error::{DecodeError, EncodeError};
use crate::laws::{BorrowAgrees, Lossless};
use crate::varint::lemma_pow256_128_bits;
use crate::wire::{lemma_uint_dec_fits, lemma_uint_round_trip};

verus! {

/// The wire bytes of a fixed-size byte array: the bytes alone when the
/// configuration skips statically known lengths, else with the length
/// prefix first.
pub open spec fn byte_array_enc_bytes(m: Seq<u8>, n: int, c: Config) -> Seq<u8> {
    if c.skip_fixed_array_length {
        m
    } else {
        len_enc_bytes(n, c) + m
    }
}

/// The full decode model of a fixed-size byte array of required size `n`:
/// the length prefix, if written, must equal `n` exactly; then `n` bytes
/// are charged and read in bulk.
pub open spec fn byte_array_dec_full(s: Seq<u8>, n: int, c: Config, b: Limit) -> Result<
    (Seq<u8>, int, Limit),
    DecodeError,
> {
    if c.skip_fixed_array_length {
        match spec_claim(b, n) {
            None => Err(DecodeError::LimitExceeded),
            Some(b1) => if s.len() >= n {
                Ok((s.take(n), n, b1))
            } else {
                Err(DecodeError::UnexpectedEnd)
            },
        }
    } else {
        match len_dec_full(s, c, b) {
            Ok((len, n0, b0)) => if len != n {
                Err(
                    DecodeError::ArrayLengthMismatch {
                        found: len as usize,
                        required: n as usize,
                    },
                )
            } else {
                match spec_claim(b0, n) {
                    None => Err(DecodeError::LimitExceeded),
                    Some(b1) => if s.skip(n0).len() >= n {
                        Ok((s.skip(n0).take(n), n0 + n, b1))
                    } else {
                        Err(DecodeError::UnexpectedEnd)
                    },
                }
            },
            Err(e) => Err(e),
        }
    }
}

/// Law: fixed-array mismatch. When the length prefix of a fixed-size byte
/// array disagrees with the statically required size, decoding fails with
/// the mismatch error carrying both the found and the required length.
pub proof fn lemma_array_length_mismatch<const N: usize>(
    s: Seq<u8>,
    c: Config,
    b: Limit,
    len: int,
    n0: int,
    b0: Limit,
)
    requires
        !c.skip_fixed_array_length,
        len_dec_full(s, c, b) == Ok::<_, DecodeError>((len, n0, b0)),
        len != N,
    ensures
        <[u8; N] as Decode>::dec_full(s, c, b) == Err::<(Seq<u8>, int, Limit), _>(
            (DecodeError::ArrayLengthMismatch { found: len as usize, required: N }),
        ),
{
}

/// Relies on `Vec`'s `TryInto` conversion into an array: it succeeds
/// exactly when the vector's length equals the array's, moving the bytes
/// over unchanged.
#[verifier::external_body]
fn vec_to_byte_array<const N: usize>(v: Vec<u8>) -> (a: [u8; N])
    requires
        v@.len() == N,
    ensures
        a@ == v@,
{
    let r: Result<[u8; N], Vec<u8>> = v.try_into();
    r.unwrap()
}

impl<const N: usize> Encode for [u8; N] {
    open spec fn enc_bytes(m: Seq<u8>, c: Config) -> Seq<u8> {
        byte_array_enc_bytes(m, N as int, c)
    }

    fn encode<W: Writer>(&self, encoder: &mut Encoder<W>) -> (r: Result<(), EncodeError>) {
        if !encoder.config().skip_fixed_array_length {
            match encode_slice_len(encoder, N) {
                Ok(()) => {},
                Err(e) => {
                    return Err(e);
                },
            }
        }
        match encoder.write_slice(self.as_slice()) {
            Ok(()) => {
                proof {
                    if !old(encoder).cfg().skip_fixed_array_length {
                        assert(old(encoder).stream() + len_enc_bytes(N as int, old(encoder).cfg())
                            + self@ =~= old(encoder).stream() + Self::enc_bytes(
                            self.deep_view(),
                            old(encoder).cfg(),
                        ));
                    }
                    assert(self.deep_view() =~= self@);
                }
                Ok(())
            },
            Err(e) => Err(e),
        }
    }
}

impl<const N: usize> EncodedSize for [u8; N] {
    fn encoded_size(&self, config: Config) -> (r: Result<usize, EncodeError>) {
        proof {
            assert(self.deep_view() =~= self@);
        }
        if config.skip_fixed_array_length {
            Ok(N)
        } else {
            let prefix = size_slice_len(N, config);
            if N <= usize::MAX - prefix {
                Ok(prefix + N)
            } else {
                Err(EncodeError::SizeOverflow)
            }
        }
    }
}

impl<const N: usize> Decode for [u8; N] {
    open spec fn dec_full(s: Seq<u8>, c: Config, b: Limit) -> Result<
        (Seq<u8>, int, Limit),
        DecodeError,
    > {
        byte_array_dec_full(s, N as int, c, b)
    }

    open spec fn claim_width() -> int {
        N as int
    }

    fn claim_width_exec() -> (w: usize) {
        N
    }

    proof fn dec_full_sound(s: Seq<u8>, c: Config, b: Limit) {
        lemma_pow256_128_bits();
        lemma_uint_dec_fits(s, 8, c);
    }

    fn decode<R: Reader>(decoder: &mut Decoder<R>) -> (r: Result<[u8; N], DecodeError>) {
        let ghost s0 = decoder.remaining();
        if !decoder.config().skip_fixed_array_length {
            let len = match decode_slice_len(decoder) {
                Ok(l) => l,
                Err(e) => {
                    return Err(e);
                },
            };
            if len != N {
                return Err(DecodeError::ArrayLengthMismatch { found: len, required: N });
            }
        }
        match decoder.claim_bytes_read(N) {
            Ok(()) => {},
            Err(e) => {
                return Err(e);
            },
        }
        let ghost s1 = decoder.remaining();
        match decoder.read_bytes(N) {
            Ok(v) => {
                let a = vec_to_byte_array::<N>(v);
                proof {
                    assert(a.deep_view() =~= a@);
                    if !decoder.cfg().skip_fixed_array_length {
                        lemma_pow256_128_bits();
                        lemma_uint_dec_fits(s0, 8, decoder.cfg());
                        assert(s1.skip(N as int) =~= s0.skip((s0.len() - s1.len()) + N));
                    }
                }
                Ok(a)
            },
            Err(e) => Err(e),
        }
    }
}

impl<'de, const N: usize> BorrowDecode<'de> for [u8; N] {
    open spec fn bdec_full(s: Seq<u8>, c: Config, b: Limit) -> Result<
        (Seq<u8>, int, Limit),
        DecodeError,
    > {
        <[u8; N] as Decode>::dec_full(s, c, b)
    }

    open spec fn bclaim_width() -> int {
        N as int
    }

    fn bclaim_width_exec() -> (w: usize) {
        N
    }

    proof fn bdec_full_sound(s: Seq<u8>, c: Config, b: Limit) {
        <[u8; N] as Decode>::dec_full_sound(s, c, b);
    }

    fn borrow_decode<R: BorrowReader<'de>>(decoder: &mut Decoder<R>) -> (r: Result<
        [u8; N],
        DecodeError,
    >) {
        <[u8; N] as Decode>::decode(decoder)
    }
}

impl<const N: usize> Lossless for [u8; N] {
    open spec fn enc_wf(m: Seq<u8>) -> bool {
        m.len() == N
    }

    proof fn lemma_round_trip(m: Seq<u8>, rest: Seq<u8>, c: Config) {
        lemma_pow256_128_bits();
        let enc = Self::enc_bytes(m, c);
        if c.skip_fixed_array_length {
            assert((m + rest).take(N as int) =~= m);
        } else {
            let lenb = len_enc_bytes(N as int, c);
            assert(enc + rest =~= lenb + (m + rest));
            lemma_uint_round_trip(N as u128, m + rest, 8, c);
            assert((enc + rest).skip(lenb.len() as int) =~= m + rest);
            assert((m + rest).take(N as int) =~= m);
        }
    }
}

impl<'de, const N: usize> BorrowAgrees<'de> for [u8; N] {
    proof fn lemma_borrow_agrees(s: Seq<u8>, c: Config, b: Limit) {
    }
}

} // verus!
