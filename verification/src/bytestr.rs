//! The value contract for byte strings and text: a length prefix followed
//! by the raw bytes in one bulk operation, with the budget charged the
//! literal byte count. Text is a byte string whose bytes must be valid
//! UTF-8; a byte-slice value decodes zero-copy, aliasing the input buffer.

use vstd::prelude::*;
use vstd::string::StringSliceAdditionalSpecFns;
use vstd::utf8::{decode_utf8, encode_utf8, valid_utf8};

use crate::budget::spec_claim;
use crate::config::{Config, Limit};
use crate::de::{
    decode_slice_len, len_dec_full, BorrowDecode, BorrowReader, Decode, Decoder, Reader,
};
use crate::enc::{encode_slice_len, len_enc_bytes, size_slice_len, Encode, EncodedSize, Encoder, Writer};
use crate::error::{DecodeError, EncodeError};
use crate::laws::{BorrowAgrees, Lossless};
use crate::varint::lemma_pow256_128_bits;
use crate::wire::{lemma_uint_dec_fits, lemma_uint_round_trip};

verus! {

/// The wire bytes of a byte string: its length prefix, then the bytes.
pub open spec fn bytestring_enc_bytes(m: Seq<u8>, c: Config) -> Seq<u8> {
    len_enc_bytes(m.len() as int, c) + m
}

/// The full decode model of a byte string: the length prefix, the literal
/// byte count charged against the budget, then the bytes in one bulk read.
pub open spec fn bytestring_dec_full(s: Seq<u8>, c: Config, b: Limit) -> Result<
    (Seq<u8>, int, Limit),
    DecodeError,
> {
    match len_dec_full(s, c, b) {
        Ok((len, n0, b0)) => match spec_claim(b0, len) {
            None => Err(DecodeError::LimitExceeded),
            Some(b1) => if s.skip(n0).len() >= len {
                Ok((s.skip(n0).take(len), n0 + len, b1))
            } else {
                Err(DecodeError::UnexpectedEnd)
            },
        },
        Err(e) => Err(e),
    }
}

/// Byte-string decoding consumes between zero and all of the unread bytes.
pub proof fn lemma_bytestring_dec_sound(s: Seq<u8>, c: Config, b: Limit)
    ensures
        bytestring_dec_full(s, c, b) matches Ok((m, n, b2)) ==> 0 <= n <= s.len(),
{
    lemma_pow256_128_bits();
    lemma_uint_dec_fits(s, 8, c);
}

/// Byte-string round trip.
pub proof fn lemma_bytestring_round_trip(m: Seq<u8>, rest: Seq<u8>, c: Config)
    requires
        m.len() <= usize::MAX,
    ensures
        bytestring_dec_full(bytestring_enc_bytes(m, c) + rest, c, Limit::Unlimited) == Ok::<
            _,
            DecodeError,
        >((m, bytestring_enc_bytes(m, c).len() as int, Limit::Unlimited)),
{
    lemma_pow256_128_bits();
    let lenb = len_enc_bytes(m.len() as int, c);
    let enc = bytestring_enc_bytes(m, c);
    assert(enc + rest =~= lenb + (m + rest));
    lemma_uint_round_trip(m.len() as u128, m + rest, 8, c);
    assert((enc + rest).skip(lenb.len() as int) =~= m + rest);
    assert((m + rest).take(m.len() as int) =~= m);
}

/// Relies on `String::from_utf8`: it returns the string holding exactly
/// the given bytes when they are valid UTF-8, and rejects them otherwise;
/// the rejection is mapped to this crate's text error.
#[verifier::external_body]
fn string_from_utf8(bytes: Vec<u8>) -> (r: Result<String, DecodeError>)
    ensures
        match r {
            Ok(s) => valid_utf8(bytes@) && s@ == decode_utf8(bytes@),
            Err(e) => !valid_utf8(bytes@) && e == DecodeError::Utf8,
        },
{
    match String::from_utf8(bytes) {
        Ok(s) => Ok(s),
        Err(_) => Err(DecodeError::Utf8),
    }
}

impl Encode for String {
    open spec fn enc_bytes(m: Seq<char>, c: Config) -> Seq<u8> {
        bytestring_enc_bytes(encode_utf8(m), c)
    }

    fn encode<W: Writer>(&self, encoder: &mut Encoder<W>) -> (r: Result<(), EncodeError>) {
        let bytes = self.as_str().as_bytes();
        match encode_slice_len(encoder, bytes.len()) {
            Ok(()) => {},
            Err(e) => {
                return Err(e);
            },
        }
        match encoder.write_slice(bytes) {
            Ok(()) => {
                proof {
                    assert(old(encoder).stream() + len_enc_bytes(bytes@.len() as int, old(
                        encoder,
                    ).cfg()) + bytes@ =~= old(encoder).stream() + Self::enc_bytes(
                        self.deep_view(),
                        old(encoder).cfg(),
                    ));
                }
                Ok(())
            },
            Err(e) => Err(e),
        }
    }
}

impl EncodedSize for String {
    fn encoded_size(&self, config: Config) -> (r: Result<usize, EncodeError>) {
        let bytes = self.as_str().as_bytes();
        let prefix = size_slice_len(bytes.len(), config);
        if bytes.len() <= usize::MAX - prefix {
            Ok(prefix + bytes.len())
        } else {
            Err(EncodeError::SizeOverflow)
        }
    }
}

impl Decode for String {
    open spec fn dec_full(s: Seq<u8>, c: Config, b: Limit) -> Result<
        (Seq<char>, int, Limit),
        DecodeError,
    > {
        match bytestring_dec_full(s, c, b) {
            Ok((bytes, n, b1)) => if valid_utf8(bytes) {
                Ok((decode_utf8(bytes), n, b1))
            } else {
                Err(DecodeError::Utf8)
            },
            Err(e) => Err(e),
        }
    }

    open spec fn claim_width() -> int {
        24
    }

    fn claim_width_exec() -> (w: usize) {
        24
    }

    proof fn dec_full_sound(s: Seq<u8>, c: Config, b: Limit) {
        lemma_bytestring_dec_sound(s, c, b);
    }

    fn decode<R: Reader>(decoder: &mut Decoder<R>) -> (r: Result<String, DecodeError>) {
        let len = match decode_slice_len(decoder) {
            Ok(l) => l,
            Err(e) => {
                return Err(e);
            },
        };
        match decoder.claim_bytes_read(len) {
            Ok(()) => {},
            Err(e) => {
                return Err(e);
            },
        }
        let bytes = match decoder.read_bytes(len) {
            Ok(v) => v,
            Err(e) => {
                return Err(e);
            },
        };
        string_from_utf8(bytes)
    }
}

impl<'de> BorrowDecode<'de> for String {
    open spec fn bdec_full(s: Seq<u8>, c: Config, b: Limit) -> Result<
        (Seq<char>, int, Limit),
        DecodeError,
    > {
        <String as Decode>::dec_full(s, c, b)
    }

    open spec fn bclaim_width() -> int {
        24
    }

    fn bclaim_width_exec() -> (w: usize) {
        24
    }

    proof fn bdec_full_sound(s: Seq<u8>, c: Config, b: Limit) {
        <String as Decode>::dec_full_sound(s, c, b);
    }

    fn borrow_decode<R: BorrowReader<'de>>(decoder: &mut Decoder<R>) -> (r: Result<
        String,
        DecodeError,
    >) {
        <String as Decode>::decode(decoder)
    }
}

impl Lossless for String {
    open spec fn enc_wf(m: Seq<char>) -> bool {
        encode_utf8(m).len() <= usize::MAX
    }

    proof fn lemma_round_trip(m: Seq<char>, rest: Seq<u8>, c: Config) {
        let bytes = encode_utf8(m);
        vstd::utf8::encode_utf8_valid_utf8(m);
        vstd::utf8::encode_utf8_decode_utf8(m);
        lemma_bytestring_round_trip(bytes, rest, c);
    }
}

impl<'de> BorrowAgrees<'de> for String {
    proof fn lemma_borrow_agrees(s: Seq<u8>, c: Config, b: Limit) {
    }
}

impl<'a> Encode for &'a [u8] {
    open spec fn enc_bytes(m: Seq<u8>, c: Config) -> Seq<u8> {
        bytestring_enc_bytes(m, c)
    }

    fn encode<W: Writer>(&self, encoder: &mut Encoder<W>) -> (r: Result<(), EncodeError>) {
        match encode_slice_len(encoder, self.len()) {
            Ok(()) => {},
            Err(e) => {
                return Err(e);
            },
        }
        match encoder.write_slice(self) {
            Ok(()) => {
                proof {
                    assert(old(encoder).stream() + len_enc_bytes(self@.len() as int, old(
                        encoder,
                    ).cfg()) + self@ =~= old(encoder).stream() + Self::enc_bytes(
                        self.deep_view(),
                        old(encoder).cfg(),
                    ));
                }
                Ok(())
            },
            Err(e) => Err(e),
        }
    }
}

impl<'a> EncodedSize for &'a [u8] {
    fn encoded_size(&self, config: Config) -> (r: Result<usize, EncodeError>) {
        let prefix = size_slice_len(self.len(), config);
        if self.len() <= usize::MAX - prefix {
            Ok(prefix + self.len())
        } else {
            Err(EncodeError::SizeOverflow)
        }
    }
}

impl<'de> BorrowDecode<'de> for &'de [u8] {
    open spec fn bdec_full(s: Seq<u8>, c: Config, b: Limit) -> Result<
        (Seq<u8>, int, Limit),
        DecodeError,
    > {
        bytestring_dec_full(s, c, b)
    }

    open spec fn bclaim_width() -> int {
        16
    }

    fn bclaim_width_exec() -> (w: usize) {
        16
    }

    proof fn bdec_full_sound(s: Seq<u8>, c: Config, b: Limit) {
        lemma_bytestring_dec_sound(s, c, b);
    }

    fn borrow_decode<R: BorrowReader<'de>>(decoder: &mut Decoder<R>) -> (r: Result<
        &'de [u8],
        DecodeError,
    >) {
        let len = match decode_slice_len(decoder) {
            Ok(l) => l,
            Err(e) => {
                return Err(e);
            },
        };
        match decoder.claim_bytes_read(len) {
            Ok(()) => {},
            Err(e) => {
                return Err(e);
            },
        }
        let ghost s1 = decoder.remaining();
        match decoder.borrow_bytes(len) {
            Ok(out) => {
                proof {
                    lemma_pow256_128_bits();
                    lemma_uint_dec_fits(old(decoder).remaining(), 8, old(decoder).cfg());
                    assert(out.deep_view() =~= s1.take(len as int));
                    assert(s1.skip(len as int) =~= old(decoder).remaining().skip(
                        (old(decoder).remaining().len() - s1.len()) + len,
                    ));
                }
                Ok(out)
            },
            Err(e) => Err(e),
        }
    }
}

/// Relies on `str::from_utf8`: it borrows the given bytes as text exactly
/// when they are valid UTF-8, and rejects them otherwise; the rejection is
/// mapped to this crate's text error.
#[verifier::external_body]
fn str_from_utf8<'a>(bytes: &'a [u8]) -> (r: Result<&'a str, DecodeError>)
    ensures
        match r {
            Ok(s) => valid_utf8(bytes@) && s@ == decode_utf8(bytes@),
            Err(e) => !valid_utf8(bytes@) && e == DecodeError::Utf8,
        },
{
    match core::str::from_utf8(bytes) {
        Ok(s) => Ok(s),
        Err(_) => Err(DecodeError::Utf8),
    }
}

impl<'a> Encode for &'a str {
    open spec fn enc_bytes(m: Seq<char>, c: Config) -> Seq<u8> {
        bytestring_enc_bytes(encode_utf8(m), c)
    }

    fn encode<W: Writer>(&self, encoder: &mut Encoder<W>) -> (r: Result<(), EncodeError>) {
        let bytes = self.as_bytes();
        match encode_slice_len(encoder, bytes.len()) {
            Ok(()) => {},
            Err(e) => {
                return Err(e);
            },
        }
        match encoder.write_slice(bytes) {
            Ok(()) => {
                proof {
                    assert(old(encoder).stream() + len_enc_bytes(bytes@.len() as int, old(
                        encoder,
                    ).cfg()) + bytes@ =~= old(encoder).stream() + Self::enc_bytes(
                        self.deep_view(),
                        old(encoder).cfg(),
                    ));
                }
                Ok(())
            },
            Err(e) => Err(e),
        }
    }
}

impl<'a> EncodedSize for &'a str {
    fn encoded_size(&self, config: Config) -> (r: Result<usize, EncodeError>) {
        let bytes = self.as_bytes();
        let prefix = size_slice_len(bytes.len(), config);
        if bytes.len() <= usize::MAX - prefix {
            Ok(prefix + bytes.len())
        } else {
            Err(EncodeError::SizeOverflow)
        }
    }
}

impl<'de> BorrowDecode<'de> for &'de str {
    open spec fn bdec_full(s: Seq<u8>, c: Config, b: Limit) -> Result<
        (Seq<char>, int, Limit),
        DecodeError,
    > {
        <String as Decode>::dec_full(s, c, b)
    }

    open spec fn bclaim_width() -> int {
        16
    }

    fn bclaim_width_exec() -> (w: usize) {
        16
    }

    proof fn bdec_full_sound(s: Seq<u8>, c: Config, b: Limit) {
        <String as Decode>::dec_full_sound(s, c, b);
    }

    fn borrow_decode<R: BorrowReader<'de>>(decoder: &mut Decoder<R>) -> (r: Result<
        &'de str,
        DecodeError,
    >) {
        let bytes = match <&'de [u8] as BorrowDecode<'de>>::borrow_decode(decoder) {
            Ok(b) => b,
            Err(e) => {
                return Err(e);
            },
        };
        proof {
            assert(bytes@ =~= bytes.deep_view());
        }
        str_from_utf8(bytes)
    }
}

} // verus!
