//! The value contract for boxed values: ownership is a thin final step, not
//! part of the codec. A boxed value has exactly the wire format of its
//! inner value; decoding decodes the owned inner value and then wraps it.

use vstd::prelude::*;

use crate::config::{Config, Limit};
use crate::de::{BorrowDecode, BorrowReader, Decode, Decoder, Reader};
use crate::enc::{Encode, EncodedSize, Encoder, Writer};
use crate::error::{DecodeError, EncodeError};
use crate::laws::{BorrowAgrees, Lossless};

verus! {

impl<'a, T: Encode> Encode for &'a T {
    open spec fn enc_bytes(m: T::V, c: Config) -> Seq<u8> {
        T::enc_bytes(m, c)
    }

    fn encode<W: Writer>(&self, encoder: &mut Encoder<W>) -> (r: Result<(), EncodeError>) {
        (*self).encode(encoder)
    }
}

impl<'a, T: EncodedSize> EncodedSize for &'a T {
    fn encoded_size(&self, config: Config) -> (r: Result<usize, EncodeError>) {
        (*self).encoded_size(config)
    }
}

impl<T: Encode> Encode for Box<T> {
    open spec fn enc_bytes(m: T::V, c: Config) -> Seq<u8> {
        T::enc_bytes(m, c)
    }

    fn encode<W: Writer>(&self, encoder: &mut Encoder<W>) -> (r: Result<(), EncodeError>) {
        let inner: &T = &*self;
        inner.encode(encoder)
    }
}

impl<T: EncodedSize> EncodedSize for Box<T> {
    fn encoded_size(&self, config: Config) -> (r: Result<usize, EncodeError>) {
        let inner: &T = &*self;
        inner.encoded_size(config)
    }
}

impl<T: Decode> Decode for Box<T> {
    open spec fn dec_full(s: Seq<u8>, c: Config, b: Limit) -> Result<
        (T::V, int, Limit),
        DecodeError,
    > {
        T::dec_full(s, c, b)
    }

    open spec fn claim_width() -> int {
        8
    }

    fn claim_width_exec() -> (w: usize) {
        8
    }

    proof fn dec_full_sound(s: Seq<u8>, c: Config, b: Limit) {
        T::dec_full_sound(s, c, b);
    }

    fn decode<R: Reader>(decoder: &mut Decoder<R>) -> (r: Result<Box<T>, DecodeError>) {
        match T::decode(decoder) {
            Ok(v) => Ok(Box::new(v)),
            Err(e) => Err(e),
        }
    }
}

impl<'de, T: BorrowDecode<'de>> BorrowDecode<'de> for Box<T> {
    open spec fn bdec_full(s: Seq<u8>, c: Config, b: Limit) -> Result<
        (T::V, int, Limit),
        DecodeError,
    > {
        T::bdec_full(s, c, b)
    }

    open spec fn bclaim_width() -> int {
        8
    }

    fn bclaim_width_exec() -> (w: usize) {
        8
    }

    proof fn bdec_full_sound(s: Seq<u8>, c: Config, b: Limit) {
        T::bdec_full_sound(s, c, b);
    }

    fn borrow_decode<R: BorrowReader<'de>>(decoder: &mut Decoder<R>) -> (r: Result<
        Box<T>,
        DecodeError,
    >) {
        match T::borrow_decode(decoder) {
            Ok(v) => Ok(Box::new(v)),
            Err(e) => Err(e),
        }
    }
}

impl<T: Lossless> Lossless for Box<T> {
    open spec fn enc_wf(m: T::V) -> bool {
        T::enc_wf(m)
    }

    proof fn lemma_round_trip(m: T::V, rest: Seq<u8>, c: Config) {
        T::lemma_round_trip(m, rest, c);
    }
}

impl<'de, T: BorrowAgrees<'de>> BorrowAgrees<'de> for Box<T> {
    proof fn lemma_borrow_agrees(s: Seq<u8>, c: Config, b: Limit) {
        T::lemma_borrow_agrees(s, c, b);
    }
}

} // verus!
