//! The value contract for shared-ownership values: a reference-counted
//! value decodes by decoding the owned inner value and wrapping it; the
//! wire format is exactly the inner value's.

use vstd::prelude::*;

use std::rc::Rc;
use std::sync::Arc;

use crate::config::{Config, Limit};
use crate::de::{Decode, Decoder, Reader};
use crate::enc::{Encode, EncodedSize, Encoder, Writer};
use crate::error::{DecodeError, EncodeError};
use crate::laws::Lossless;

verus! {

impl<T: Encode> Encode for Rc<T> {
    open spec fn enc_bytes(m: T::V, c: Config) -> Seq<u8> {
        T::enc_bytes(m, c)
    }

    fn encode<W: Writer>(&self, encoder: &mut Encoder<W>) -> (r: Result<(), EncodeError>) {
        let inner: &T = &*self;
        inner.encode(encoder)
    }
}

impl<T: EncodedSize> EncodedSize for Rc<T> {
    fn encoded_size(&self, config: Config) -> (r: Result<usize, EncodeError>) {
        let inner: &T = &*self;
        inner.encoded_size(config)
    }
}

impl<T: Decode> Decode for Rc<T> {
    open spec fn dec_full(s: Seq<u8>, c: Config, b: Limit) -> Result<
        (T::V, int, Limit),
        DecodeError,
    > {
        T::dec_full(s, c, b)
    }

    open spec fn claim_width() -> int {
        8
    }

    fn claim_width_exec() -> (w: usize) {
        8
    }

    proof fn dec_full_sound(s: Seq<u8>, c: Config, b: Limit) {
        T::dec_full_sound(s, c, b);
    }

    fn decode<R: Reader>(decoder: &mut Decoder<R>) -> (r: Result<Rc<T>, DecodeError>) {
        match T::decode(decoder) {
            Ok(v) => Ok(Rc::new(v)),
            Err(e) => Err(e),
        }
    }
}

impl<T: Lossless> Lossless for Rc<T> {
    open spec fn enc_wf(m: T::V) -> bool {
        T::enc_wf(m)
    }

    proof fn lemma_round_trip(m: T::V, rest: Seq<u8>, c: Config) {
        T::lemma_round_trip(m, rest, c);
    }
}

impl<T: Encode> Encode for Arc<T> {
    open spec fn enc_bytes(m: T::V, c: Config) -> Seq<u8> {
        T::enc_bytes(m, c)
    }

    fn encode<W: Writer>(&self, encoder: &mut Encoder<W>) -> (r: Result<(), EncodeError>) {
        let inner: &T = &*self;
        inner.encode(encoder)
    }
}

impl<T: EncodedSize> EncodedSize for Arc<T> {
    fn encoded_size(&self, config: Config) -> (r: Result<usize, EncodeError>) {
        let inner: &T = &*self;
        inner.encoded_size(config)
    }
}

impl<T: Decode> Decode for Arc<T> {
    open spec fn dec_full(s: Seq<u8>, c: Config, b: Limit) -> Result<
        (T::V, int, Limit),
        DecodeError,
    > {
        T::dec_full(s, c, b)
    }

    open spec fn claim_width() -> int {
        8
    }

    fn claim_width_exec() -> (w: usize) {
        8
    }

    proof fn dec_full_sound(s: Seq<u8>, c: Config, b: Limit) {
        T::dec_full_sound(s, c, b);
    }

    fn decode<R: Reader>(decoder: &mut Decoder<R>) -> (r: Result<Arc<T>, DecodeError>) {
        match T::decode(decoder) {
            Ok(v) => Ok(Arc::new(v)),
            Err(e) => Err(e),
        }
    }
}

impl<T: Lossless> Lossless for Arc<T> {
    open spec fn enc_wf(m: T::V) -> bool {
        T::enc_wf(m)
    }

    proof fn lemma_round_trip(m: T::V, rest: Seq<u8>, c: Config) {
        T::lemma_round_trip(m, rest, c);
    }
}

} // verus!
