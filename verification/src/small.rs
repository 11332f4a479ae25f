//! Small-vector values: dynamically sized sequences that store a few items
//! inline before spilling to the heap. The storage is the `smallvec`
//! crate's; this crate holds it behind an opaque wrapper per instantiation,
//! with the contents named by a spec function, and encodes it on the wire
//! exactly as the corresponding dynamic array.

use vstd::prelude::*;
use vstd::slice::slice_to_vec;

use crate::config::{Config, Limit};
use crate::de::{BorrowDecode, BorrowReader, Decode, Decoder, Reader};
use crate::enc::{Encode, EncodedSize, Encoder, Writer};
use crate::error::{DecodeError, EncodeError};
use crate::laws::{BorrowAgrees, Lossless};

verus! {

/// A sequence of 32-bit words with room for 8 inline.
#[verifier::external_body]
pub struct SmallU32x8 {
    inner: smallvec::SmallVec<[u32; 8]>,
}

/// The items a [`SmallU32x8`] holds, in order.
pub uninterp spec fn small_u32x8_view(v: SmallU32x8) -> Seq<u32>;

impl DeepView for SmallU32x8 {
    type V = Seq<u32>;

    open spec fn deep_view(&self) -> Seq<u32> {
        small_u32x8_view(*self)
    }
}

impl SmallU32x8 {
    /// Relies on `SmallVec::from_vec`: the result holds exactly the
    /// vector's items, reusing its storage or copying them inline.
    #[verifier::external_body]
    pub fn from_vec(v: Vec<u32>) -> (s: SmallU32x8)
        ensures
            small_u32x8_view(s) == v@,
    {
        SmallU32x8 { inner: smallvec::SmallVec::from_vec(v) }
    }

    /// Relies on `SmallVec::as_slice`: all items, in order.
    #[verifier::external_body]
    pub fn as_slice(&self) -> (s: &[u32])
        ensures
            s@ == small_u32x8_view(*self),
    {
        self.inner.as_slice()
    }
}

impl Encode for SmallU32x8 {
    open spec fn enc_bytes(m: Seq<u32>, c: Config) -> Seq<u8> {
        <Vec<u32> as Encode>::enc_bytes(m, c)
    }

    fn encode<W: Writer>(&self, encoder: &mut Encoder<W>) -> (r: Result<(), EncodeError>) {
        let v = slice_to_vec(self.as_slice());
        proof {
            assert(v.deep_view() =~= self.deep_view());
        }
        v.encode(encoder)
    }
}

impl EncodedSize for SmallU32x8 {
    fn encoded_size(&self, config: Config) -> (r: Result<usize, EncodeError>) {
        let v = slice_to_vec(self.as_slice());
        proof {
            assert(v.deep_view() =~= self.deep_view());
        }
        v.encoded_size(config)
    }
}

impl Decode for SmallU32x8 {
    open spec fn dec_full(s: Seq<u8>, c: Config, b: Limit) -> Result<
        (Seq<u32>, int, Limit),
        DecodeError,
    > {
        <Vec<u32> as Decode>::dec_full(s, c, b)
    }

    open spec fn claim_width() -> int {
        40
    }

    fn claim_width_exec() -> (w: usize) {
        40
    }

    proof fn dec_full_sound(s: Seq<u8>, c: Config, b: Limit) {
        <Vec<u32> as Decode>::dec_full_sound(s, c, b);
    }

    fn decode<R: Reader>(decoder: &mut Decoder<R>) -> (r: Result<SmallU32x8, DecodeError>) {
        match <Vec<u32> as Decode>::decode(decoder) {
            Ok(v) => {
                proof {
                    assert(v.deep_view() =~= v@);
                }
                Ok(SmallU32x8::from_vec(v))
            },
            Err(e) => Err(e),
        }
    }
}

impl<'de> BorrowDecode<'de> for SmallU32x8 {
    open spec fn bdec_full(s: Seq<u8>, c: Config, b: Limit) -> Result<
        (Seq<u32>, int, Limit),
        DecodeError,
    > {
        <SmallU32x8 as Decode>::dec_full(s, c, b)
    }

    open spec fn bclaim_width() -> int {
        40
    }

    fn bclaim_width_exec() -> (w: usize) {
        40
    }

    proof fn bdec_full_sound(s: Seq<u8>, c: Config, b: Limit) {
        <SmallU32x8 as Decode>::dec_full_sound(s, c, b);
    }

    fn borrow_decode<R: BorrowReader<'de>>(decoder: &mut Decoder<R>) -> (r: Result<
        SmallU32x8,
        DecodeError,
    >) {
        <SmallU32x8 as Decode>::decode(decoder)
    }
}

impl Lossless for SmallU32x8 {
    open spec fn enc_wf(m: Seq<u32>) -> bool {
        m.len() <= usize::MAX
    }

    proof fn lemma_round_trip(m: Seq<u32>, rest: Seq<u8>, c: Config) {
        <Vec<u32> as Lossless>::lemma_round_trip(m, rest, c);
    }
}

impl<'de> BorrowAgrees<'de> for SmallU32x8 {
    proof fn lemma_borrow_agrees(s: Seq<u8>, c: Config, b: Limit) {
    }
}

/// A sequence of 32-bit words with room for 2 inline; it spills to the heap
/// past that, with the same wire format as any other word sequence.
#[verifier::external_body]
pub struct SmallU32x2 {
    inner: smallvec::SmallVec<[u32; 2]>,
}

/// The items a [`SmallU32x2`] holds, in order.
pub uninterp spec fn small_u32x2_view(v: SmallU32x2) -> Seq<u32>;

impl DeepView for SmallU32x2 {
    type V = Seq<u32>;

    open spec fn deep_view(&self) -> Seq<u32> {
        small_u32x2_view(*self)
    }
}

impl SmallU32x2 {
    /// Relies on `SmallVec::from_vec`: the result holds exactly the
    /// vector's items, reusing its storage or copying them inline.
    #[verifier::external_body]
    pub fn from_vec(v: Vec<u32>) -> (s: SmallU32x2)
        ensures
            small_u32x2_view(s) == v@,
    {
        SmallU32x2 { inner: smallvec::SmallVec::from_vec(v) }
    }

    /// Relies on `SmallVec::as_slice`: all items, in order.
    #[verifier::external_body]
    pub fn as_slice(&self) -> (s: &[u32])
        ensures
            s@ == small_u32x2_view(*self),
    {
        self.inner.as_slice()
    }
}

impl Encode for SmallU32x2 {
    open spec fn enc_bytes(m: Seq<u32>, c: Config) -> Seq<u8> {
        <Vec<u32> as Encode>::enc_bytes(m, c)
    }

    fn encode<W: Writer>(&self, encoder: &mut Encoder<W>) -> (r: Result<(), EncodeError>) {
        let v = slice_to_vec(self.as_slice());
        proof {
            assert(v.deep_view() =~= self.deep_view());
        }
        v.encode(encoder)
    }
}

impl EncodedSize for SmallU32x2 {
    fn encoded_size(&self, config: Config) -> (r: Result<usize, EncodeError>) {
        let v = slice_to_vec(self.as_slice());
        proof {
            assert(v.deep_view() =~= self.deep_view());
        }
        v.encoded_size(config)
    }
}

impl Decode for SmallU32x2 {
    open spec fn dec_full(s: Seq<u8>, c: Config, b: Limit) -> Result<
        (Seq<u32>, int, Limit),
        DecodeError,
    > {
        <Vec<u32> as Decode>::dec_full(s, c, b)
    }

    open spec fn claim_width() -> int {
        16
    }

    fn claim_width_exec() -> (w: usize) {
        16
    }

    proof fn dec_full_sound(s: Seq<u8>, c: Config, b: Limit) {
        <Vec<u32> as Decode>::dec_full_sound(s, c, b);
    }

    fn decode<R: Reader>(decoder: &mut Decoder<R>) -> (r: Result<SmallU32x2, DecodeError>) {
        match <Vec<u32> as Decode>::decode(decoder) {
            Ok(v) => {
                proof {
                    assert(v.deep_view() =~= v@);
                }
                Ok(SmallU32x2::from_vec(v))
            },
            Err(e) => Err(e),
        }
    }
}

impl Lossless for SmallU32x2 {
    open spec fn enc_wf(m: Seq<u32>) -> bool {
        m.len() <= usize::MAX
    }

    proof fn lemma_round_trip(m: Seq<u32>, rest: Seq<u8>, c: Config) {
        <Vec<u32> as Lossless>::lemma_round_trip(m, rest, c);
    }
}

/// A byte sequence with room for 24 bytes inline.
#[verifier::external_body]
pub struct SmallU8x24 {
    inner: smallvec::SmallVec<[u8; 24]>,
}

/// The bytes a [`SmallU8x24`] holds, in order.
pub uninterp spec fn small_u8x24_view(v: SmallU8x24) -> Seq<u8>;

impl DeepView for SmallU8x24 {
    type V = Seq<u8>;

    open spec fn deep_view(&self) -> Seq<u8> {
        small_u8x24_view(*self)
    }
}

impl SmallU8x24 {
    /// Relies on `SmallVec::from_vec`: the result holds exactly the
    /// vector's items, reusing its storage or copying them inline.
    #[verifier::external_body]
    pub fn from_vec(v: Vec<u8>) -> (s: SmallU8x24)
        ensures
            small_u8x24_view(s) == v@,
    {
        SmallU8x24 { inner: smallvec::SmallVec::from_vec(v) }
    }

    /// Relies on `SmallVec::as_slice`: all bytes, in order.
    #[verifier::external_body]
    pub fn as_slice(&self) -> (s: &[u8])
        ensures
            s@ == small_u8x24_view(*self),
    {
        self.inner.as_slice()
    }
}

impl Encode for SmallU8x24 {
    open spec fn enc_bytes(m: Seq<u8>, c: Config) -> Seq<u8> {
        <Vec<u8> as Encode>::enc_bytes(m, c)
    }

    fn encode<W: Writer>(&self, encoder: &mut Encoder<W>) -> (r: Result<(), EncodeError>) {
        let v = slice_to_vec(self.as_slice());
        proof {
            assert(v.deep_view() =~= self.deep_view());
        }
        v.encode(encoder)
    }
}

impl EncodedSize for SmallU8x24 {
    fn encoded_size(&self, config: Config) -> (r: Result<usize, EncodeError>) {
        let v = slice_to_vec(self.as_slice());
        proof {
            assert(v.deep_view() =~= self.deep_view());
        }
        v.encoded_size(config)
    }
}

impl Decode for SmallU8x24 {
    open spec fn dec_full(s: Seq<u8>, c: Config, b: Limit) -> Result<
        (Seq<u8>, int, Limit),
        DecodeError,
    > {
        <Vec<u8> as Decode>::dec_full(s, c, b)
    }

    open spec fn claim_width() -> int {
        32
    }

    fn claim_width_exec() -> (w: usize) {
        32
    }

    proof fn dec_full_sound(s: Seq<u8>, c: Config, b: Limit) {
        <Vec<u8> as Decode>::dec_full_sound(s, c, b);
    }

    fn decode<R: Reader>(decoder: &mut Decoder<R>) -> (r: Result<SmallU8x24, DecodeError>) {
        match <Vec<u8> as Decode>::decode(decoder) {
            Ok(v) => {
                proof {
                    assert(v.deep_view() =~= v@);
                }
                Ok(SmallU8x24::from_vec(v))
            },
            Err(e) => Err(e),
        }
    }
}

impl Lossless for SmallU8x24 {
    open spec fn enc_wf(m: Seq<u8>) -> bool {
        m.len() <= usize::MAX
    }

    proof fn lemma_round_trip(m: Seq<u8>, rest: Seq<u8>, c: Config) {
        <Vec<u8> as Lossless>::lemma_round_trip(m, rest, c);
    }
}

} // verus!
