//! The encode engine: the abstract byte-sink capability, the growable
//! in-memory sink, the Encoder that pairs a sink with a configuration, and
//! the value contracts for writing (`Encode`) and for computing an encoded
//! size without writing (`EncodedSize`).

use vstd::prelude::*;

use crate::config::Config;
use crate::error::EncodeError;
use crate::wire::{lemma_uint_enc_size, uint_enc_bytes, uint_encode};
use crate::varint::{lemma_pow256_128_bits, varint_size_usize};

verus! {

/// Abstract byte sink: the capability the engine writes to. A write either
/// fully consumes the bytes or fails leaving the stream unchanged; partial
/// writes are not a defined outcome.
pub trait Writer: Sized {
    /// The bytes this sink has accepted so far.
    spec fn stream(&self) -> Seq<u8>;

    /// Whether this sink accepts every write.
    spec fn never_fails() -> bool;

    /// Append `bytes` to the stream, fully or not at all.
    fn write(&mut self, bytes: &[u8]) -> (r: Result<(), EncodeError>)
        ensures
            match r {
                Ok(()) => final(self).stream() == old(self).stream() + bytes@,
                Err(_) => final(self).stream() == old(self).stream(),
            },
            Self::never_fails() ==> r is Ok,
    ;
}

/// A growable in-memory byte sink; it accepts every write.
pub struct VecWriter {
    pub inner: Vec<u8>,
}

impl VecWriter {
    pub fn new() -> (w: VecWriter)
        ensures
            w.stream() == Seq::<u8>::empty(),
    {
        VecWriter { inner: Vec::new() }
    }

    /// Hand out the collected bytes.
    pub fn collect(self) -> (out: Vec<u8>)
        ensures
            out@ == self.stream(),
    {
        self.inner
    }
}

impl Writer for VecWriter {
    open spec fn stream(&self) -> Seq<u8> {
        self.inner@
    }

    open spec fn never_fails() -> bool {
        true
    }

    fn write(&mut self, bytes: &[u8]) -> (r: Result<(), EncodeError>) {
        let mut i: usize = 0;
        while i < bytes.len()
            invariant
                i <= bytes@.len(),
                self.inner@ == old(self).inner@ + bytes@.take(i as int),
            decreases bytes@.len() - i,
        {
            let b = bytes[i];
            self.inner.push(b);
            i = i + 1;
            proof {
                assert(old(self).inner@ + bytes@.take(i as int) =~= self.inner@);
            }
        }
        proof {
            assert(old(self).inner@ + bytes@.take(bytes@.len() as int) =~= old(self).inner@
                + bytes@);
        }
        Ok(())
    }
}

/// Pairs a Writer with a Configuration; the entry point values call into to
/// serialize themselves. It only forwards to the Writer, never buffering
/// internally.
pub struct Encoder<W: Writer> {
    pub writer: W,
    pub config: Config,
}

impl<W: Writer> Encoder<W> {
    /// The bytes written so far.
    pub open spec fn stream(&self) -> Seq<u8> {
        self.writer.stream()
    }

    /// The configuration in effect for this encode call.
    pub open spec fn cfg(&self) -> Config {
        self.config
    }

    pub fn new(writer: W, config: Config) -> (e: Encoder<W>)
        ensures
            e.stream() == writer.stream(),
            e.cfg() == config,
    {
        Encoder { writer, config }
    }

    /// The configuration, as a value.
    pub fn config(&self) -> (c: Config)
        ensures
            c == self.cfg(),
    {
        self.config
    }

    /// Forward a byte span to the Writer, with no copy or internal buffer.
    pub fn write_slice(&mut self, bytes: &[u8]) -> (r: Result<(), EncodeError>)
        ensures
            final(self).cfg() == old(self).cfg(),
            match r {
                Ok(()) => final(self).stream() == old(self).stream() + bytes@,
                Err(_) => final(self).stream() == old(self).stream(),
            },
            W::never_fails() ==> r is Ok,
    {
        self.writer.write(bytes)
    }

    /// Forward an owned byte vector to the Writer.
    pub fn write_vec(&mut self, bytes: Vec<u8>) -> (r: Result<(), EncodeError>)
        ensures
            final(self).cfg() == old(self).cfg(),
            match r {
                Ok(()) => final(self).stream() == old(self).stream() + bytes@,
                Err(_) => final(self).stream() == old(self).stream(),
            },
            W::never_fails() ==> r is Ok,
    {
        self.writer.write(bytes.as_slice())
    }

    /// Recover the Writer when the encode call is done.
    pub fn into_writer(self) -> (w: W)
        ensures
            w.stream() == self.stream(),
    {
        self.writer
    }
}

/// A value that can write itself through an Encoder.
///
/// The contract is exact: on success the stream has grown by precisely
/// `enc_bytes` of the value's model, and with a sink that accepts every
/// write, success is owed.
pub trait Encode: DeepView {
    /// The encoding of a value with model `m` under configuration `c`.
    spec fn enc_bytes(m: Self::V, c: Config) -> Seq<u8>;

    /// Write `self` through the encoder.
    fn encode<W: Writer>(&self, encoder: &mut Encoder<W>) -> (r: Result<(), EncodeError>)
        ensures
            final(encoder).cfg() == old(encoder).cfg(),
            match r {
                Ok(()) => final(encoder).stream() == old(encoder).stream() + Self::enc_bytes(
                    self.deep_view(),
                    old(encoder).cfg(),
                ),
                Err(_) => true,
            },
            W::never_fails() ==> r is Ok,
    ;
}

/// The capability to compute, without writing, the exact byte count
/// `Encode` would produce for this value under a given configuration.
pub trait EncodedSize: Encode {
    /// Compute the encoded size; it always equals the real encoded length.
    fn encoded_size(&self, config: Config) -> (r: Result<usize, EncodeError>)
        ensures
            match r {
                Ok(n) => n as int == Self::enc_bytes(self.deep_view(), config).len(),
                Err(e) => {
                    &&& e == EncodeError::SizeOverflow
                    &&& Self::enc_bytes(self.deep_view(), config).len() > usize::MAX
                },
            },
    ;
}

/// The wire bytes of a length prefix: a `usize` length, encoded as a 64-bit
/// unsigned integer.
pub open spec fn len_enc_bytes(len: int, c: Config) -> Seq<u8> {
    uint_enc_bytes(len, 8, c)
}

/// Write the length prefix of a sequence.
pub fn encode_slice_len<W: Writer>(encoder: &mut Encoder<W>, len: usize) -> (r: Result<
    (),
    EncodeError,
>)
    ensures
        final(encoder).cfg() == old(encoder).cfg(),
        match r {
            Ok(()) => final(encoder).stream() == old(encoder).stream() + len_enc_bytes(
                len as int,
                old(encoder).cfg(),
            ),
            Err(_) => true,
        },
        W::never_fails() ==> r is Ok,
{
    proof {
        lemma_pow256_128_bits();
    }
    let bytes = uint_encode(len as u64 as u128, 8, encoder.config());
    encoder.write_vec(bytes)
}

/// The byte count of a length prefix, without writing it.
pub fn size_slice_len(len: usize, config: Config) -> (r: usize)
    ensures
        r as int == len_enc_bytes(len as int, config).len(),
{
    proof {
        lemma_pow256_128_bits();
        lemma_uint_enc_size(len as int, 8, config);
    }
    match config.int_encoding {
        crate::config::IntEncoding::Varint => varint_size_usize(len),
        crate::config::IntEncoding::Fixed => 8,
    }
}

} // verus!
