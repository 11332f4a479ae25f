//! A compact binary serialization codec: a reversible mapping between
//! structured in-memory values and a dense byte representation, parameterized
//! by a configuration that controls numeric width, endianness, and a resource
//! budget for decoding untrusted input.

use vstd::prelude::*;

pub mod arrays;
pub mod boxed;
pub mod budget;
pub mod bytestr;
pub mod collect;
pub mod config;
pub mod de;
pub mod deque;
pub mod enc;
pub mod error;
pub mod laws;
pub mod options;
pub mod prims;
pub mod shared;
pub mod small;
pub mod varint;
pub mod wire;

use crate::config::Config;
use crate::de::{BorrowDecode, Decode, Decoder, SliceReader};
use crate::enc::{Encode, EncodedSize, Encoder, VecWriter, Writer};
use crate::error::{DecodeError, EncodeError};

verus! {

/// Encode the given value into a byte vector under the given configuration.
pub fn encode_to_vec<E: Encode>(val: E, config: Config) -> (r: Result<Vec<u8>, EncodeError>)
    ensures
        r matches Ok(out) && out@ == E::enc_bytes(val.deep_view(), config),
{
    let writer = VecWriter::new();
    let mut encoder = Encoder::new(writer, config);
    match val.encode(&mut encoder) {
        Ok(()) => {
            let out = encoder.into_writer().collect();
            proof {
                assert(out@ =~= E::enc_bytes(val.deep_view(), config));
            }
            Ok(out)
        },
        Err(e) => Err(e),
    }
}

/// Encode the given value into the given byte sink, which is returned on
/// success with the encoding appended.
pub fn encode_into_writer<E: Encode, W: Writer>(val: E, writer: W, config: Config) -> (r: Result<
    W,
    EncodeError,
>)
    ensures
        match r {
            Ok(w2) => w2.stream() == writer.stream() + E::enc_bytes(val.deep_view(), config),
            Err(_) => true,
        },
        W::never_fails() ==> r is Ok,
{
    let mut encoder = Encoder::new(writer, config);
    match val.encode(&mut encoder) {
        Ok(()) => Ok(encoder.into_writer()),
        Err(e) => Err(e),
    }
}

/// Compute, without writing, the exact byte count encoding the value would
/// produce under the given configuration.
pub fn encoded_size<E: EncodedSize>(val: &E, config: Config) -> (r: Result<usize, EncodeError>)
    ensures
        match r {
            Ok(n) => n as int == E::enc_bytes(val.deep_view(), config).len(),
            Err(e) => {
                &&& e == EncodeError::SizeOverflow
                &&& E::enc_bytes(val.deep_view(), config).len() > usize::MAX
            },
        },
{
    val.encoded_size(config)
}

/// Decode an owned value from the front of the given buffer, with a fresh
/// read budget taken from the configuration; returns the value and the
/// number of bytes read.
pub fn decode_from_slice<D: Decode>(src: &[u8], config: Config) -> (r: Result<
    (D, usize),
    DecodeError,
>)
    ensures
        match D::dec_full(src@, config, config.limit) {
            Ok((m, n, b2)) => r matches Ok(p) && p.0.deep_view() == m && p.1 as int == n,
            Err(e) => r matches Err(e2) && e2 == e,
        },
{
    let src_len = src.len();
    let reader = SliceReader::new(src);
    let mut decoder = Decoder::new(reader, config);
    proof {
        D::dec_full_sound(src@, config, config.limit);
    }
    match D::decode(&mut decoder) {
        Ok(v) => {
            let n = src_len - decoder.reader.len();
            Ok((v, n))
        },
        Err(e) => Err(e),
    }
}

/// Decode an owned value from the given byte source, with a fresh read
/// budget taken from the configuration.
pub fn decode_from_reader<D: Decode, R: crate::de::Reader>(reader: R, config: Config) -> (r:
    Result<D, DecodeError>)
    ensures
        match D::dec_full(reader.remaining(), config, config.limit) {
            Ok((m, n, b2)) => r matches Ok(v) && v.deep_view() == m,
            Err(e) => r matches Err(e2) && e2 == e,
        },
{
    let mut decoder = Decoder::new(reader, config);
    D::decode(&mut decoder)
}

/// Decode a possibly-borrowing value from the front of the given buffer;
/// borrowed fields alias the buffer, with no copy.
pub fn borrow_decode_from_slice<'de, D: BorrowDecode<'de>>(src: &'de [u8], config: Config) -> (r:
    Result<(D, usize), DecodeError>)
    ensures
        match D::bdec_full(src@, config, config.limit) {
            Ok((m, n, b2)) => r matches Ok(p) && p.0.deep_view() == m && p.1 as int == n,
            Err(e) => r matches Err(e2) && e2 == e,
        },
{
    let src_len = src.len();
    let reader = SliceReader::new(src);
    let mut decoder = Decoder::new(reader, config);
    proof {
        D::bdec_full_sound(src@, config, config.limit);
    }
    match D::borrow_decode(&mut decoder) {
        Ok(v) => {
            let n = src_len - decoder.reader.len();
            Ok((v, n))
        },
        Err(e) => Err(e),
    }
}

} // verus!
