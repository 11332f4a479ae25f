//! The decode engine: the abstract byte-source capability, the in-memory
//! slice source with its zero-copy borrow capability, the Decoder that pairs
//! a source with a configuration and a read budget, and the value contracts
//! for owned decoding (`Decode`) and zero-copy decoding (`BorrowDecode`).

use vstd::prelude::*;
use vstd::slice::{slice_subrange, slice_to_vec};

use crate::budget::{spec_claim, spec_claim_container, spec_release, ReadBudget};
use crate::config::{Config, IntEncoding, Limit};
use crate::error::DecodeError;
use crate::varint::{
    lemma_le_value_bound, lemma_pow256_128_bits, lemma_pow256_increases, le_value, pow256,
    untwos_complement, SINGLE_BYTE_MAX, TAG_U128, TAG_U16, TAG_U32, TAG_U64,
};
use crate::wire::{sint_dec, uint_dec};
use crate::config::Endianness;
use crate::varint::payload_value;

verus! {

/// Abstract byte source: the capability the engine reads from. A read either
/// fully delivers the requested bytes or fails leaving the source unchanged;
/// short reads are not a defined outcome.
pub trait Reader: Sized {
    /// The bytes not yet consumed.
    spec fn remaining(&self) -> Seq<u8>;

    /// Read exactly `n` bytes; fails exactly when fewer than `n` remain.
    fn read(&mut self, n: usize) -> (r: Result<Vec<u8>, DecodeError>)
        ensures
            match r {
                Ok(out) => {
                    &&& n <= old(self).remaining().len()
                    &&& out@ == old(self).remaining().take(n as int)
                    &&& final(self).remaining() == old(self).remaining().skip(n as int)
                },
                Err(e) => {
                    &&& e == DecodeError::UnexpectedEnd
                    &&& old(self).remaining().len() < n
                    &&& final(self).remaining() == old(self).remaining()
                },
            },
    ;
}

/// The borrow capability: a source backed by one contiguous in-memory buffer
/// that outlives the decode call can hand out slices aliasing that buffer.
pub trait BorrowReader<'de>: Reader {
    /// Take the next `n` bytes as a zero-copy slice into the backing buffer;
    /// fails exactly when fewer than `n` remain.
    fn take_bytes(&mut self, n: usize) -> (r: Result<&'de [u8], DecodeError>)
        ensures
            match r {
                Ok(out) => {
                    &&& n <= old(self).remaining().len()
                    &&& out@ == old(self).remaining().take(n as int)
                    &&& final(self).remaining() == old(self).remaining().skip(n as int)
                },
                Err(e) => {
                    &&& e == DecodeError::UnexpectedEnd
                    &&& old(self).remaining().len() < n
                    &&& final(self).remaining() == old(self).remaining()
                },
            },
    ;
}

/// A byte source backed by a single in-memory buffer; the one Reader of
/// this crate, and the one that offers the borrow capability.
pub struct SliceReader<'de> {
    pub rest: &'de [u8],
}

impl<'de> SliceReader<'de> {
    pub fn new(bytes: &'de [u8]) -> (r: SliceReader<'de>)
        ensures
            r.remaining() == bytes@,
    {
        SliceReader { rest: bytes }
    }

    /// How many bytes are left unconsumed.
    pub fn len(&self) -> (n: usize)
        ensures
            n == self.remaining().len(),
    {
        self.rest.len()
    }
}

impl<'de> Reader for SliceReader<'de> {
    open spec fn remaining(&self) -> Seq<u8> {
        self.rest@
    }

    fn read(&mut self, n: usize) -> (r: Result<Vec<u8>, DecodeError>) {
        if n <= self.rest.len() {
            let out = slice_to_vec(slice_subrange(self.rest, 0, n));
            self.rest = slice_subrange(self.rest, n, self.rest.len());
            proof {
                assert(out@ =~= old(self).remaining().take(n as int));
                assert(self.rest@ =~= old(self).remaining().skip(n as int));
            }
            Ok(out)
        } else {
            Err(DecodeError::UnexpectedEnd)
        }
    }
}

impl<'de> BorrowReader<'de> for SliceReader<'de> {
    fn take_bytes(&mut self, n: usize) -> (r: Result<&'de [u8], DecodeError>) {
        if n <= self.rest.len() {
            let out = slice_subrange(self.rest, 0, n);
            self.rest = slice_subrange(self.rest, n, self.rest.len());
            proof {
                assert(out@ =~= old(self).remaining().take(n as int));
                assert(self.rest@ =~= old(self).remaining().skip(n as int));
            }
            Ok(out)
        } else {
            Err(DecodeError::UnexpectedEnd)
        }
    }
}

/// Pairs a Reader with a Configuration and a Read Budget; the entry point
/// values call into to deserialize themselves. Each decode call owns its own
/// instance; nothing is shared across calls.
pub struct Decoder<R: Reader> {
    pub reader: R,
    pub config: Config,
    pub budget: ReadBudget,
}

impl<R: Reader> Decoder<R> {
    /// The bytes not yet consumed.
    pub open spec fn remaining(&self) -> Seq<u8> {
        self.reader.remaining()
    }

    /// The configuration in effect for this decode call.
    pub open spec fn cfg(&self) -> Config {
        self.config
    }

    /// What is left of the read budget.
    pub open spec fn budget_left(&self) -> Limit {
        self.budget.remaining
    }

    /// A fresh Decoder with a fresh budget taken from the configuration.
    pub fn new(reader: R, config: Config) -> (d: Decoder<R>)
        ensures
            d.remaining() == reader.remaining(),
            d.cfg() == config,
            d.budget_left() == config.limit,
    {
        Decoder { reader, config, budget: ReadBudget::new(config.limit) }
    }

    /// The configuration, as a value.
    pub fn config(&self) -> (c: Config)
        ensures
            c == self.cfg(),
    {
        self.config
    }

    /// Charge `n` bytes against the read budget.
    pub fn claim_bytes_read(&mut self, n: usize) -> (r: Result<(), DecodeError>)
        ensures
            final(self).cfg() == old(self).cfg(),
            final(self).remaining() == old(self).remaining(),
            match r {
                Ok(()) => spec_claim(old(self).budget_left(), n as int) == Some(
                    final(self).budget_left(),
                ),
                Err(e) => {
                    &&& e == DecodeError::LimitExceeded
                    &&& spec_claim(old(self).budget_left(), n as int) is None
                    &&& final(self).budget_left() == old(self).budget_left()
                },
            },
    {
        self.budget.claim(n)
    }

    /// Charge `width * len` bytes as a pessimistic bound for a container of
    /// `len` declared elements, before any element is read.
    pub fn claim_container_read(&mut self, width: usize, len: usize) -> (r: Result<
        (),
        DecodeError,
    >)
        ensures
            final(self).cfg() == old(self).cfg(),
            final(self).remaining() == old(self).remaining(),
            match r {
                Ok(()) => spec_claim_container(old(self).budget_left(), width as int, len as int)
                    == Some(final(self).budget_left()),
                Err(e) => {
                    &&& e == DecodeError::LimitExceeded
                    &&& spec_claim_container(
                        old(self).budget_left(),
                        width as int,
                        len as int,
                    ) is None
                    &&& final(self).budget_left() == old(self).budget_left()
                },
            },
    {
        self.budget.claim_container(width, len)
    }

    /// Refund `n` previously charged bytes, right before an element's own
    /// decode claims its actual cost.
    pub fn unclaim_bytes_read(&mut self, n: usize)
        ensures
            final(self).cfg() == old(self).cfg(),
            final(self).remaining() == old(self).remaining(),
            final(self).budget_left() == spec_release(old(self).budget_left(), n as int),
    {
        self.budget.release(n)
    }

    /// Read exactly `n` bytes from the source; the budget is untouched.
    pub fn read_bytes(&mut self, n: usize) -> (r: Result<Vec<u8>, DecodeError>)
        ensures
            final(self).cfg() == old(self).cfg(),
            final(self).budget_left() == old(self).budget_left(),
            match r {
                Ok(out) => {
                    &&& n <= old(self).remaining().len()
                    &&& out@ == old(self).remaining().take(n as int)
                    &&& final(self).remaining() == old(self).remaining().skip(n as int)
                },
                Err(e) => {
                    &&& e == DecodeError::UnexpectedEnd
                    &&& old(self).remaining().len() < n
                    &&& final(self).remaining() == old(self).remaining()
                },
            },
    {
        self.reader.read(n)
    }

    /// Read an unsigned integer of native width `w` from the source, under
    /// the configured scheme and endianness; the budget is untouched.
    pub fn read_uint(&mut self, w: usize) -> (r: Result<(u128, usize), DecodeError>)
        requires
            w == 2 || w == 4 || w == 8 || w == 16,
        ensures
            final(self).cfg() == old(self).cfg(),
            final(self).budget_left() == old(self).budget_left(),
            match uint_dec(old(self).remaining(), w as int, old(self).cfg()) {
                Ok((v, n)) => {
                    &&& r matches Ok(p) && p.0 == v && p.1 as int == n
                    &&& final(self).remaining() == old(self).remaining().skip(n)
                },
                Err(e) => r matches Err(e2) && e2 == e,
            },
    {
        let ghost s = self.remaining();
        match self.config.int_encoding {
            IntEncoding::Varint => {
                let tag_vec = self.read_bytes(1)?;
                let tag = tag_vec[0];
                proof {
                    assert(tag == s[0]);
                }
                if tag <= SINGLE_BYTE_MAX {
                    Ok((tag as u128, 1))
                } else {
                    let wt: usize = if tag == TAG_U16 {
                        2
                    } else if tag == TAG_U32 {
                        4
                    } else if tag == TAG_U64 {
                        8
                    } else if tag == TAG_U128 {
                        16
                    } else {
                        0
                    };
                    if wt == 0 || wt > w {
                        return Err(DecodeError::MalformedTag { found: tag });
                    }
                    let payload = self.read_bytes(wt)?;
                    proof {
                        assert(payload@ =~= s.subrange(1, 1 + wt as int));
                        assert(final(self).remaining() =~= s.skip(1 + wt as int));
                        lemma_pow256_128_bits();
                        lemma_pow256_increases(payload@.len() as nat, 16);
                        lemma_le_value_bound(payload@);
                        lemma_le_value_bound(payload@.reverse());
                    }
                    let v = payload_read(payload.as_slice(), self.config.endianness);
                    Ok((v, 1 + wt))
                }
            },
            IntEncoding::Fixed => {
                let payload = self.read_bytes(w)?;
                proof {
                    assert(payload@ =~= s.take(w as int));
                    lemma_pow256_128_bits();
                    lemma_pow256_increases(payload@.len() as nat, 16);
                    lemma_le_value_bound(payload@);
                    lemma_le_value_bound(payload@.reverse());
                }
                let v = payload_read(payload.as_slice(), self.config.endianness);
                Ok((v, w))
            },
        }
    }

    /// Read a signed integer of native width `w` from the source: the inline
    /// byte zigzagged, a payload as two's complement.
    pub fn read_sint(&mut self, w: usize) -> (r: Result<(i128, usize), DecodeError>)
        requires
            w == 2 || w == 4 || w == 8 || w == 16,
        ensures
            final(self).cfg() == old(self).cfg(),
            final(self).budget_left() == old(self).budget_left(),
            match sint_dec(old(self).remaining(), w as int, old(self).cfg()) {
                Ok((v, n)) => {
                    &&& r matches Ok(p) && p.0 == v && p.1 as int == n
                    &&& final(self).remaining() == old(self).remaining().skip(n)
                },
                Err(e) => r matches Err(e2) && e2 == e,
            },
    {
        let ghost s = self.remaining();
        proof {
            lemma_pow256_128_bits();
        }
        match self.config.int_encoding {
            IntEncoding::Varint => {
                let tag_vec = self.read_bytes(1)?;
                let tag = tag_vec[0];
                proof {
                    assert(tag == s[0]);
                }
                if tag <= SINGLE_BYTE_MAX {
                    let v: i128 = if tag % 2 == 0 {
                        (tag / 2) as i128
                    } else {
                        -(((tag + 1) / 2) as i128)
                    };
                    Ok((v, 1))
                } else {
                    let wt: usize = if tag == TAG_U16 {
                        2
                    } else if tag == TAG_U32 {
                        4
                    } else if tag == TAG_U64 {
                        8
                    } else if tag == TAG_U128 {
                        16
                    } else {
                        0
                    };
                    if wt == 0 || wt > w {
                        return Err(DecodeError::MalformedTag { found: tag });
                    }
                    let payload = self.read_bytes(wt)?;
                    proof {
                        assert(payload@ =~= s.subrange(1, 1 + wt as int));
                        assert(final(self).remaining() =~= s.skip(1 + wt as int));
                        lemma_pow256_increases(payload@.len() as nat, 16);
                        lemma_le_value_bound(payload@);
                        lemma_le_value_bound(payload@.reverse());
                    }
                    let u = payload_read(payload.as_slice(), self.config.endianness);
                    let v = untwos_complement(u, wt);
                    Ok((v, 1 + wt))
                }
            },
            IntEncoding::Fixed => {
                let payload = self.read_bytes(w)?;
                proof {
                    assert(payload@ =~= s.take(w as int));
                    lemma_pow256_increases(payload@.len() as nat, 16);
                    lemma_le_value_bound(payload@);
                    lemma_le_value_bound(payload@.reverse());
                }
                let u = payload_read(payload.as_slice(), self.config.endianness);
                let v = untwos_complement(u, w);
                Ok((v, w))
            },
        }
    }
}

impl<'de, R: BorrowReader<'de>> Decoder<R> {
    /// Take the next `n` bytes as a zero-copy slice aliasing the input
    /// buffer; the budget is untouched.
    pub fn borrow_bytes(&mut self, n: usize) -> (r: Result<&'de [u8], DecodeError>)
        ensures
            final(self).cfg() == old(self).cfg(),
            final(self).budget_left() == old(self).budget_left(),
            match r {
                Ok(out) => {
                    &&& n <= old(self).remaining().len()
                    &&& out@ == old(self).remaining().take(n as int)
                    &&& final(self).remaining() == old(self).remaining().skip(n as int)
                },
                Err(e) => {
                    &&& e == DecodeError::UnexpectedEnd
                    &&& old(self).remaining().len() < n
                    &&& final(self).remaining() == old(self).remaining()
                },
            },
    {
        self.reader.take_bytes(n)
    }
}

/// The integer whose payload bytes in the given endianness are `bytes`.
pub(crate) fn payload_read(bytes: &[u8], e: Endianness) -> (v: u128)
    requires
        bytes@.len() <= 16,
    ensures
        v as int == payload_value(bytes@, e),
{
    proof {
        lemma_pow256_128_bits();
    }
    match e {
        Endianness::Little => {
            let mut v: u128 = 0;
            let mut i: usize = bytes.len();
            while i > 0
                invariant
                    i <= bytes@.len() <= 16,
                    v as int == le_value(bytes@.skip(i as int)),
                    (v as int) < pow256((bytes@.len() - i) as nat),
                decreases i,
            {
                proof {
                    lemma_pow256_128_bits();
                    lemma_pow256_increases((bytes@.len() - i) as nat, 15);
                    assert(bytes@.skip(i as int - 1).drop_first() =~= bytes@.skip(i as int));
                }
                i = i - 1;
                let b = bytes[i];
                v = v * 256 + (b as u128);
                proof {
                    lemma_le_value_bound(bytes@.skip(i as int));
                }
            }
            proof {
                assert(bytes@.skip(0) =~= bytes@);
            }
            v
        },
        Endianness::Big => {
            let mut v: u128 = 0;
            let mut i: usize = 0;
            while i < bytes.len()
                invariant
                    i <= bytes@.len() <= 16,
                    v as int == le_value(bytes@.take(i as int).reverse()),
                    (v as int) < pow256(i as nat),
                decreases bytes@.len() - i,
            {
                proof {
                    lemma_pow256_128_bits();
                    lemma_pow256_increases(i as nat, 15);
                    assert(bytes@.take(i as int + 1).reverse() =~= seq![bytes@[i as int]]
                        + bytes@.take(i as int).reverse());
                    assert((seq![bytes@[i as int]] + bytes@.take(i as int).reverse()).drop_first()
                        =~= bytes@.take(i as int).reverse());
                }
                let b = bytes[i];
                v = v * 256 + (b as u128);
                i = i + 1;
                proof {
                    lemma_le_value_bound(bytes@.take(i as int).reverse());
                }
            }
            proof {
                assert(bytes@.take(bytes@.len() as int) =~= bytes@);
            }
            v
        },
    }
}

/// A value that can produce an owned self from a Decoder, by copying any
/// referenced bytes.
///
/// The contract is the full functional model of decoding: the method
/// succeeds, consumes and charges exactly as `dec_full` says, and fails with
/// exactly the error `dec_full` says.
pub trait Decode: DeepView + Sized {
    /// From the unread bytes, the configuration and the budget: the decoded
    /// value's model, the bytes consumed and the budget left, or the error.
    spec fn dec_full(s: Seq<u8>, c: Config, b: Limit) -> Result<
        (Self::V, int, Limit),
        DecodeError,
    >;

    /// The per-element byte estimate a container charges for one declared
    /// slot of this type before decoding it: the type's in-memory footprint.
    spec fn claim_width() -> int;

    /// The per-element width estimate, as a value.
    fn claim_width_exec() -> (w: usize)
        ensures
            w as int == Self::claim_width(),
    ;

    /// Law: a successful decode consumes between zero and all of the unread
    /// bytes.
    proof fn dec_full_sound(s: Seq<u8>, c: Config, b: Limit)
        ensures
            Self::dec_full(s, c, b) matches Ok((m, n, b2)) ==> 0 <= n <= s.len(),
    ;

    /// Produce an owned value from the decoder.
    fn decode<R: Reader>(decoder: &mut Decoder<R>) -> (r: Result<Self, DecodeError>)
        ensures
            final(decoder).cfg() == old(decoder).cfg(),
            match Self::dec_full(
                old(decoder).remaining(),
                old(decoder).cfg(),
                old(decoder).budget_left(),
            ) {
                Ok((m, n, b2)) => {
                    &&& r matches Ok(v) && v.deep_view() == m
                    &&& final(decoder).remaining() == old(decoder).remaining().skip(n)
                    &&& final(decoder).budget_left() == b2
                },
                Err(e) => r matches Err(e2) && e2 == e,
            },
    ;
}

/// A value that can produce a self whose borrowed fields alias the decoder's
/// input buffer; it requires the borrow capability of the source.
///
/// For a type that also implements [`Decode`], `bdec_full` agrees with
/// `dec_full`: borrowing decode yields equal values from equal buffers.
pub trait BorrowDecode<'de>: DeepView + Sized {
    /// The full functional model of borrowing decode.
    spec fn bdec_full(s: Seq<u8>, c: Config, b: Limit) -> Result<
        (Self::V, int, Limit),
        DecodeError,
    >;

    /// The per-element byte estimate a container charges for one declared
    /// slot of this type before decoding it.
    spec fn bclaim_width() -> int;

    /// The per-element width estimate, as a value.
    fn bclaim_width_exec() -> (w: usize)
        ensures
            w as int == Self::bclaim_width(),
    ;

    /// Law: a successful borrowing decode consumes between zero and all of
    /// the unread bytes.
    proof fn bdec_full_sound(s: Seq<u8>, c: Config, b: Limit)
        ensures
            Self::bdec_full(s, c, b) matches Ok((m, n, b2)) ==> 0 <= n <= s.len(),
    ;

    /// Produce a possibly-borrowing value from the decoder.
    fn borrow_decode<R: BorrowReader<'de>>(decoder: &mut Decoder<R>) -> (r: Result<
        Self,
        DecodeError,
    >)
        ensures
            final(decoder).cfg() == old(decoder).cfg(),
            match Self::bdec_full(
                old(decoder).remaining(),
                old(decoder).cfg(),
                old(decoder).budget_left(),
            ) {
                Ok((m, n, b2)) => {
                    &&& r matches Ok(v) && v.deep_view() == m
                    &&& final(decoder).remaining() == old(decoder).remaining().skip(n)
                    &&& final(decoder).budget_left() == b2
                },
                Err(e) => r matches Err(e2) && e2 == e,
            },
    ;
}

/// The full functional model of reading a length prefix: a `usize` length
/// encoded as a 64-bit unsigned integer, charged 8 bytes against the budget.
pub open spec fn len_dec_full(s: Seq<u8>, c: Config, b: Limit) -> Result<
    (int, int, Limit),
    DecodeError,
> {
    match spec_claim(b, 8) {
        None => Err(DecodeError::LimitExceeded),
        Some(b1) => match uint_dec(s, 8, c) {
            Ok((v, n)) => if v <= usize::MAX as u128 {
                Ok((v as int, n, b1))
            } else {
                Err(DecodeError::OutsideUsizeRange)
            },
            Err(e) => Err(e),
        },
    }
}

/// Read the length prefix of a sequence.
pub fn decode_slice_len<R: Reader>(decoder: &mut Decoder<R>) -> (r: Result<usize, DecodeError>)
    ensures
        final(decoder).cfg() == old(decoder).cfg(),
        match len_dec_full(
            old(decoder).remaining(),
            old(decoder).cfg(),
            old(decoder).budget_left(),
        ) {
            Ok((len, n, b2)) => {
                &&& r matches Ok(l) && l as int == len
                &&& final(decoder).remaining() == old(decoder).remaining().skip(n)
                &&& final(decoder).budget_left() == b2
            },
            Err(e) => r matches Err(e2) && e2 == e,
        },
{
    decoder.claim_bytes_read(8)?;
    let p = decoder.read_uint(8)?;
    if p.0 <= usize::MAX as u128 {
        Ok(p.0 as usize)
    } else {
        Err(DecodeError::OutsideUsizeRange)
    }
}

} // verus!
