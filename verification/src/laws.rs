//! The cross-cutting laws of the codec, stated over the same spec functions
//! the value contracts use and proved for every implementing type: decoding
//! inverts encoding, borrowing decode agrees with owned decode, and a
//! hostile container length fails against the budget before any element is
//! read.

use vstd::prelude::*;

use crate::budget::{spec_claim_container, spec_release};
use crate::collect::{elems_bdec_full, elems_dec_full, elems_enc_bytes};
use crate::config::{Config, Limit};
use crate::de::{len_dec_full, BorrowDecode, Decode};
use crate::enc::{len_enc_bytes, Encode};
use crate::error::DecodeError;
use crate::varint::{lemma_pow256_128_bits, lemma_twos_complement_round_trip, pow256};
use crate::wire::{lemma_sint_round_trip, lemma_uint_round_trip};

verus! {

/// Types whose decoding inverts their encoding.
pub trait Lossless: Encode + Decode {
    /// The values the wire format can carry: every value a program can hold,
    /// short of machine limits on container lengths.
    spec fn enc_wf(m: Self::V) -> bool;

    /// Law: round trip. For every well-formed value model `m` and every
    /// configuration, decoding the encoding of `m`, followed by anything,
    /// with no limit in force, yields `m` back, consumes exactly the
    /// encoding, and leaves the budget untouched.
    proof fn lemma_round_trip(m: Self::V, rest: Seq<u8>, c: Config)
        requires
            Self::enc_wf(m),
        ensures
            Self::dec_full(Self::enc_bytes(m, c) + rest, c, Limit::Unlimited) == Ok::<
                _,
                DecodeError,
            >((m, Self::enc_bytes(m, c).len() as int, Limit::Unlimited)),
    ;
}

/// Law: for every well-formed value and every configuration with no limit
/// in force, decoding an encoded buffer yields the value back; this is the
/// whole-buffer form of [`Lossless::lemma_round_trip`], matching what
/// [`crate::decode_from_slice`] sees after [`crate::encode_to_vec`].
pub proof fn lemma_encode_decode<T: Lossless>(m: T::V, c: Config)
    requires
        T::enc_wf(m),
        c.limit == Limit::Unlimited,
    ensures
        T::dec_full(T::enc_bytes(m, c), c, c.limit) == Ok::<_, DecodeError>(
            (m, T::enc_bytes(m, c).len() as int, Limit::Unlimited),
        ),
{
    T::lemma_round_trip(m, Seq::empty(), c);
    assert(T::enc_bytes(m, c) + Seq::<u8>::empty() =~= T::enc_bytes(m, c));
}

/// Types whose borrowing decode agrees with their owned decode.
pub trait BorrowAgrees<'de>: Decode + BorrowDecode<'de> {
    /// Law: decoding the same buffer via owned decode and via borrowing
    /// decode yields the same outcome: the same value model, bytes
    /// consumed and budget left, or the same error; and both charge the
    /// same per-element width.
    proof fn lemma_borrow_agrees(s: Seq<u8>, c: Config, b: Limit)
        ensures
            Self::bdec_full(s, c, b) == Self::dec_full(s, c, b),
            Self::bclaim_width() == Self::claim_width(),
    ;
}

/// Law: budget enforcement. When the declared container length, multiplied
/// by the element's width estimate, exceeds what remains of the budget, the
/// decode fails with the limit error right after the length prefix, before
/// any element is read.
pub proof fn lemma_budget_enforced<T: Decode>(s: Seq<u8>, c: Config, b: Limit)
    requires
        len_dec_full(s, c, b) matches Ok((len, n0, b0)) && spec_claim_container(
            b0,
            T::claim_width(),
            len,
        ) is None,
    ensures
        <Vec<T> as Decode>::dec_full(s, c, b) == Err::<(Seq<T::V>, int, Limit), _>(
            DecodeError::LimitExceeded,
        ),
{
}

impl Lossless for u8 {
    open spec fn enc_wf(m: u8) -> bool {
        true
    }

    proof fn lemma_round_trip(m: u8, rest: Seq<u8>, c: Config) {
        let s = Self::enc_bytes(m, c) + rest;
        assert(s[0] == m);
        assert(s.len() >= 1);
    }
}

impl Lossless for bool {
    open spec fn enc_wf(m: bool) -> bool {
        true
    }

    proof fn lemma_round_trip(m: bool, rest: Seq<u8>, c: Config) {
        let s = Self::enc_bytes(m, c) + rest;
        if m {
            assert(s[0] == 1u8);
        } else {
            assert(s[0] == 0u8);
        }
        assert(s.len() >= 1);
    }
}

impl Lossless for i8 {
    open spec fn enc_wf(m: i8) -> bool {
        true
    }

    proof fn lemma_round_trip(m: i8, rest: Seq<u8>, c: Config) {
        assert(pow256(0) == 1);
        assert(pow256(1) == 256);
        let u = crate::varint::to_twos_complement(m as int, 1);
        lemma_twos_complement_round_trip(m as int, 1);
        let s = Self::enc_bytes(m, c) + rest;
        assert(s[0] == u as u8);
        assert(s[0] as int == u);
        assert(s.len() >= 1);
    }
}

impl Lossless for u16 {
    open spec fn enc_wf(m: u16) -> bool {
        true
    }

    proof fn lemma_round_trip(m: u16, rest: Seq<u8>, c: Config) {
        lemma_pow256_128_bits();
        lemma_uint_round_trip(m as u128, rest, 2, c);
    }
}

impl Lossless for u32 {
    open spec fn enc_wf(m: u32) -> bool {
        true
    }

    proof fn lemma_round_trip(m: u32, rest: Seq<u8>, c: Config) {
        lemma_pow256_128_bits();
        lemma_uint_round_trip(m as u128, rest, 4, c);
    }
}

impl Lossless for u64 {
    open spec fn enc_wf(m: u64) -> bool {
        true
    }

    proof fn lemma_round_trip(m: u64, rest: Seq<u8>, c: Config) {
        lemma_pow256_128_bits();
        lemma_uint_round_trip(m as u128, rest, 8, c);
    }
}

impl Lossless for u128 {
    open spec fn enc_wf(m: u128) -> bool {
        true
    }

    proof fn lemma_round_trip(m: u128, rest: Seq<u8>, c: Config) {
        lemma_pow256_128_bits();
        lemma_uint_round_trip(m, rest, 16, c);
    }
}

impl Lossless for usize {
    open spec fn enc_wf(m: usize) -> bool {
        true
    }

    proof fn lemma_round_trip(m: usize, rest: Seq<u8>, c: Config) {
        lemma_pow256_128_bits();
        lemma_uint_round_trip(m as u64 as u128, rest, 8, c);
    }
}

impl Lossless for i16 {
    open spec fn enc_wf(m: i16) -> bool {
        true
    }

    proof fn lemma_round_trip(m: i16, rest: Seq<u8>, c: Config) {
        lemma_pow256_128_bits();
        lemma_sint_round_trip(m as i128, rest, 2, c);
    }
}

impl Lossless for i32 {
    open spec fn enc_wf(m: i32) -> bool {
        true
    }

    proof fn lemma_round_trip(m: i32, rest: Seq<u8>, c: Config) {
        lemma_pow256_128_bits();
        lemma_sint_round_trip(m as i128, rest, 4, c);
    }
}

impl Lossless for i64 {
    open spec fn enc_wf(m: i64) -> bool {
        true
    }

    proof fn lemma_round_trip(m: i64, rest: Seq<u8>, c: Config) {
        lemma_pow256_128_bits();
        lemma_sint_round_trip(m as i128, rest, 8, c);
    }
}

impl Lossless for i128 {
    open spec fn enc_wf(m: i128) -> bool {
        true
    }

    proof fn lemma_round_trip(m: i128, rest: Seq<u8>, c: Config) {
        lemma_pow256_128_bits();
        lemma_sint_round_trip(m, rest, 16, c);
    }
}

impl Lossless for isize {
    open spec fn enc_wf(m: isize) -> bool {
        true
    }

    proof fn lemma_round_trip(m: isize, rest: Seq<u8>, c: Config) {
        lemma_pow256_128_bits();
        lemma_sint_round_trip(m as i64 as i128, rest, 8, c);
    }
}

/// Round trip for the elements of a sequence, one after another.
pub proof fn lemma_elems_round_trip<T: Lossless>(ms: Seq<T::V>, rest: Seq<u8>, c: Config, w: int)
    requires
        forall|i: int| 0 <= i < ms.len() ==> #[trigger] T::enc_wf(ms[i]),
    ensures
        elems_dec_full::<T>(
            elems_enc_bytes::<T>(ms, c) + rest,
            c,
            Limit::Unlimited,
            w,
            ms.len(),
        ) == Ok::<_, DecodeError>(
            (ms, elems_enc_bytes::<T>(ms, c).len() as int, Limit::Unlimited),
        ),
    decreases ms.len(),
{
    let enc = elems_enc_bytes::<T>(ms, c);
    if ms.len() == 0 {
        assert(ms =~= Seq::<T::V>::empty());
    } else {
        let head = ms[0];
        let tail = ms.drop_first();
        let enc0 = T::enc_bytes(head, c);
        let enct = elems_enc_bytes::<T>(tail, c);
        assert(enc == enc0 + enct);
        assert(enc + rest =~= enc0 + (enct + rest));
        assert(spec_release(Limit::Unlimited, w) == Limit::Unlimited);
        T::lemma_round_trip(head, enct + rest, c);
        assert((enc + rest).skip(enc0.len() as int) =~= enct + rest);
        assert(forall|i: int| 0 <= i < tail.len() ==> #[trigger] T::enc_wf(tail[i]));
        lemma_elems_round_trip::<T>(tail, rest, c, w);
        assert(seq![head] + tail =~= ms);
    }
}

impl<T: Lossless> Lossless for Vec<T> {
    open spec fn enc_wf(m: Seq<T::V>) -> bool {
        &&& m.len() <= usize::MAX
        &&& forall|i: int| 0 <= i < m.len() ==> #[trigger] T::enc_wf(m[i])
    }

    proof fn lemma_round_trip(m: Seq<T::V>, rest: Seq<u8>, c: Config) {
        lemma_pow256_128_bits();
        let lenb = len_enc_bytes(m.len() as int, c);
        let elemsb = elems_enc_bytes::<T>(m, c);
        let enc = Self::enc_bytes(m, c);
        assert(enc + rest =~= lenb + (elemsb + rest));
        let lv = m.len() as u128;
        lemma_uint_round_trip(lv, elemsb + rest, 8, c);
        assert((enc + rest).skip(lenb.len() as int) =~= elemsb + rest);
        lemma_elems_round_trip::<T>(m, rest, c, T::claim_width());
        assert(spec_claim_container(Limit::Unlimited, T::claim_width(), m.len() as int)
            == Some(Limit::Unlimited));
    }
}

/// Borrowing element decoding agrees with owned element decoding.
pub proof fn lemma_elems_borrow_agree<'de, T: BorrowAgrees<'de>>(
    s: Seq<u8>,
    c: Config,
    b: Limit,
    w: int,
    n: nat,
)
    ensures
        elems_bdec_full::<T>(s, c, b, w, n) == elems_dec_full::<T>(s, c, b, w, n),
    decreases n,
{
    if n > 0 {
        let b1 = spec_release(b, w);
        T::lemma_borrow_agrees(s, c, b1);
        match T::dec_full(s, c, b1) {
            Ok((m, k, b2)) => {
                lemma_elems_borrow_agree::<T>(s.skip(k), c, b2, w, (n - 1) as nat);
            },
            Err(_) => {},
        }
    }
}

impl<'de> BorrowAgrees<'de> for u8 {
    proof fn lemma_borrow_agrees(s: Seq<u8>, c: Config, b: Limit) {
    }
}

impl<'de> BorrowAgrees<'de> for bool {
    proof fn lemma_borrow_agrees(s: Seq<u8>, c: Config, b: Limit) {
    }
}

impl<'de> BorrowAgrees<'de> for i8 {
    proof fn lemma_borrow_agrees(s: Seq<u8>, c: Config, b: Limit) {
    }
}

impl<'de> BorrowAgrees<'de> for u16 {
    proof fn lemma_borrow_agrees(s: Seq<u8>, c: Config, b: Limit) {
    }
}

impl<'de> BorrowAgrees<'de> for u32 {
    proof fn lemma_borrow_agrees(s: Seq<u8>, c: Config, b: Limit) {
    }
}

impl<'de> BorrowAgrees<'de> for u64 {
    proof fn lemma_borrow_agrees(s: Seq<u8>, c: Config, b: Limit) {
    }
}

impl<'de> BorrowAgrees<'de> for u128 {
    proof fn lemma_borrow_agrees(s: Seq<u8>, c: Config, b: Limit) {
    }
}

impl<'de> BorrowAgrees<'de> for usize {
    proof fn lemma_borrow_agrees(s: Seq<u8>, c: Config, b: Limit) {
    }
}

impl<'de> BorrowAgrees<'de> for i16 {
    proof fn lemma_borrow_agrees(s: Seq<u8>, c: Config, b: Limit) {
    }
}

impl<'de> BorrowAgrees<'de> for i32 {
    proof fn lemma_borrow_agrees(s: Seq<u8>, c: Config, b: Limit) {
    }
}

impl<'de> BorrowAgrees<'de> for i64 {
    proof fn lemma_borrow_agrees(s: Seq<u8>, c: Config, b: Limit) {
    }
}

impl<'de> BorrowAgrees<'de> for i128 {
    proof fn lemma_borrow_agrees(s: Seq<u8>, c: Config, b: Limit) {
    }
}

impl<'de> BorrowAgrees<'de> for isize {
    proof fn lemma_borrow_agrees(s: Seq<u8>, c: Config, b: Limit) {
    }
}

impl<'de, T: BorrowAgrees<'de>> BorrowAgrees<'de> for Vec<T> {
    proof fn lemma_borrow_agrees(s: Seq<u8>, c: Config, b: Limit) {
        T::lemma_borrow_agrees(s, c, b);
        match len_dec_full(s, c, b) {
            Ok((len, n0, b0)) => {
                match spec_claim_container(b0, T::claim_width(), len) {
                    Some(b1) => {
                        lemma_elems_borrow_agree::<T>(
                            s.skip(n0),
                            c,
                            b1,
                            T::claim_width(),
                            len as nat,
                        );
                    },
                    None => {},
                }
            },
            Err(_) => {},
        }
    }
}

} // verus!
