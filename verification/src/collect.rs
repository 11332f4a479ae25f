//! The value contract for length-prefixed sequences: a dynamic array writes
//! its length, then each element in order through the element's own
//! contract; decoding claims a pessimistic container reservation up front
//! and refunds one slot right before each element's own decode.

use vstd::prelude::*;
use vstd::slice::slice_index_get;

use crate::budget::{spec_claim_container, spec_release};
use crate::config::{Config, Limit};
use crate::de::{
    decode_slice_len, len_dec_full, BorrowDecode, BorrowReader, Decode, Decoder, Reader,
};
use crate::enc::{
    encode_slice_len, len_enc_bytes, size_slice_len, Encode, EncodedSize, Encoder, Writer,
};
use crate::error::{DecodeError, EncodeError};
use crate::varint::lemma_pow256_128_bits;
use crate::wire::lemma_uint_dec_fits;

verus! {

/// The concatenated encodings of a sequence of element models.
pub open spec fn elems_enc_bytes<T: Encode>(ms: Seq<T::V>, c: Config) -> Seq<u8>
    decreases ms.len(),
{
    if ms.len() == 0 {
        Seq::empty()
    } else {
        T::enc_bytes(ms[0], c) + elems_enc_bytes::<T>(ms.drop_first(), c)
    }
}

/// Concatenation distributes over the element encodings.
pub proof fn lemma_elems_enc_append<T: Encode>(a: Seq<T::V>, b: Seq<T::V>, c: Config)
    ensures
        elems_enc_bytes::<T>(a + b, c) == elems_enc_bytes::<T>(a, c) + elems_enc_bytes::<T>(b, c),
    decreases a.len(),
{
    if a.len() == 0 {
        assert(a + b =~= b);
        assert(elems_enc_bytes::<T>(a, c) + elems_enc_bytes::<T>(b, c) =~= elems_enc_bytes::<T>(
            b,
            c,
        ));
    } else {
        assert((a + b).len() > 0);
        assert((a + b)[0] == a[0]);
        assert((a + b).drop_first() =~= a.drop_first() + b);
        lemma_elems_enc_append::<T>(a.drop_first(), b, c);
        assert(T::enc_bytes(a[0], c) + (elems_enc_bytes::<T>(a.drop_first(), c)
            + elems_enc_bytes::<T>(b, c)) =~= (T::enc_bytes(a[0], c) + elems_enc_bytes::<T>(
            a.drop_first(),
            c,
        )) + elems_enc_bytes::<T>(b, c));
    }
}

/// One element appended on the right.
pub proof fn lemma_elems_enc_push<T: Encode>(ms: Seq<T::V>, m: T::V, c: Config)
    ensures
        elems_enc_bytes::<T>(ms.push(m), c) == elems_enc_bytes::<T>(ms, c) + T::enc_bytes(m, c),
{
    assert(ms.push(m) =~= ms + seq![m]);
    lemma_elems_enc_append::<T>(ms, seq![m], c);
    let s1 = seq![m];
    assert(s1.drop_first() =~= Seq::<T::V>::empty());
    assert(elems_enc_bytes::<T>(Seq::<T::V>::empty(), c) == Seq::<u8>::empty());
    assert(s1[0] == m);
    assert(elems_enc_bytes::<T>(s1, c) == T::enc_bytes(m, c) + elems_enc_bytes::<T>(
        s1.drop_first(),
        c,
    ));
    assert(T::enc_bytes(m, c) + Seq::<u8>::empty() =~= T::enc_bytes(m, c));
}

/// Decoding `n` elements one after another: before each element, `w` bytes
/// of the container reservation are refunded, then the element's own decode
/// charges its cost.
pub open spec fn elems_dec_full<T: Decode>(
    s: Seq<u8>,
    c: Config,
    b: Limit,
    w: int,
    n: nat,
) -> Result<(Seq<T::V>, int, Limit), DecodeError>
    decreases n,
{
    if n == 0 {
        Ok((Seq::empty(), 0, b))
    } else {
        let b1 = spec_release(b, w);
        match T::dec_full(s, c, b1) {
            Ok((m, k, b2)) => match elems_dec_full::<T>(s.skip(k), c, b2, w, (n - 1) as nat) {
                Ok((ms, k2, b3)) => Ok((seq![m] + ms, k + k2, b3)),
                Err(e) => Err(e),
            },
            Err(e) => Err(e),
        }
    }
}

/// Element decoding consumes between zero and all of the unread bytes.
pub proof fn lemma_elems_dec_sound<T: Decode>(s: Seq<u8>, c: Config, b: Limit, w: int, n: nat)
    ensures
        elems_dec_full::<T>(s, c, b, w, n) matches Ok((ms, k, b2)) ==> {
            &&& 0 <= k <= s.len()
            &&& ms.len() == n
        },
    decreases n,
{
    if n > 0 {
        let b1 = spec_release(b, w);
        T::dec_full_sound(s, c, b1);
        match T::dec_full(s, c, b1) {
            Ok((m, k, b2)) => {
                lemma_elems_dec_sound::<T>(s.skip(k), c, b2, w, (n - 1) as nat);
            },
            Err(_) => {},
        }
    }
}

/// The full decode model of a length-prefixed sequence of `T` elements: the
/// length prefix, one container reservation, then the elements.
pub open spec fn seq_dec_full<T: Decode>(s: Seq<u8>, c: Config, b: Limit) -> Result<
    (Seq<T::V>, int, Limit),
    DecodeError,
> {
    match len_dec_full(s, c, b) {
        Ok((len, n0, b0)) => match spec_claim_container(b0, T::claim_width(), len) {
            None => Err(DecodeError::LimitExceeded),
            Some(b1) => match elems_dec_full::<T>(s.skip(n0), c, b1, T::claim_width(), len as nat) {
                Ok((ms, k, b2)) => Ok((ms, n0 + k, b2)),
                Err(e) => Err(e),
            },
        },
        Err(e) => Err(e),
    }
}

/// Borrowing counterpart of [`elems_dec_full`].
pub open spec fn elems_bdec_full<'de, T: BorrowDecode<'de>>(
    s: Seq<u8>,
    c: Config,
    b: Limit,
    w: int,
    n: nat,
) -> Result<(Seq<T::V>, int, Limit), DecodeError>
    decreases n,
{
    if n == 0 {
        Ok((Seq::empty(), 0, b))
    } else {
        let b1 = spec_release(b, w);
        match T::bdec_full(s, c, b1) {
            Ok((m, k, b2)) => match elems_bdec_full::<T>(s.skip(k), c, b2, w, (n - 1) as nat) {
                Ok((ms, k2, b3)) => Ok((seq![m] + ms, k + k2, b3)),
                Err(e) => Err(e),
            },
            Err(e) => Err(e),
        }
    }
}

/// Borrowing element decoding consumes between zero and all of the input.
pub proof fn lemma_elems_bdec_sound<'de, T: BorrowDecode<'de>>(
    s: Seq<u8>,
    c: Config,
    b: Limit,
    w: int,
    n: nat,
)
    ensures
        elems_bdec_full::<T>(s, c, b, w, n) matches Ok((ms, k, b2)) ==> {
            &&& 0 <= k <= s.len()
            &&& ms.len() == n
        },
    decreases n,
{
    if n > 0 {
        let b1 = spec_release(b, w);
        T::bdec_full_sound(s, c, b1);
        match T::bdec_full(s, c, b1) {
            Ok((m, k, b2)) => {
                lemma_elems_bdec_sound::<T>(s.skip(k), c, b2, w, (n - 1) as nat);
            },
            Err(_) => {},
        }
    }
}

/// Borrowing counterpart of [`seq_dec_full`].
pub open spec fn seq_bdec_full<'de, T: BorrowDecode<'de>>(s: Seq<u8>, c: Config, b: Limit) -> Result<
    (Seq<T::V>, int, Limit),
    DecodeError,
> {
    match len_dec_full(s, c, b) {
        Ok((len, n0, b0)) => match spec_claim_container(b0, T::bclaim_width(), len) {
            None => Err(DecodeError::LimitExceeded),
            Some(b1) => match elems_bdec_full::<T>(
                s.skip(n0),
                c,
                b1,
                T::bclaim_width(),
                len as nat,
            ) {
                Ok((ms, k, b2)) => Ok((ms, n0 + k, b2)),
                Err(e) => Err(e),
            },
        },
        Err(e) => Err(e),
    }
}

impl<T: Encode> Encode for Vec<T> {
    open spec fn enc_bytes(m: Seq<T::V>, c: Config) -> Seq<u8> {
        len_enc_bytes(m.len() as int, c) + elems_enc_bytes::<T>(m, c)
    }

    #[verifier::loop_isolation(false)]
    fn encode<W: Writer>(&self, encoder: &mut Encoder<W>) -> (r: Result<(), EncodeError>) {
        let ghost m = self.deep_view();
        let ghost c = old(encoder).cfg();
        let ghost base = old(encoder).stream();
        match encode_slice_len(encoder, self.len()) {
            Ok(()) => {},
            Err(e) => {
                return Err(e);
            },
        }
        let mut i: usize = 0;
        while i < self.len()
            invariant
                i <= self@.len(),
                m == self.deep_view(),
                c == encoder.cfg(),
                m.len() == self@.len(),
                encoder.stream() == base + len_enc_bytes(m.len() as int, c) + elems_enc_bytes::<
                    T,
                >(m.take(i as int), c),
            decreases self@.len() - i,
        {
            let item = slice_index_get(self.as_slice(), i);
            proof {
                assert(item.deep_view() == m[i as int]);
            }
            match item.encode(encoder) {
                Ok(()) => {},
                Err(e) => {
                    return Err(e);
                },
            }
            i = i + 1;
            proof {
                assert(m.take(i as int) =~= m.take(i as int - 1).push(m[i as int - 1]));
                lemma_elems_enc_push::<T>(m.take(i as int - 1), m[i as int - 1], c);
                assert((base + len_enc_bytes(m.len() as int, c) + elems_enc_bytes::<T>(
                    m.take(i as int - 1),
                    c,
                )) + T::enc_bytes(m[i as int - 1], c) =~= base + len_enc_bytes(m.len() as int, c)
                    + elems_enc_bytes::<T>(m.take(i as int), c));
            }
        }
        proof {
            assert(m.take(m.len() as int) =~= m);
            assert(base + len_enc_bytes(m.len() as int, c) + elems_enc_bytes::<T>(m, c) =~= base
                + Self::enc_bytes(m, c));
        }
        Ok(())
    }
}

impl<T: EncodedSize> EncodedSize for Vec<T> {
    #[verifier::loop_isolation(false)]
    fn encoded_size(&self, config: Config) -> (r: Result<usize, EncodeError>) {
        let ghost m = self.deep_view();
        let mut size: usize = size_slice_len(self.len(), config);
        let mut i: usize = 0;
        while i < self.len()
            invariant
                i <= self@.len(),
                m == self.deep_view(),
                m.len() == self@.len(),
                size as int == len_enc_bytes(m.len() as int, config).len() + elems_enc_bytes::<T>(
                    m.take(i as int),
                    config,
                ).len(),
            decreases self@.len() - i,
        {
            let item = slice_index_get(self.as_slice(), i);
            proof {
                assert(item.deep_view() == m[i as int]);
                assert(m.take(i as int + 1) =~= m.take(i as int).push(m[i as int]));
                lemma_elems_enc_push::<T>(m.take(i as int), m[i as int], config);
            }
            let item_size = match item.encoded_size(config) {
                Ok(n) => n,
                Err(_) => {
                    proof {
                        lemma_size_prefix_le::<T>(m, i as int + 1, config);
                    }
                    return Err(EncodeError::SizeOverflow);
                },
            };
            if size > usize::MAX - item_size {
                proof {
                    lemma_size_prefix_le::<T>(m, i as int + 1, config);
                }
                return Err(EncodeError::SizeOverflow);
            }
            size = size + item_size;
            i = i + 1;
        }
        proof {
            assert(m.take(m.len() as int) =~= m);
        }
        Ok(size)
    }
}

/// The encoding of a sequence is at least as long as its length prefix plus
/// the encodings of any prefix of its elements.
pub proof fn lemma_size_prefix_le<T: Encode>(m: Seq<T::V>, i: int, c: Config)
    requires
        0 <= i <= m.len(),
    ensures
        <Vec<T> as Encode>::enc_bytes(m, c).len() >= len_enc_bytes(m.len() as int, c).len()
            + elems_enc_bytes::<T>(m.take(i), c).len(),
{
    assert(m =~= m.take(i) + m.skip(i));
    lemma_elems_enc_append::<T>(m.take(i), m.skip(i), c);
}

impl<T: Decode> Decode for Vec<T> {
    open spec fn dec_full(s: Seq<u8>, c: Config, b: Limit) -> Result<
        (Seq<T::V>, int, Limit),
        DecodeError,
    > {
        seq_dec_full::<T>(s, c, b)
    }

    open spec fn claim_width() -> int {
        24
    }

    fn claim_width_exec() -> (w: usize) {
        24
    }

    proof fn dec_full_sound(s: Seq<u8>, c: Config, b: Limit) {
        lemma_pow256_128_bits();
        lemma_uint_dec_fits(s, 8, c);
        match len_dec_full(s, c, b) {
            Ok((len, n0, b0)) => {
                match spec_claim_container(b0, T::claim_width(), len) {
                    Some(b1) => {
                        lemma_elems_dec_sound::<T>(
                            s.skip(n0),
                            c,
                            b1,
                            T::claim_width(),
                            len as nat,
                        );
                    },
                    None => {},
                }
            },
            Err(_) => {},
        }
    }

    #[verifier::loop_isolation(false)]
    fn decode<R: Reader>(decoder: &mut Decoder<R>) -> (r: Result<Vec<T>, DecodeError>) {
        let ghost s0 = decoder.remaining();
        let ghost c = decoder.cfg();
        let len = match decode_slice_len(decoder) {
            Ok(l) => l,
            Err(e) => {
                return Err(e);
            },
        };
        let w = T::claim_width_exec();
        match decoder.claim_container_read(w, len) {
            Ok(()) => {},
            Err(e) => {
                return Err(e);
            },
        }
        let ghost s1 = decoder.remaining();
        let ghost b1 = decoder.budget_left();
        let mut out: Vec<T> = Vec::new();
        let mut i: usize = 0;
        let ghost mut consumed: int = 0;
        proof {
            assert(out.deep_view() =~= Seq::<T::V>::empty());
            assert(s1.skip(0) =~= s1);
            match elems_dec_full::<T>(s1, c, b1, w as int, len as nat) {
                Ok((ms, k, b3)) => {
                    assert(out.deep_view() + ms =~= ms);
                },
                Err(_) => {},
            }
        }
        while i < len
            invariant
                i <= len,
                out@.len() == i,
                c == decoder.cfg(),
                0 <= consumed <= s1.len(),
                decoder.remaining() == s1.skip(consumed),
                w as int == T::claim_width(),
                match elems_dec_full::<T>(
                    decoder.remaining(),
                    c,
                    decoder.budget_left(),
                    w as int,
                    (len - i) as nat,
                ) {
                    Ok((ms, k, b3)) => elems_dec_full::<T>(s1, c, b1, w as int, len as nat) == Ok::<
                        _,
                        DecodeError,
                    >((out.deep_view() + ms, consumed + k, b3)),
                    Err(e) => elems_dec_full::<T>(s1, c, b1, w as int, len as nat) == Err::<
                        (Seq<T::V>, int, Limit),
                        _,
                    >(e),
                },
            decreases len - i,
        {
            let ghost cur_s = decoder.remaining();
            let ghost cur_b = decoder.budget_left();
            let ghost prev_dv = out.deep_view();
            decoder.unclaim_bytes_read(w);
            proof {
                T::dec_full_sound(cur_s, c, decoder.budget_left());
            }
            let item = match T::decode(decoder) {
                Ok(v) => v,
                Err(e) => {
                    return Err(e);
                },
            };
            out.push(item);
            i = i + 1;
            proof {
                let step = T::dec_full(cur_s, c, spec_release(cur_b, w as int));
                match step {
                    Ok((m2, k2, bb2)) => {
                        assert(decoder.remaining() == cur_s.skip(k2));
                        assert(0 <= k2 <= cur_s.len());
                        consumed = consumed + k2;
                        assert(decoder.remaining() =~= s1.skip(consumed));
                        assert(out.deep_view() =~= prev_dv.push(m2));
                        match elems_dec_full::<T>(
                            decoder.remaining(),
                            c,
                            decoder.budget_left(),
                            w as int,
                            (len - i) as nat,
                        ) {
                            Ok((ms3, k3, b3)) => {
                                assert(out.deep_view() + ms3 =~= prev_dv + (seq![m2] + ms3));
                            },
                            Err(_) => {},
                        }
                    },
                    Err(_) => {
                        assert(false);
                    },
                }
            }
        }
        proof {
            assert(out.deep_view() + Seq::<T::V>::empty() =~= out.deep_view());
            lemma_pow256_128_bits();
            lemma_uint_dec_fits(s0, 8, c);
            assert(s1.skip(consumed) =~= s0.skip(
                (s0.len() - s1.len()) + consumed,
            ));
        }
        Ok(out)
    }
}

impl<'de, T: BorrowDecode<'de>> BorrowDecode<'de> for Vec<T> {
    open spec fn bdec_full(s: Seq<u8>, c: Config, b: Limit) -> Result<
        (Seq<T::V>, int, Limit),
        DecodeError,
    > {
        seq_bdec_full::<T>(s, c, b)
    }

    open spec fn bclaim_width() -> int {
        24
    }

    fn bclaim_width_exec() -> (w: usize) {
        24
    }

    proof fn bdec_full_sound(s: Seq<u8>, c: Config, b: Limit) {
        lemma_pow256_128_bits();
        lemma_uint_dec_fits(s, 8, c);
        match len_dec_full(s, c, b) {
            Ok((len, n0, b0)) => {
                match spec_claim_container(b0, T::bclaim_width(), len) {
                    Some(b1) => {
                        lemma_elems_bdec_sound::<T>(
                            s.skip(n0),
                            c,
                            b1,
                            T::bclaim_width(),
                            len as nat,
                        );
                    },
                    None => {},
                }
            },
            Err(_) => {},
        }
    }

    #[verifier::loop_isolation(false)]
    fn borrow_decode<R: BorrowReader<'de>>(decoder: &mut Decoder<R>) -> (r: Result<
        Vec<T>,
        DecodeError,
    >) {
        let ghost s0 = decoder.remaining();
        let ghost c = decoder.cfg();
        let len = match decode_slice_len(decoder) {
            Ok(l) => l,
            Err(e) => {
                return Err(e);
            },
        };
        let w = T::bclaim_width_exec();
        match decoder.claim_container_read(w, len) {
            Ok(()) => {},
            Err(e) => {
                return Err(e);
            },
        }
        let ghost s1 = decoder.remaining();
        let ghost b1 = decoder.budget_left();
        let mut out: Vec<T> = Vec::new();
        let mut i: usize = 0;
        let ghost mut consumed: int = 0;
        proof {
            assert(out.deep_view() =~= Seq::<T::V>::empty());
            assert(s1.skip(0) =~= s1);
            match elems_bdec_full::<T>(s1, c, b1, w as int, len as nat) {
                Ok((ms, k, b3)) => {
                    assert(out.deep_view() + ms =~= ms);
                },
                Err(_) => {},
            }
        }
        while i < len
            invariant
                i <= len,
                out@.len() == i,
                c == decoder.cfg(),
                0 <= consumed <= s1.len(),
                decoder.remaining() == s1.skip(consumed),
                w as int == T::bclaim_width(),
                match elems_bdec_full::<T>(
                    decoder.remaining(),
                    c,
                    decoder.budget_left(),
                    w as int,
                    (len - i) as nat,
                ) {
                    Ok((ms, k, b3)) => elems_bdec_full::<T>(s1, c, b1, w as int, len as nat)
                        == Ok::<_, DecodeError>((out.deep_view() + ms, consumed + k, b3)),
                    Err(e) => elems_bdec_full::<T>(s1, c, b1, w as int, len as nat) == Err::<
                        (Seq<T::V>, int, Limit),
                        _,
                    >(e),
                },
            decreases len - i,
        {
            let ghost cur_s = decoder.remaining();
            let ghost cur_b = decoder.budget_left();
            let ghost prev_dv = out.deep_view();
            decoder.unclaim_bytes_read(w);
            proof {
                T::bdec_full_sound(cur_s, c, decoder.budget_left());
            }
            let item = match T::borrow_decode(decoder) {
                Ok(v) => v,
                Err(e) => {
                    return Err(e);
                },
            };
            out.push(item);
            i = i + 1;
            proof {
                let step = T::bdec_full(cur_s, c, spec_release(cur_b, w as int));
                match step {
                    Ok((m2, k2, bb2)) => {
                        assert(decoder.remaining() == cur_s.skip(k2));
                        assert(0 <= k2 <= cur_s.len());
                        consumed = consumed + k2;
                        assert(decoder.remaining() =~= s1.skip(consumed));
                        assert(out.deep_view() =~= prev_dv.push(m2));
                        match elems_bdec_full::<T>(
                            decoder.remaining(),
                            c,
                            decoder.budget_left(),
                            w as int,
                            (len - i) as nat,
                        ) {
                            Ok((ms3, k3, b3)) => {
                                assert(out.deep_view() + ms3 =~= prev_dv + (seq![m2] + ms3));
                            },
                            Err(_) => {},
                        }
                    },
                    Err(_) => {
                        assert(false);
                    },
                }
            }
        }
        proof {
            assert(out.deep_view() + Seq::<T::V>::empty() =~= out.deep_view());
            lemma_pow256_128_bits();
            lemma_uint_dec_fits(s0, 8, c);
            assert(s1.skip(consumed) =~= s0.skip(
                (s0.len() - s1.len()) + consumed,
            ));
        }
        Ok(out)
    }
}

} // verus!
