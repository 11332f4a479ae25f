//! The value contract for double-ended queues: on the wire they are plain
//! length-prefixed sequences, exactly as a dynamic array; decoding pushes
//! each element at the back, preserving order.

use vstd::prelude::*;

use std::collections::VecDeque;

use crate::budget::spec_release;
use crate::collect::{
    elems_dec_full, elems_enc_bytes, lemma_elems_enc_push, lemma_size_prefix_le, seq_bdec_full,
    seq_dec_full,
};
use crate::config::{Config, Limit};
use crate::de::{decode_slice_len, BorrowDecode, BorrowReader, Decode, Decoder, Reader};
use crate::enc::{encode_slice_len, len_enc_bytes, Encode, EncodedSize, Encoder, Writer};
use crate::error::{DecodeError, EncodeError};
use crate::laws::{BorrowAgrees, Lossless};
use crate::varint::lemma_pow256_128_bits;
use crate::wire::lemma_uint_dec_fits;

verus! {

impl<T: Encode> Encode for VecDeque<T> {
    open spec fn enc_bytes(m: Seq<T::V>, c: Config) -> Seq<u8> {
        len_enc_bytes(m.len() as int, c) + elems_enc_bytes::<T>(m, c)
    }

    #[verifier::loop_isolation(false)]
    fn encode<W: Writer>(&self, encoder: &mut Encoder<W>) -> (r: Result<(), EncodeError>) {
        let ghost m = self.deep_view();
        let ghost c = old(encoder).cfg();
        let ghost base = old(encoder).stream();
        match encode_slice_len(encoder, self.len()) {
            Ok(()) => {},
            Err(e) => {
                return Err(e);
            },
        }
        let mut i: usize = 0;
        while i < self.len()
            invariant
                i <= self@.len(),
                m == self.deep_view(),
                c == encoder.cfg(),
                m.len() == self@.len(),
                encoder.stream() == base + len_enc_bytes(m.len() as int, c) + elems_enc_bytes::<
                    T,
                >(m.take(i as int), c),
            decreases self@.len() - i,
        {
            let item = &self[i];
            proof {
                assert(item.deep_view() == m[i as int]);
            }
            match item.encode(encoder) {
                Ok(()) => {},
                Err(e) => {
                    return Err(e);
                },
            }
            i = i + 1;
            proof {
                assert(m.take(i as int) =~= m.take(i as int - 1).push(m[i as int - 1]));
                lemma_elems_enc_push::<T>(m.take(i as int - 1), m[i as int - 1], c);
                assert((base + len_enc_bytes(m.len() as int, c) + elems_enc_bytes::<T>(
                    m.take(i as int - 1),
                    c,
                )) + T::enc_bytes(m[i as int - 1], c) =~= base + len_enc_bytes(m.len() as int, c)
                    + elems_enc_bytes::<T>(m.take(i as int), c));
            }
        }
        proof {
            assert(m.take(m.len() as int) =~= m);
            assert(base + len_enc_bytes(m.len() as int, c) + elems_enc_bytes::<T>(m, c) =~= base
                + Self::enc_bytes(m, c));
        }
        Ok(())
    }
}

impl<T: Decode> Decode for VecDeque<T> {
    open spec fn dec_full(s: Seq<u8>, c: Config, b: Limit) -> Result<
        (Seq<T::V>, int, Limit),
        DecodeError,
    > {
        seq_dec_full::<T>(s, c, b)
    }

    open spec fn claim_width() -> int {
        32
    }

    fn claim_width_exec() -> (w: usize) {
        32
    }

    proof fn dec_full_sound(s: Seq<u8>, c: Config, b: Limit) {
        <Vec<T> as Decode>::dec_full_sound(s, c, b);
    }

    #[verifier::loop_isolation(false)]
    fn decode<R: Reader>(decoder: &mut Decoder<R>) -> (r: Result<VecDeque<T>, DecodeError>) {
        let ghost s0 = decoder.remaining();
        let ghost c = decoder.cfg();
        let len = match decode_slice_len(decoder) {
            Ok(l) => l,
            Err(e) => {
                return Err(e);
            },
        };
        let w = T::claim_width_exec();
        match decoder.claim_container_read(w, len) {
            Ok(()) => {},
            Err(e) => {
                return Err(e);
            },
        }
        let ghost s1 = decoder.remaining();
        let ghost b1 = decoder.budget_left();
        let mut out: VecDeque<T> = VecDeque::new();
        let mut i: usize = 0;
        let ghost mut consumed: int = 0;
        proof {
            assert(out.deep_view() =~= Seq::<T::V>::empty());
            assert(s1.skip(0) =~= s1);
            match elems_dec_full::<T>(s1, c, b1, w as int, len as nat) {
                Ok((ms, k, b3)) => {
                    assert(out.deep_view() + ms =~= ms);
                },
                Err(_) => {},
            }
        }
        while i < len
            invariant
                i <= len,
                out@.len() == i,
                c == decoder.cfg(),
                0 <= consumed <= s1.len(),
                decoder.remaining() == s1.skip(consumed),
                w as int == T::claim_width(),
                match elems_dec_full::<T>(
                    decoder.remaining(),
                    c,
                    decoder.budget_left(),
                    w as int,
                    (len - i) as nat,
                ) {
                    Ok((ms, k, b3)) => elems_dec_full::<T>(s1, c, b1, w as int, len as nat) == Ok::<
                        _,
                        DecodeError,
                    >((out.deep_view() + ms, consumed + k, b3)),
                    Err(e) => elems_dec_full::<T>(s1, c, b1, w as int, len as nat) == Err::<
                        (Seq<T::V>, int, Limit),
                        _,
                    >(e),
                },
            decreases len - i,
        {
            let ghost cur_s = decoder.remaining();
            let ghost cur_b = decoder.budget_left();
            let ghost prev_dv = out.deep_view();
            decoder.unclaim_bytes_read(w);
            proof {
                T::dec_full_sound(cur_s, c, decoder.budget_left());
            }
            let item = match T::decode(decoder) {
                Ok(v) => v,
                Err(e) => {
                    return Err(e);
                },
            };
            out.push_back(item);
            i = i + 1;
            proof {
                let step = T::dec_full(cur_s, c, spec_release(cur_b, w as int));
                match step {
                    Ok((m2, k2, bb2)) => {
                        assert(decoder.remaining() == cur_s.skip(k2));
                        assert(0 <= k2 <= cur_s.len());
                        consumed = consumed + k2;
                        assert(decoder.remaining() =~= s1.skip(consumed));
                        assert(out.deep_view() =~= prev_dv.push(m2));
                        match elems_dec_full::<T>(
                            decoder.remaining(),
                            c,
                            decoder.budget_left(),
                            w as int,
                            (len - i) as nat,
                        ) {
                            Ok((ms3, k3, b3)) => {
                                assert(out.deep_view() + ms3 =~= prev_dv + (seq![m2] + ms3));
                            },
                            Err(_) => {},
                        }
                    },
                    Err(_) => {
                        assert(false);
                    },
                }
            }
        }
        proof {
            assert(out.deep_view() + Seq::<T::V>::empty() =~= out.deep_view());
            lemma_pow256_128_bits();
            lemma_uint_dec_fits(s0, 8, c);
            assert(s1.skip(consumed) =~= s0.skip((s0.len() - s1.len()) + consumed));
        }
        Ok(out)
    }
}

impl<T: EncodedSize> EncodedSize for VecDeque<T> {
    #[verifier::loop_isolation(false)]
    fn encoded_size(&self, config: Config) -> (r: Result<usize, EncodeError>) {
        let ghost m = self.deep_view();
        let mut size: usize = crate::enc::size_slice_len(self.len(), config);
        let mut i: usize = 0;
        while i < self.len()
            invariant
                i <= self@.len(),
                m == self.deep_view(),
                m.len() == self@.len(),
                size as int == len_enc_bytes(m.len() as int, config).len() + elems_enc_bytes::<T>(
                    m.take(i as int),
                    config,
                ).len(),
            decreases self@.len() - i,
        {
            let item = &self[i];
            proof {
                assert(item.deep_view() == m[i as int]);
                assert(m.take(i as int + 1) =~= m.take(i as int).push(m[i as int]));
                lemma_elems_enc_push::<T>(m.take(i as int), m[i as int], config);
            }
            let item_size = match item.encoded_size(config) {
                Ok(n) => n,
                Err(_) => {
                    proof {
                        lemma_size_prefix_le::<T>(m, i as int + 1, config);
                    }
                    return Err(EncodeError::SizeOverflow);
                },
            };
            if size > usize::MAX - item_size {
                proof {
                    lemma_size_prefix_le::<T>(m, i as int + 1, config);
                }
                return Err(EncodeError::SizeOverflow);
            }
            size = size + item_size;
            i = i + 1;
        }
        proof {
            assert(m.take(m.len() as int) =~= m);
        }
        Ok(size)
    }
}

impl<'de, T: BorrowDecode<'de>> BorrowDecode<'de> for VecDeque<T> {
    open spec fn bdec_full(s: Seq<u8>, c: Config, b: Limit) -> Result<
        (Seq<T::V>, int, Limit),
        DecodeError,
    > {
        seq_bdec_full::<T>(s, c, b)
    }

    open spec fn bclaim_width() -> int {
        32
    }

    fn bclaim_width_exec() -> (w: usize) {
        32
    }

    proof fn bdec_full_sound(s: Seq<u8>, c: Config, b: Limit) {
        <Vec<T> as BorrowDecode<'de>>::bdec_full_sound(s, c, b);
    }

    #[verifier::loop_isolation(false)]
    fn borrow_decode<R: BorrowReader<'de>>(decoder: &mut Decoder<R>) -> (r: Result<
        VecDeque<T>,
        DecodeError,
    >) {
        match <Vec<T> as BorrowDecode<'de>>::borrow_decode(decoder) {
            Ok(v) => {
                let mut out: VecDeque<T> = VecDeque::new();
                let ghost dv = v.deep_view();
                let mut v = v;
                proof {
                    assert(v.deep_view() =~= dv.take(v@.len() as int));
                    assert(out.deep_view() =~= dv.skip(v@.len() as int));
                }
                while v.len() > 0
                    invariant
                        v@.len() <= dv.len(),
                        v.deep_view() == dv.take(v@.len() as int),
                        out.deep_view() == dv.skip(v@.len() as int),
                    decreases v@.len(),
                {
                    let ghost k = v@.len() as int;
                    let item = v.pop().unwrap();
                    proof {
                        assert(v.deep_view() =~= dv.take(k - 1));
                        assert(item.deep_view() == dv[k - 1]);
                    }
                    let ghost prevq = out@;
                    let ghost prev_dv = out.deep_view();
                    out.push_front(item);
                    proof {
                        assert(out@ =~= seq![item] + prevq);
                        assert forall|j: int|
                            0 <= j < out.deep_view().len() implies out.deep_view()[j] == dv.skip(
                            k - 1,
                        )[j] by {
                            if j == 0 {
                                assert(out@[0] == item);
                            } else {
                                assert(out@[j] == prevq[j - 1]);
                                assert(prev_dv[j - 1] == prevq[j - 1].deep_view());
                                assert(prev_dv[j - 1] == dv.skip(k as int)[j - 1]);
                            }
                        }
                        assert(out.deep_view() =~= dv.skip(k - 1));
                    }
                }
                proof {
                    assert(out.deep_view() =~= dv);
                }
                Ok(out)
            },
            Err(e) => Err(e),
        }
    }
}

impl<T: Lossless> Lossless for VecDeque<T> {
    open spec fn enc_wf(m: Seq<T::V>) -> bool {
        &&& m.len() <= usize::MAX
        &&& forall|i: int| 0 <= i < m.len() ==> #[trigger] T::enc_wf(m[i])
    }

    proof fn lemma_round_trip(m: Seq<T::V>, rest: Seq<u8>, c: Config) {
        <Vec<T> as Lossless>::lemma_round_trip(m, rest, c);
    }
}

impl<'de, T: BorrowAgrees<'de>> BorrowAgrees<'de> for VecDeque<T> {
    proof fn lemma_borrow_agrees(s: Seq<u8>, c: Config, b: Limit) {
        <Vec<T> as BorrowAgrees<'de>>::lemma_borrow_agrees(s, c, b);
    }
}

} // verus!
