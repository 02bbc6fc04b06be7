//! The symbol writer: the range coder plus CDF adaptation.
use vstd::prelude::*;
use crate::entropy::cdf::{update_cdf, spec_adapt, spec_rate};
use crate::entropy::range_coder::{OdEcEnc, CodedSymbol, offs_limit, coded_state, lemma_state_of_log, lemma_coded_state_push, done_value, done_byte};

verus! {

/// An ICDF of `n` symbols: its first `n - 1` entries are at most 32768 and its
/// adaptation counter at `n - 1` is at most 32.
pub open spec fn cdf_ok(cdf: Seq<u16>, n: nat) -> bool {
    &&& 2 <= n <= 16
    &&& n <= cdf.len()
    &&& forall|i: int| 0 <= i < n - 1 ==> #[trigger] cdf[i] <= 32768
    &&& cdf[n - 1] <= 32
}

/// Symbol `s` has a proper interval under `cdf`: both of its bounds are below 32768
/// (an entry of 32768 gives the symbols around it no room in the coder's range).
pub open spec fn codable(cdf: Seq<u16>, s: nat) -> bool {
    &&& cdf[s as int] < 32768
    &&& s > 0 ==> cdf[s - 1] < 32768
}

/// The log entries of `bits` equiprobable bits of `data`, most significant first.
pub open spec fn literal_symbols(data: u32, bits: nat) -> Seq<CodedSymbol> {
    Seq::new(bits, |k: int| CodedSymbol::Bool(((data >> ((bits - 1 - k) as u32)) & 1) != 0, 16384))
}

/// The ICDF after adapting to symbol `val` of `n` (the effect of `update_cdf`).
pub open spec fn adapted(cdf: Seq<u16>, val: nat, n: nat) -> Seq<u16> {
    let rate = spec_rate(cdf[n - 1], n);
    Seq::new(cdf.len(), |i: int|
        if 0 <= i < n - 1 { spec_adapt(cdf[i], i < val, rate) }
        else if i == n - 1 { if cdf[n - 1] < 32 { (cdf[n - 1] + 1) as u16 } else { 32u16 } }
        else { cdf[i] })
}

/// Adaptation law: adapting a usable ICDF leaves it usable.
pub proof fn lemma_adapted_ok(cdf: Seq<u16>, val: nat, n: nat)
    requires cdf_ok(cdf, n), val < n,
    ensures cdf_ok(adapted(cdf, val, n), n),
{
    let a = adapted(cdf, val, n);
    let rate = spec_rate(cdf[n - 1], n);
    assert(cdf[n - 1] / 16 <= 2);
    assert forall|i: int| 0 <= i < n - 1 implies #[trigger] a[i] <= 32768 by {
        let x = cdf[i];
        let r16: u16 = rate as u16;
        if i < val {
            let dd: u16 = (32768 - x) as u16;
            assert(dd >> r16 <= dd) by (bit_vector);
            assert((dd >> r16) as nat == dd >> rate);
        } else {
            assert(x >> r16 <= x) by (bit_vector);
            assert((x >> r16) as nat == x >> rate);
        }
    }
}

/// The AV1 symbol writer.
pub struct AomWriter {
    /// The arithmetic coder.
    pub ec: OdEcEnc,
    /// Whether written symbols adapt their CDF.
    pub allow_update_cdf: bool,
}

impl AomWriter {
    /// The coder is well formed and `k` more symbols fit below the output limit.
    pub open spec fn room(&self, k: nat) -> bool {
        self.ec.wf() && self.ec@.offs + 7 * k < offs_limit()
    }

    /// A writer with CDF adaptation on and a zeroed buffer of `capacity` bytes.
    pub fn new(capacity: usize) -> (r: Self)
        requires capacity <= crate::entropy::range_coder::buf_limit(),
        ensures
            r.ec.wf(),
            r.ec@.offs == 0 && r.ec@.low == 0 && r.ec@.rng == 32768 && r.ec@.cnt == -9,
            r.ec@.buf.len() == capacity,
            r.ec.coded() == Seq::<CodedSymbol>::empty(),
            r.allow_update_cdf,
    {
        AomWriter { ec: OdEcEnc::new(capacity), allow_update_cdf: true }
    }

    /// Write one equiprobable bit.
    pub fn write_bit(&mut self, bit: bool)
        requires old(self).room(1),
        ensures
            final(self).ec.wf(),
            final(self).ec.coded() == old(self).ec.coded().push(CodedSymbol::Bool(bit, 16384)),
            final(self).ec.base() == old(self).ec.base(),
            final(self).ec@ == coded_state(old(self).ec@, seq![CodedSymbol::Bool(bit, 16384)]),
            final(self).ec@.offs <= old(self).ec@.offs + 7,
            final(self).allow_update_cdf == old(self).allow_update_cdf,
    {
        self.ec.encode_bool_q15(bit, 16384);
        proof {
            assert(self.ec.coded() =~= old(self).ec.coded() + seq![CodedSymbol::Bool(bit, 16384)]);
            lemma_state_of_log(old(self).ec, self.ec, seq![CodedSymbol::Bool(bit, 16384)]);
        }
    }

    /// Write a bit whose 8-bit probability of being false is `prob`
    /// (Q15 probability `(0x7FFFFF - (prob << 15) + prob) >> 8`).
    pub fn write(&mut self, bit: bool, prob: u32)
        requires
            old(self).room(1),
            prob <= 255,
        ensures
            final(self).ec.wf(),
            final(self).ec.coded() == old(self).ec.coded().push(
                CodedSymbol::Bool(bit, ((0x7FFFFF - prob * 32768 + prob) / 256) as u32)),
            final(self).ec.base() == old(self).ec.base(),
            final(self).ec@ == coded_state(old(self).ec@,
                seq![CodedSymbol::Bool(bit, ((0x7FFFFF - prob * 32768 + prob) / 256) as u32)]),
            final(self).ec@.offs <= old(self).ec@.offs + 7,
            final(self).allow_update_cdf == old(self).allow_update_cdf,
    {
        assert(prob << 15u32 == prob * 32768) by (bit_vector) requires prob <= 255;
        let t: u32 = 0x7FFFFF - (prob << 15) + prob;
        assert(t >> 8u32 == t / 256) by (bit_vector);
        let p: u32 = t >> 8;
        self.ec.encode_bool_q15(bit, p);
        proof {
            assert(self.ec.coded() =~= old(self).ec.coded()
                + seq![CodedSymbol::Bool(bit, ((0x7FFFFF - prob * 32768 + prob) / 256) as u32)]);
            lemma_state_of_log(old(self).ec, self.ec,
                seq![CodedSymbol::Bool(bit, ((0x7FFFFF - prob * 32768 + prob) / 256) as u32)]);
        }
    }

    /// Write the low `bits` bits of `data` as equiprobable bits, most significant first.
    pub fn write_literal(&mut self, data: u32, bits: u32)
        requires
            old(self).room(bits as nat),
            bits <= 32,
        ensures
            final(self).ec.wf(),
            final(self).ec.coded() == old(self).ec.coded() + literal_symbols(data, bits as nat),
            final(self).ec.base() == old(self).ec.base(),
            final(self).ec@ == coded_state(old(self).ec@, literal_symbols(data, bits as nat)),
            final(self).ec@.offs <= old(self).ec@.offs + 7 * bits,
            final(self).allow_update_cdf == old(self).allow_update_cdf,
    {
        let mut k: u32 = 0;
        while k < bits
            invariant
                bits <= 32,
                k <= bits,
                self.ec.wf(),
                self.ec@.offs <= old(self).ec@.offs + 7 * k,
                old(self).ec@.offs + 7 * bits < offs_limit(),
                self.ec.coded() == old(self).ec.coded() + literal_symbols(data, bits as nat).subrange(0, k as int),
                self.ec.base() == old(self).ec.base(),
                self.allow_update_cdf == old(self).allow_update_cdf,
            decreases bits - k,
        {
            let bit = bits - 1 - k;
            self.write_bit((data >> bit) & 1 != 0);
            proof {
                assert(literal_symbols(data, bits as nat).subrange(0, (k + 1) as int)
                    =~= literal_symbols(data, bits as nat).subrange(0, k as int).push(
                        CodedSymbol::Bool(((data >> bit) & 1) != 0, 16384)));
            }
            k = k + 1;
        }
        proof {
            assert(literal_symbols(data, bits as nat).subrange(0, bits as int) =~= literal_symbols(data, bits as nat));
            lemma_state_of_log(old(self).ec, self.ec, literal_symbols(data, bits as nat));
        }
    }

    /// Write symbol `symb` of `nsymbs` under `cdf`, then adapt `cdf` when updates are on.
    pub fn write_symbol(&mut self, symb: usize, cdf: &mut [u16], nsymbs: usize)
        requires
            old(self).room(1),
            cdf_ok(old(cdf)@, nsymbs as nat),
            symb < nsymbs,
            codable(old(cdf)@, symb as nat),
        ensures
            final(self).ec.wf(),
            final(self).ec.coded() == old(self).ec.coded().push(CodedSymbol::Cdf(symb, old(cdf)@, nsymbs)),
            final(self).ec.base() == old(self).ec.base(),
            final(self).ec@ == coded_state(old(self).ec@, seq![CodedSymbol::Cdf(symb, old(cdf)@, nsymbs)]),
            final(self).ec@.offs <= old(self).ec@.offs + 7,
            final(self).allow_update_cdf == old(self).allow_update_cdf,
            old(self).allow_update_cdf ==> final(cdf)@ == adapted(old(cdf)@, symb as nat, nsymbs as nat),
            !old(self).allow_update_cdf ==> final(cdf)@ == old(cdf)@,
            cdf_ok(final(cdf)@, nsymbs as nat),
    {
        self.ec.encode_cdf_q15(symb, cdf, nsymbs);
        proof {
            assert(self.ec.coded() =~= old(self).ec.coded() + seq![CodedSymbol::Cdf(symb, old(cdf)@, nsymbs)]);
            lemma_state_of_log(old(self).ec, self.ec, seq![CodedSymbol::Cdf(symb, old(cdf)@, nsymbs)]);
        }
        if self.allow_update_cdf {
            update_cdf(cdf, symb, nsymbs);
            proof {
                assert(cdf@ =~= adapted(old(cdf)@, symb as nat, nsymbs as nat));
                lemma_adapted_ok(old(cdf)@, symb as nat, nsymbs as nat);
            }
        }
    }

    /// Write symbol `symb` of `nsymbs` under `cdf` without adapting it.
    pub fn write_cdf(&mut self, symb: usize, cdf: &[u16], nsymbs: usize)
        requires
            old(self).room(1),
            cdf_ok(cdf@, nsymbs as nat),
            symb < nsymbs,
            codable(cdf@, symb as nat),
        ensures
            final(self).ec.wf(),
            final(self).ec.coded() == old(self).ec.coded().push(CodedSymbol::Cdf(symb, cdf@, nsymbs)),
            final(self).ec.base() == old(self).ec.base(),
            final(self).ec@ == coded_state(old(self).ec@, seq![CodedSymbol::Cdf(symb, cdf@, nsymbs)]),
            final(self).ec@.offs <= old(self).ec@.offs + 7,
            final(self).allow_update_cdf == old(self).allow_update_cdf,
    {
        self.ec.encode_cdf_q15(symb, cdf, nsymbs);
        proof {
            assert(self.ec.coded() =~= old(self).ec.coded() + seq![CodedSymbol::Cdf(symb, cdf@, nsymbs)]);
            lemma_state_of_log(old(self).ec, self.ec, seq![CodedSymbol::Cdf(symb, cdf@, nsymbs)]);
        }
    }

    /// Finish coding: flush the `(cnt + 17) / 8` bytes that the pending window needs
    /// (none when `cnt + 10 <= 0`), start a new log from the flushed state, and return
    /// all bytes written.
    pub fn done(&mut self) -> (r: &[u8])
        requires old(self).room(0),
        ensures
            final(self).ec.wf(),
            r@ == final(self).ec@.buf.subrange(0, final(self).ec@.offs as int),
            final(self).ec.coded() == Seq::<CodedSymbol>::empty(),
            final(self).ec.base() == final(self).ec@,
            final(self).ec@.low == old(self).ec@.low && final(self).ec@.rng == old(self).ec@.rng,
            final(self).ec@.cnt == old(self).ec@.cnt,
            final(self).allow_update_cdf == old(self).allow_update_cdf,
            old(self).ec@.cnt + 10 <= 0 ==> final(self).ec@ == old(self).ec@,
            old(self).ec@.cnt + 10 > 0 ==> ({
                let nb = ((old(self).ec@.cnt + 17) / 8) as nat;
                let e = done_value(old(self).ec@.low);
                &&& final(self).ec@.offs == old(self).ec@.offs + nb
                &&& forall|i: int| 0 <= i < nb ==> #[trigger] final(self).ec@.buf[old(self).ec@.offs + i]
                    == done_byte(e, old(self).ec@.cnt, i)
                &&& forall|j: int| 0 <= j < old(self).ec@.offs ==> #[trigger] final(self).ec@.buf[j]
                    == old(self).ec@.buf[j]
            }),
    {
        self.ec.done()
    }

    /// Number of bytes written so far.
    pub fn bytes_written(&self) -> (r: usize)
        ensures r == self.ec@.offs,
    {
        self.ec.bytes_written()
    }
}

} // verus!
