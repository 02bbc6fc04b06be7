//! The daala/AV1 arithmetic range coder (encoder side).
//!
//! The coder keeps a 64-bit window `low`, a 16-bit range `rng` and a bit count
//! `cnt`. Each symbol narrows `[low, low + rng)` to the symbol's sub-interval,
//! then the interval is renormalized so that `32768 <= rng < 65536`; when the
//! window holds 40 bits or more, whole bytes leave it for the output buffer,
//! carrying into bytes already written.
use vstd::prelude::*;
use vstd::arithmetic::power2::{pow2, lemma_pow2_adds, lemma_pow2_pos, lemma2_to64, lemma_pow2_strictly_increases};
use vstd::bits::{lemma_u64_shl_is_mul, lemma_u64_shr_is_div, lemma_u64_pow2_no_overflow, lemma_u64_low_bits_mask_is_mod, lemma_u32_pow2_no_overflow, lemma_u16_shl_is_mul, low_bits_mask};

verus! {

/// Probability shift for range coding.
pub const EC_PROB_SHIFT: u32 = 6;
/// Minimum probability of a symbol.
pub const EC_MIN_PROB: u32 = 4;

/// The state of the coder, as mathematical values.
pub struct EncView {
    pub low: nat,
    pub rng: nat,
    pub cnt: int,
    pub offs: nat,
    pub buf: Seq<u8>,
    pub error: bool,
}

/// Number of bits needed to write `x` (0 for 0).
pub open spec fn ilog(x: nat) -> nat
    decreases x,
{
    if x == 0 { 0 } else { 1 + ilog(x / 2) }
}

/// Split point of a binary symbol with Q15 probability `f` in a range `r`.
pub open spec fn bool_split(r: nat, f: nat) -> nat {
    ((r / 256) * (f / 64)) / 2 + 4
}

/// Boundary of a multi-symbol interval for ICDF entry `p` with `k` symbols above it.
pub open spec fn cdf_bound(r: nat, p: nat, k: nat) -> nat {
    ((r / 256) * (p / 64)) / 2 + 4 * k
}

/// Sub-interval `(low, range)` of a binary symbol.
pub open spec fn bool_interval(low: nat, r: nat, val: bool, f: nat) -> (nat, nat) {
    let v = bool_split(r, f);
    if val { (low + (r - v) as nat, v) } else { (low, (r - v) as nat) }
}

/// Sub-interval `(low, range)` of symbol `s` out of `nsyms` under ICDF `icdf`.
pub open spec fn cdf_interval(low: nat, r: nat, s: nat, icdf: Seq<u16>, nsyms: nat) -> (nat, nat) {
    let n = (nsyms - 1) as nat;
    let v_s = cdf_bound(r, icdf[s as int] as nat, (n - s) as nat);
    let v_prev = if s > 0 { cdf_bound(r, icdf[s - 1] as nat, (n - s + 1) as nat) } else { r };
    let new_r = if v_prev > v_s { (v_prev - v_s) as nat } else { 1nat };
    (low + v_s, new_r)
}

/// The buffer after a carry into byte `i` and, while it wraps to zero, the bytes before it.
pub open spec fn propagate_carry(buf: Seq<u8>, i: int) -> Seq<u8>
    decreases i,
{
    if i < 0 || i >= buf.len() {
        buf
    } else {
        let nv = ((buf[i] as int + 1) % 256) as u8;
        let b2 = buf.update(i, nv);
        if nv != 0 || i == 0 { b2 } else { propagate_carry(b2, i - 1) }
    }
}

/// The buffer with the `nb` big-endian bytes of `data` stored from position `offs`.
pub open spec fn store_be(buf: Seq<u8>, offs: int, data: nat, nb: nat) -> Seq<u8> {
    Seq::new(buf.len(), |j: int|
        if offs <= j < offs + nb { ((data / pow2((8 * (nb - 1 - (j - offs))) as nat)) % 256) as u8 } else { buf[j] })
}

/// The buffer grown (zero-filled) to `2 * len + 8` when fewer than 8 bytes follow `offs`.
pub open spec fn grown(buf: Seq<u8>, offs: nat) -> Seq<u8> {
    if offs + 8 > buf.len() { buf + Seq::new(buf.len() + 8, |j: int| 0u8) } else { buf }
}

/// The state after renormalizing the interval `[l, l + r)` from state `pre`.
pub open spec fn renormalized(pre: EncView, l: nat, r: nat) -> EncView {
    let d = (16 - ilog(r)) as nat;
    let s = pre.cnt + d;
    if pre.error {
        pre
    } else if s < 40 {
        EncView { low: l * pow2(d), rng: r * pow2(d), cnt: s, ..pre }
    } else {
        let nb = (s / 8 + 1) as nat;
        let nc = (pre.cnt + 24 - 8 * nb) as nat;
        let output = l / pow2(nc);
        let carry = (output / pow2(8 * nb)) % 2;
        let data = output % pow2(8 * nb);
        let b1 = grown(pre.buf, pre.offs);
        let b2 = if carry != 0 && pre.offs > 0 { propagate_carry(b1, pre.offs - 1) } else { b1 };
        EncView {
            low: (l % pow2(nc)) * pow2(d),
            rng: r * pow2(d),
            cnt: nc + d - 24,
            offs: pre.offs + nb,
            buf: store_be(b2, pre.offs as int, data, nb),
            error: false,
        }
    }
}

/// A coded symbol, as recorded in the coder's log.
pub enum CodedSymbol {
    /// A binary symbol with Q15 probability.
    Bool(bool, u32),
    /// Symbol `s` of `nsyms` under the given ICDF.
    Cdf(usize, Seq<u16>, usize),
}

/// The coder state after coding symbol `x` from state `v`: the symbol's sub-interval,
/// renormalized.
pub open spec fn enc_step(v: EncView, x: CodedSymbol) -> EncView {
    match x {
        CodedSymbol::Bool(val, f) => {
            let (l, r) = bool_interval(v.low, v.rng, val, f as nat);
            renormalized(v, l, r)
        },
        CodedSymbol::Cdf(sym, icdf, n) => {
            let (l, r) = cdf_interval(v.low, v.rng, sym as nat, icdf, n as nat);
            renormalized(v, l, r)
        },
    }
}

/// The coder state after coding the symbols `xs` in order from state `v`.
pub open spec fn coded_state(v: EncView, xs: Seq<CodedSymbol>) -> EncView
    decreases xs.len(),
{
    if xs.len() == 0 { v } else { enc_step(coded_state(v, xs.drop_last()), xs.last()) }
}

/// Coding `a` then `b` is coding `a + b`.
pub proof fn lemma_coded_state_concat(v: EncView, a: Seq<CodedSymbol>, b: Seq<CodedSymbol>)
    ensures coded_state(v, a + b) == coded_state(coded_state(v, a), b),
    decreases b.len(),
{
    if b.len() == 0 {
        assert(a + b =~= a);
    } else {
        assert((a + b).drop_last() =~= a + b.drop_last());
        lemma_coded_state_concat(v, a, b.drop_last());
    }
}

/// Coding one more symbol is one more step.
pub proof fn lemma_coded_state_push(v: EncView, a: Seq<CodedSymbol>, x: CodedSymbol)
    ensures coded_state(v, a.push(x)) == enc_step(coded_state(v, a), x),
{
    assert(a.push(x).drop_last() =~= a);
}

/// A coder that went from `a` to `b` by coding `xs` (its log grew by `xs` and it was
/// not flushed or reset) holds exactly the state that coding `xs` from `a` gives.
pub proof fn lemma_state_of_log(a: OdEcEnc, b: OdEcEnc, xs: Seq<CodedSymbol>)
    requires a.wf(), b.wf(), b.base() == a.base(), b.coded() == a.coded() + xs,
    ensures b@ == coded_state(a@, xs),
{
    lemma_coded_state_concat(a.base(), a.coded(), xs);
}

/// Core arithmetic encoder state.
pub struct OdEcEnc {
    buf: Vec<u8>,
    offs: u32,
    low: u64,
    rng: u16,
    cnt: i16,
    error: bool,
    coded: Ghost<Seq<CodedSymbol>>,
    base: Ghost<EncView>,
}

/// Largest output buffer the coder is specified for.
pub open spec fn buf_limit() -> nat {
    0x1_0000_0000_0000
}

/// Largest output offset at which a symbol may be coded: the 32-bit output offset must
/// still hold the few bytes that one symbol or the final flush adds.
pub open spec fn offs_limit() -> nat {
    0xFFFF_FFF0
}

impl View for OdEcEnc {
    type V = EncView;

    open spec fn view(&self) -> EncView {
        self.spec_state()
    }
}

impl OdEcEnc {
    /// The coder state as mathematical values.
    pub closed spec fn spec_state(&self) -> EncView {
        EncView {
            low: self.low as nat,
            rng: self.rng as nat,
            cnt: self.cnt as int,
            offs: self.offs as nat,
            buf: self.buf@,
            error: self.error,
        }
    }

    /// The symbols coded since construction, the last reset or the last flush.
    pub closed spec fn coded(&self) -> Seq<CodedSymbol> {
        self.coded@
    }

    /// The coder state at construction, the last reset or the last flush.
    pub closed spec fn base(&self) -> EncView {
        self.base@
    }

    /// Invariant of the coder: the range is normalized, the window holds at most
    /// `cnt + 25` bits and the interval fits in it, and the output fits the buffer.
    pub open spec fn wf(&self) -> bool {
        &&& self.wf_core()
        &&& self.log_consistent()
    }

    /// The state is the base state with the logged symbols coded into it.
    pub closed spec fn log_consistent(&self) -> bool {
        self@ == coded_state(self.base(), self.coded())
    }

    /// The numeric part of [`Self::wf`].
    pub open spec fn wf_core(&self) -> bool {
        let v = self@;
        &&& 32768 <= v.rng <= 65535
        &&& -9 <= v.cnt <= 39
        &&& v.low + v.rng <= pow2((v.cnt + 25) as nat)
        &&& v.offs <= v.buf.len()
        &&& v.buf.len() <= buf_limit()
        &&& !v.error
    }

    /// A coder with a zeroed output buffer of `capacity` bytes and the initial
    /// interval `[0, 32768)` with 9 bits pending.
    pub fn new(capacity: usize) -> (r: Self)
        requires capacity <= buf_limit(),
        ensures
            r.wf(),
            r@ == (EncView { low: 0, rng: 32768, cnt: -9, offs: 0, buf: Seq::new(capacity as nat, |i: int| 0u8), error: false }),
            r.coded() == Seq::<CodedSymbol>::empty(),
            r.base() == r@,
    {
        let buf = vec![0u8; capacity];
        proof {
            lemma2_to64();
            assert(buf@ =~= Seq::new(capacity as nat, |i: int| 0u8));
        }
        let ghost init = EncView { low: 0, rng: 32768, cnt: -9, offs: 0, buf: buf@, error: false };
        OdEcEnc { buf, offs: 0, low: 0, rng: 0x8000, cnt: -9, error: false, coded: Ghost(Seq::empty()), base: Ghost(init) }
    }

    /// Return to the initial interval with nothing written (the buffer is kept).
    pub fn reset(&mut self)
        requires old(self)@.buf.len() <= buf_limit(),
        ensures
            final(self).wf(),
            final(self)@ == (EncView { low: 0, rng: 32768, cnt: -9, offs: 0, error: false, ..old(self)@ }),
            final(self).coded() == Seq::<CodedSymbol>::empty(),
            final(self).base() == final(self)@,
    {
        proof { lemma2_to64(); }
        self.offs = 0;
        self.low = 0;
        self.rng = 0x8000;
        self.cnt = -9;
        self.error = false;
        self.coded = Ghost(Seq::empty());
        self.base = Ghost(self.spec_state());
    }

    /// True if an error has occurred.
    pub fn has_error(&self) -> (r: bool)
        ensures r == self@.error,
    {
        self.error
    }

    /// Carry into byte `offs - 1` of the output, propagating while bytes wrap to zero.
    fn propagate(&mut self, offs: usize)
        requires
            0 < offs <= old(self).buf@.len(),
        ensures
            final(self).buf@ == propagate_carry(old(self).buf@, offs - 1),
            final(self).buf@.len() == old(self).buf@.len(),
            final(self).offs == old(self).offs && final(self).low == old(self).low,
            final(self).rng == old(self).rng && final(self).cnt == old(self).cnt,
            final(self).error == old(self).error && final(self).coded == old(self).coded && final(self).base == old(self).base,
    {
        let mut i: usize = offs - 1;
        loop
            invariant_except_break
                i < self.buf@.len(),
                propagate_carry(old(self).buf@, offs - 1) == propagate_carry(self.buf@, i as int),
                self.buf@.len() == old(self).buf@.len(),
                self.offs == old(self).offs && self.low == old(self).low,
                self.rng == old(self).rng && self.cnt == old(self).cnt,
                self.error == old(self).error && self.coded == old(self).coded && self.base == old(self).base,
            ensures
                self.buf@ == propagate_carry(old(self).buf@, offs - 1),
                self.buf@.len() == old(self).buf@.len(),
                self.offs == old(self).offs && self.low == old(self).low,
                self.rng == old(self).rng && self.cnt == old(self).cnt,
                self.error == old(self).error && self.coded == old(self).coded && self.base == old(self).base,
            decreases i,
        {
            let new_val = self.buf[i].wrapping_add(1);
            proof {
                assert(new_val == ((self.buf@[i as int] as int + 1) % 256) as u8);
            }
            self.buf.set(i, new_val);
            if new_val != 0 || i == 0 {
                break;
            }
            i = i - 1;
        }
    }

    /// Grow the buffer to `2 * len + 8` (zero-filled) when fewer than 8 bytes follow `offs`.
    fn grow(&mut self)
        requires
            (old(self).offs as nat) < offs_limit(),
            old(self).buf@.len() <= buf_limit(),
            old(self).offs as nat <= old(self).buf@.len(),
        ensures
            final(self).buf@ == grown(old(self).buf@, old(self).offs as nat),
            final(self).buf@.len() <= buf_limit(),
            final(self).buf@.len() >= final(self).offs + 8,
            final(self).offs == old(self).offs && final(self).low == old(self).low,
            final(self).rng == old(self).rng && final(self).cnt == old(self).cnt,
            final(self).error == old(self).error && final(self).coded == old(self).coded && final(self).base == old(self).base,
    {
        let len = self.buf.len();
        if (self.offs as usize) + 8 > len {
            let extra = len + 8;
            let mut k: usize = 0;
            while k < extra
                invariant
                    len == old(self).buf@.len(),
                    extra == len + 8,
                    (old(self).offs as nat) < offs_limit(),
                    old(self).offs as nat + 8 > len,
                    k <= extra,
                    self.buf@ == old(self).buf@ + Seq::new(k as nat, |j: int| 0u8),
                    self.offs == old(self).offs && self.low == old(self).low,
                    self.rng == old(self).rng && self.cnt == old(self).cnt,
                    self.error == old(self).error && self.coded == old(self).coded && self.base == old(self).base,
                decreases extra - k,
            {
                self.buf.push(0);
                k = k + 1;
                proof {
                    assert(self.buf@ =~= old(self).buf@ + Seq::new(k as nat, |j: int| 0u8));
                }
            }
        }
    }

    /// Store the `num_bytes` big-endian bytes of `data` at the current offset.
    fn store_bytes(&mut self, data: u64, num_bytes: u32)
        requires
            1 <= num_bytes <= 8,
            old(self).offs as nat + num_bytes <= old(self).buf@.len(),
            (old(self).offs as nat) < offs_limit(),
        ensures
            final(self).buf@ == store_be(old(self).buf@, old(self).offs as int, data as nat, num_bytes as nat),
            final(self).offs == old(self).offs + num_bytes,
            final(self).low == old(self).low,
            final(self).rng == old(self).rng && final(self).cnt == old(self).cnt,
            final(self).error == old(self).error && final(self).coded == old(self).coded && final(self).base == old(self).base,
    {
        let offs = self.offs as usize;
        let mut i: u32 = 0;
        while i < num_bytes
            invariant
                1 <= num_bytes <= 8,
                offs == old(self).offs,
                (offs as nat) < offs_limit(),
                offs + num_bytes <= self.buf@.len(),
                self.buf@.len() == old(self).buf@.len(),
                i <= num_bytes,
                forall|j: int| 0 <= j < self.buf@.len() && !(offs <= j < offs + i) ==> #[trigger] self.buf@[j] == old(self).buf@[j],
                forall|j: int| offs <= j < offs + i ==> #[trigger] self.buf@[j]
                    == ((data as nat / pow2((8 * (num_bytes - 1 - (j - offs))) as nat)) % 256) as u8,
                self.offs == old(self).offs && self.low == old(self).low,
                self.rng == old(self).rng && self.cnt == old(self).cnt,
                self.error == old(self).error && self.coded == old(self).coded && self.base == old(self).base,
            decreases num_bytes - i,
        {
            let shift: u64 = ((num_bytes - 1 - i) * 8) as u64;
            let shifted: u64 = data >> shift;
            proof {
                lemma_u64_shr_is_div(data, shift);
                assert((shifted as u8) == (shifted % 256) as u8) by (bit_vector);
            }
            self.buf.set(offs + i as usize, #[verifier::truncate] (shifted as u8));
            i = i + 1;
        }
        proof {
            assert(self.buf@ =~= store_be(old(self).buf@, old(self).offs as int, data as nat, num_bytes as nat));
        }
        self.offs = self.offs + num_bytes;
    }
}

impl OdEcEnc {
    /// Renormalize the interval `[low, low + rng)`, flushing whole bytes to the
    /// output when the window would hold 40 bits or more.
    fn normalize(&mut self, low: u64, rng: u16)
        requires
            old(self).wf_core(),
            rng >= 1,
            low as nat + rng as nat <= pow2((old(self)@.cnt + 25) as nat),
            (old(self).offs as nat) < offs_limit(),
        ensures
            final(self)@ == renormalized(old(self)@, low as nat, rng as nat),
            final(self).wf_core(),
            final(self).coded == old(self).coded && final(self).base == old(self).base,
    {
        if self.error {
            return;
        }
        let c: i32 = self.cnt as i32;
        let lg = ilog_nz(rng as u32);
        let d: i32 = 16 - lg;
        let s: i32 = c + d;
        proof {
            lemma2_to64();
            lemma_ilog_bounds(rng as nat);
            lemma_ilog_le(rng as nat, 16);
            lemma_pow2_adds((lg - 1) as nat, d as nat);
            lemma_pow2_adds(lg as nat, d as nat);
            lemma_pow2_adds((c + 25) as nat, d as nat);
            vstd::arithmetic::mul::lemma_mul_inequality(
                pow2((lg - 1) as nat) as int, rng as int, pow2(d as nat) as int);
            vstd::arithmetic::mul::lemma_mul_strict_inequality(
                rng as int, pow2(lg as nat) as int, pow2(d as nat) as int);
            lemma_pow2_pos(d as nat);
            vstd::arithmetic::mul::lemma_mul_is_distributive_add_other_way(
                pow2(d as nat) as int, low as int, rng as int);
            vstd::arithmetic::mul::lemma_mul_inequality(
                (low + rng) as int, pow2((c + 25) as nat) as int, pow2(d as nat) as int);
        }
        let rs: u16 = rng << (d as u16);
        proof {
            lemma_u16_shl_is_mul(rng, d as u16);
            assert(32768 <= rs <= 65535);
        }
        if s >= 40 {
            self.flush_bytes(low, rng, s, d);
            return;
        }
        proof {
            lemma_pow2_pos((s + 25) as nat);
            if s + 25 < 64 {
                lemma_pow2_strictly_increases((s + 25) as nat, 64);
            }
            lemma_u64_shl_is_mul(low, d as u64);
        }
        self.low = low << (d as u64);
        self.rng = rs;
        self.cnt = s as i16;
    }

    /// Move the top bytes of the window to the output (with carry) and renormalize.
    fn flush_bytes(&mut self, low: u64, rng: u16, s: i32, d: i32)
        requires
            old(self).wf_core(),
            rng >= 1,
            d == 16 - ilog(rng as nat),
            s == old(self)@.cnt + d,
            40 <= s,
            low as nat + rng as nat <= pow2((old(self)@.cnt + 25) as nat),
            (old(self).offs as nat) < offs_limit(),
        ensures
            final(self)@ == renormalized(old(self)@, low as nat, rng as nat),
            final(self).wf_core(),
            final(self).coded == old(self).coded && final(self).base == old(self).base,
    {
        let c: i32 = self.cnt as i32;
        proof {
            lemma2_to64();
            lemma_ilog_bounds(rng as nat);
            lemma_ilog_le(rng as nat, 16);
        }
        self.grow();
        assert(s >> 3 == s / 8) by (bit_vector) requires s >= 0;
        let num_bytes: u32 = ((s >> 3) + 1) as u32;
        let new_c: i32 = c + 24 - (num_bytes as i32) * 8;
        assert(1 <= new_c <= 23);
        assert(16 <= new_c + d <= 23);
        let output: u64 = low >> (new_c as u64);
        let one_c: u64 = 1u64 << (new_c as u64);
        proof {
            lemma_u64_pow2_no_overflow(new_c as nat);
            lemma_u64_shl_is_mul(1, new_c as u64);
            lemma_pow2_pos(new_c as nat);
        }
        let new_low: u64 = low & (one_c - 1);
        assert(6 <= num_bytes <= 7);
        let mask: u64 = 1u64 << ((num_bytes * 8) as u64);
        proof {
            lemma_u64_pow2_no_overflow((num_bytes * 8) as nat);
            lemma_u64_shl_is_mul(1, (num_bytes * 8) as u64);
            lemma_pow2_pos((num_bytes * 8) as nat);
        }
        let carry: u64 = output & mask;
        let data: u64 = output & (mask - 1);
        proof {
            lemma_u64_shr_is_div(low, new_c as u64);
            lemma_u64_shl_is_mul(1, new_c as u64);
            lemma_u64_shl_is_mul(1, (num_bytes * 8) as u64);
            lemma_u64_pow2_no_overflow(new_c as nat);
            lemma_u64_pow2_no_overflow((num_bytes * 8) as nat);
            vstd::bits::lemma_low_bits_mask_values();
            vstd::bits::lemma_low_bits_mask_unfold(new_c as nat);
            vstd::bits::lemma_low_bits_mask_unfold((num_bytes * 8) as nat);
            lemma_u64_low_bits_mask_is_mod(low, new_c as nat);
            lemma_u64_low_bits_mask_is_mod(output, (num_bytes * 8) as nat);
            // the window holds fewer than 2 * 2^(8 * num_bytes) values above new_c
            lemma_pow2_adds(new_c as nat, (8 * num_bytes + 1) as nat);
            lemma_pow2_adds((8 * num_bytes) as nat, 1);
            if c + 25 < new_c + 8 * num_bytes + 1 {
                lemma_pow2_strictly_increases((c + 25) as nat, (new_c + 8 * num_bytes + 1) as nat);
            }
            lemma_pow2_pos(new_c as nat);
            lemma_div_lt(
                low as int, pow2(new_c as nat) as int, pow2((8 * num_bytes + 1) as nat) as int);
            let m = pow2((8 * num_bytes) as nat);
            let on = output as nat;
            assert(on < 2 * m);
            assert((output & mask) == 0 || (output & mask) == mask) by (bit_vector)
                requires mask == 1u64 << ((num_bytes * 8) as u64), num_bytes <= 7;
            if on >= m {
                assert(on / m == 1) by {
                    vstd::arithmetic::div_mod::lemma_div_is_ordered(m as int, on as int, m as int);
                    vstd::arithmetic::div_mod::lemma_div_by_self(m as int);
                    lemma_div_lt(on as int, m as int, 2);
                }
                assert(((output & mask) != 0)) by (bit_vector)
                    requires mask == 1u64 << ((num_bytes * 8) as u64), num_bytes <= 7,
                        output >= mask, output < 2 * mask;
            } else {
                assert(on / m == 0) by {
                    vstd::arithmetic::div_mod::lemma_basic_div(on as int, m as int);
                }
                assert(((output & mask) == 0)) by (bit_vector)
                    requires mask == 1u64 << ((num_bytes * 8) as u64), num_bytes <= 7, output < mask;
            }
        }
        if carry != 0 && self.offs > 0 {
            let o = self.offs as usize;
            self.propagate(o);
            proof {
                lemma_propagate_len(self.buf@, 0);
            }
        }
        self.store_bytes(data, num_bytes);
        let new_s: i32 = new_c + d - 24;
        proof {
            lemma_u64_pow2_no_overflow((new_c + d) as nat);
            lemma_pow2_adds(new_c as nat, d as nat);
            vstd::arithmetic::mul::lemma_mul_inequality(
                new_low as int, (pow2(new_c as nat) - 1) as int, pow2(d as nat) as int);
            lemma_pow2_adds((lg_of(rng) - 1) as nat, d as nat);
            lemma_pow2_adds(lg_of(rng) as nat, d as nat);
            vstd::arithmetic::mul::lemma_mul_inequality(
                pow2((lg_of(rng) - 1) as nat) as int, rng as int, pow2(d as nat) as int);
            vstd::arithmetic::mul::lemma_mul_strict_inequality(
                rng as int, pow2(lg_of(rng) as nat) as int, pow2(d as nat) as int);
            lemma_pow2_pos(d as nat);
            if 16 < new_c + d {
                lemma_pow2_strictly_increases(16, (new_c + d) as nat);
            }
            lemma_pow2_adds((new_c + d) as nat, 1);
            vstd::arithmetic::mul::lemma_mul_is_distributive_sub_other_way(
                pow2(d as nat) as int, pow2(new_c as nat) as int, 1);
            lemma_u16_shl_is_mul(rng, d as u16);
            assert(new_low as int == low as int % pow2(new_c as nat) as int);
            assert(new_low < pow2(new_c as nat));
            assert(new_low * pow2(d as nat) <= (pow2(new_c as nat) - 1) * pow2(d as nat));
            lemma_u64_shl_is_mul(new_low, d as u64);
        }
        self.low = new_low << (d as u64);
        self.rng = rng << (d as u16);
        self.cnt = new_s as i16;
    }
}

/// Carry propagation keeps the length of the buffer.
pub proof fn lemma_propagate_len(buf: Seq<u8>, i: int)
    ensures propagate_carry(buf, i).len() == buf.len(),
    decreases i,
{
    if !(i < 0 || i >= buf.len()) {
        let nv = ((buf[i] as int + 1) % 256) as u8;
        let b2 = buf.update(i, nv);
        if !(nv != 0 || i == 0) {
            lemma_propagate_len(b2, i - 1);
        }
    }
}

/// `x / a < b` when `0 <= x < a * b`.
pub proof fn lemma_div_lt(x: int, a: int, b: int)
    requires a > 0, 0 <= x < a * b,
    ensures x / a < b,
{
    vstd::arithmetic::div_mod::lemma_fundamental_div_mod(x, a);
    if x / a >= b {
        vstd::arithmetic::mul::lemma_mul_inequality(b, x / a, a);
        vstd::arithmetic::mul::lemma_mul_is_commutative(a, x / a);
        vstd::arithmetic::mul::lemma_mul_is_commutative(a, b);
    }
}

/// The bit length of a range value.
pub open spec fn lg_of(r: u16) -> int {
    ilog(r as nat) as int
}

impl OdEcEnc {
    /// Code symbol `s` of `nsyms` under the inverse CDF `icdf` (entries decreasing
    /// toward 0); the symbol's interval is `[v[s], v[s-1])` with `v[-1] = rng`.
    pub fn encode_cdf_q15(&mut self, s: usize, icdf: &[u16], nsyms: usize)
        requires
            old(self).wf(),
            s < nsyms <= 16,
            nsyms <= icdf@.len(),
            icdf@[s as int] < 32768,
            s > 0 ==> icdf@[s - 1] < 32768,
            old(self)@.offs < offs_limit(),
        ensures
            final(self).wf(),
            final(self)@ == ({
                let (l, r) = cdf_interval(old(self)@.low, old(self)@.rng, s as nat, icdf@, nsyms as nat);
                renormalized(old(self)@, l, r)
            }),
            final(self).coded() == old(self).coded().push(CodedSymbol::Cdf(s, icdf@, nsyms)),
            final(self).base() == old(self).base(),
            final(self)@.offs <= old(self)@.offs + 7,
            old(self)@.offs <= final(self)@.offs,
    {
        let n: u32 = nsyms as u32 - 1;
        let r: u32 = self.rng as u32;
        let l: u64 = self.low;
        let ps: u32 = (icdf[s] >> 6) as u32;
        proof {
            let x = icdf@[s as int];
            assert(x >> 6u16 == x / 64) by (bit_vector);
            assert(r >> 8u32 == r / 256) by (bit_vector);
            assert((r / 256) * ps <= 255 * 511) by (nonlinear_arith)
                requires r / 256 <= 255, ps <= 511;
        }
        let prod_s: u32 = (r >> 8) * ps;
        assert(prod_s >> 1u32 == prod_s / 2) by (bit_vector);
        let v_s: u32 = (prod_s >> 1) + EC_MIN_PROB * (n - s as u32);
        let v_prev: u32 = if s > 0 {
            let pp: u32 = (icdf[s - 1] >> 6) as u32;
            proof {
                let x = icdf@[s - 1];
                assert(x >> 6u16 == x / 64) by (bit_vector);
                assert((r / 256) * pp <= 255 * 511) by (nonlinear_arith)
                    requires r / 256 <= 255, pp <= 511;
            }
            let prod_p: u32 = (r >> 8) * pp;
            assert(prod_p >> 1u32 == prod_p / 2) by (bit_vector);
            proof {
                assert(prod_p / 2 + 4 * (n - s + 1) <= r) by (nonlinear_arith)
                    requires prod_p == (r / 256) * pp, pp <= 511, r >= 32768, r <= 65535,
                        n - s + 1 <= 15;
            }
            (prod_p >> 1) + EC_MIN_PROB * (n - (s as u32 - 1))
        } else {
            r
        };
        proof {
            assert(prod_s / 2 + 4 * (n - s) + 4 <= r) by (nonlinear_arith)
                requires prod_s == (r / 256) * ps, ps <= 511, r >= 32768, r <= 65535,
                    n - s <= 15;
        }
        let new_rng: u32 = if v_prev > v_s { v_prev - v_s } else { 1 };
        proof { lemma_window_fits(self@); }
        let new_l: u64 = l + v_s as u64;
        proof {
            lemma2_to64();
            assert(new_l as nat + new_rng as nat <= l as nat + r as nat);
        }
        proof { lemma_renormalized_offs(self@, new_l as nat, new_rng as nat); }
        self.normalize(new_l, new_rng as u16);
        proof { lemma_coded_state_push(self.base@, self.coded@, CodedSymbol::Cdf(s, icdf@, nsyms)); }
        self.coded = Ghost(self.coded@.push(CodedSymbol::Cdf(s, icdf@, nsyms)));
    }

    /// Code a binary symbol `val` whose Q15 probability of being false is `f`.
    pub fn encode_bool_q15(&mut self, val: bool, f: u32)
        requires
            old(self).wf(),
            0 < f < 32768,
            old(self)@.offs < offs_limit(),
        ensures
            final(self).wf(),
            final(self)@ == ({
                let (l, r) = bool_interval(old(self)@.low, old(self)@.rng, val, f as nat);
                renormalized(old(self)@, l, r)
            }),
            final(self).coded() == old(self).coded().push(CodedSymbol::Bool(val, f)),
            final(self).base() == old(self).base(),
            final(self)@.offs <= old(self)@.offs + 7,
            old(self)@.offs <= final(self)@.offs,
    {
        let l: u64 = self.low;
        let r: u32 = self.rng as u32;
        proof {
            assert(r >> 8u32 == r / 256) by (bit_vector);
            assert(f >> 6u32 == f / 64) by (bit_vector);
            assert((r / 256) * (f / 64) <= 255 * 511) by (nonlinear_arith)
                requires r / 256 <= 255, f / 64 <= 511;
        }
        let prod: u32 = (r >> 8) * (f >> EC_PROB_SHIFT);
        assert(prod >> 1u32 == prod / 2) by (bit_vector);
        let v: u32 = (prod >> 1) + EC_MIN_PROB;
        proof {
            assert(prod / 2 + 4 + 60 <= r) by (nonlinear_arith)
                requires prod == (r / 256) * (f / 64), f / 64 <= 511, r >= 32768, r <= 65535;
            lemma2_to64();
        }
        proof { lemma_window_fits(self@); }
        let (new_l, new_r): (u64, u16) = if val {
            (l + (r - v) as u64, v as u16)
        } else {
            (l, (r - v) as u16)
        };
        proof { lemma_renormalized_offs(self@, new_l as nat, new_r as nat); }
        self.normalize(new_l, new_r);
        proof { lemma_coded_state_push(self.base@, self.coded@, CodedSymbol::Bool(val, f)); }
        self.coded = Ghost(self.coded@.push(CodedSymbol::Bool(val, f)));
    }

    /// Finish: round `low` up to a decodable value and write the remaining
    /// `(10 + cnt + 7) / 8` bytes; returns all bytes written.
    pub fn done(&mut self) -> (r: &[u8])
        requires
            old(self).wf(),
            old(self)@.offs < offs_limit(),
        ensures
            final(self).wf(),
            final(self)@.low == old(self)@.low && final(self)@.rng == old(self)@.rng,
            final(self)@.cnt == old(self)@.cnt,
            final(self).coded() == Seq::<CodedSymbol>::empty(),
            final(self).base() == final(self)@,
            old(self)@.cnt + 10 <= 0 ==> final(self)@ == old(self)@,
            old(self)@.cnt + 10 > 0 ==> ({
                let nb = ((old(self)@.cnt + 17) / 8) as nat;
                let e = done_value(old(self)@.low);
                &&& final(self)@.offs == old(self)@.offs + nb
                &&& forall|i: int| 0 <= i < nb ==> #[trigger] final(self)@.buf[old(self)@.offs + i]
                    == done_byte(e, old(self)@.cnt, i)
                &&& forall|j: int| 0 <= j < old(self)@.offs ==> #[trigger] final(self)@.buf[j] == old(self)@.buf[j]
            }),
            r@ == final(self)@.buf.subrange(0, final(self)@.offs as int),
    {
        proof { lemma2_to64(); }
        if self.error {
            self.coded = Ghost(Seq::empty());
            self.base = Ghost(self.spec_state());
            return vstd::slice::slice_subrange(self.buf.as_slice(), 0, self.offs as usize);
        }
        proof { lemma_window_fits(self@); }
        let m: u64 = 0x3FFF;
        let e: u64 = ((self.low + m) & !m) | (m + 1);
        let s: i32 = 10 + self.cnt as i32;
        if s <= 0 {
            self.coded = Ghost(Seq::empty());
            self.base = Ghost(self.spec_state());
            return vstd::slice::slice_subrange(self.buf.as_slice(), 0, self.offs as usize);
        }
        let nb: usize = ((s as u32 + 7) / 8) as usize;
        let needed: usize = self.offs as usize + nb;
        if needed > self.buf.len() {
            let target = needed + 8;
            while self.buf.len() < target
                invariant
                    target == old(self).offs + nb + 8,
                    (old(self).offs as nat) < offs_limit(),
                    nb <= 7,
                    self.buf@.len() <= target,
                    forall|j: int| 0 <= j < old(self).buf@.len() ==> #[trigger] self.buf@[j] == old(self).buf@[j],
                    self.buf@.len() >= old(self).buf@.len(),
                    self.offs == old(self).offs && self.low == old(self).low,
                    self.rng == old(self).rng && self.cnt == old(self).cnt,
                    self.error == old(self).error && self.coded == old(self).coded && self.base == old(self).base,
                decreases target - self.buf@.len(),
            {
                self.buf.push(0);
            }
        }
        let c: i32 = self.cnt as i32;
        let mut i: usize = 0;
        while i < nb
            invariant
                nb == (old(self)@.cnt + 17) / 8,
                1 <= nb <= 7,
                c == old(self).cnt,
                e == done_value(old(self)@.low),
                self.offs == old(self).offs + i,
                (old(self).offs as nat) < offs_limit(),
                old(self).offs + nb <= self.buf@.len(),
                self.buf@.len() <= buf_limit(),
                i <= nb,
                forall|k: int| 0 <= k < i ==> #[trigger] self.buf@[old(self)@.offs + k] == done_byte(e, c as int, k),
                forall|j: int| 0 <= j < old(self)@.offs ==> #[trigger] self.buf@[j] == old(self).buf@[j],
                self.low == old(self).low,
                self.rng == old(self).rng && self.cnt == old(self).cnt,
                self.error == old(self).error && self.coded == old(self).coded && self.base == old(self).base,
            decreases nb - i,
        {
            let shift: i32 = 16 + c - (i as i32) * 8;
            let byte: u8 = if shift >= 0 {
                ((e >> (shift as u64)) & 0xFF) as u8
            } else {
                ((e << ((-shift) as u64)) & 0xFF) as u8
            };
            let offs = self.offs as usize;
            if offs < self.buf.len() {
                self.buf.set(offs, byte);
            }
            self.offs = self.offs + 1;
            i = i + 1;
        }
        self.coded = Ghost(Seq::empty());
        self.base = Ghost(self.spec_state());
        vstd::slice::slice_subrange(self.buf.as_slice(), 0, self.offs as usize)
    }

    /// Number of bytes written so far.
    pub fn bytes_written(&self) -> (r: usize)
        ensures r == self@.offs,
    {
        self.offs as usize
    }

    /// The low end of the interval.
    pub fn low(&self) -> (r: u64)
        ensures r == self@.low,
    {
        self.low
    }

    /// The current range.
    pub fn rng_val(&self) -> (r: u16)
        ensures r == self@.rng,
    {
        self.rng
    }

    /// The number of pending bits, offset by 9.
    pub fn cnt_val(&self) -> (r: i16)
        ensures r == self@.cnt,
    {
        self.cnt
    }
}

/// The final window value: `low` rounded up to a multiple of 2^14, with bit 14 set.
pub open spec fn done_value(low: nat) -> u64 {
    (((low + 16383) as u64) & !0x3FFFu64) | 0x4000u64
}

/// Byte `i` of the final flush: bits `16 + cnt - 8i` and up of the window value.
pub open spec fn done_byte(e: u64, cnt: int, i: int) -> u8 {
    let shift = 16 + cnt - 8 * i;
    if shift >= 0 { ((e >> (shift as u64)) & 0xFFu64) as u8 } else { ((e << ((-shift) as u64)) & 0xFFu64) as u8 }
}

/// One renormalization writes at most 7 bytes.
pub proof fn lemma_renormalized_offs(pre: EncView, l: nat, r: nat)
    requires
        1 <= r <= 65535,
        pre.cnt <= 39,
    ensures
        renormalized(pre, l, r).offs <= pre.offs + 7,
{
    lemma2_to64();
    lemma_ilog_bounds(r);
    lemma_ilog_le(r, 16);
    let d = (16 - ilog(r)) as nat;
    let s = pre.cnt + d;
    assert(s <= 54);
    if s >= 40 {
        assert(s / 8 + 1 <= 7);
    }
}

/// The window of a well-formed coder fits in 64 bits.
pub proof fn lemma_window_fits(v: EncView)
    requires
        32768 <= v.rng,
        -9 <= v.cnt <= 39,
        v.low + v.rng <= pow2((v.cnt + 25) as nat),
    ensures
        v.low + v.rng <= 0x1_0000_0000_0000_0000,
        v.low <= 0xFFFF_FFFF_FFFF_8000,
{
    vstd::arithmetic::power2::lemma2_to64_rest();
    if v.cnt + 25 < 64 {
        lemma_pow2_strictly_increases((v.cnt + 25) as nat, 64);
    }
}

/// Bounds of the bit length: `2^(ilog(x) - 1) <= x < 2^ilog(x)` for positive `x`.
pub proof fn lemma_ilog_bounds(x: nat)
    requires x > 0,
    ensures
        ilog(x) >= 1,
        pow2((ilog(x) - 1) as nat) <= x < pow2(ilog(x)),
    decreases x,
{
    lemma2_to64();
    if x / 2 == 0 {
        assert(x == 1);
        assert(ilog(0) == 0);
    } else {
        lemma_ilog_bounds(x / 2);
        let k = ilog(x / 2);
        assert(pow2(k) == 2 * pow2((k - 1) as nat)) by {
            lemma_pow2_adds((k - 1) as nat, 1);
        }
        assert(pow2(k + 1) == 2 * pow2(k)) by {
            lemma_pow2_adds(k, 1);
        }
    }
}

/// A value below `2^m` needs at most `m` bits.
pub proof fn lemma_ilog_le(x: nat, m: nat)
    requires x < pow2(m),
    ensures ilog(x) <= m,
{
    if x > 0 {
        lemma_ilog_bounds(x);
        if ilog(x) > m {
            if ((ilog(x) - 1) as nat) > m {
                lemma_pow2_strictly_increases(m, (ilog(x) - 1) as nat);
            }
        }
    }
}

/// Bit length of a nonzero value: the number of bits needed to write it.
pub fn ilog_nz(v: u32) -> (r: i32)
    requires v > 0,
    ensures
        r == ilog(v as nat),
        1 <= r <= 32,
{
    proof {
        lemma_u32_pow2_no_overflow(31);
        lemma2_to64();
        vstd::arithmetic::power2::lemma2_to64_rest();
        lemma_ilog_le(v as nat, 32);
        lemma_ilog_bounds(v as nat);
    }
    let mut x: u32 = v;
    let mut n: i32 = 0;
    while x > 0
        invariant
            n + ilog(x as nat) == ilog(v as nat),
            0 <= n,
            ilog(v as nat) <= 32,
        decreases x,
    {
        assert(x >> 1 == x / 2) by (bit_vector);
        x = x >> 1;
        n = n + 1;
    }
    n
}

} // verus!
