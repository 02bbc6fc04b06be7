//! Bit-level writer for OBU headers and other uncompressed data (MSB first).
use vstd::prelude::*;

verus! {

/// Bit `i` of a byte sequence, counting from the most significant bit of byte 0.
pub open spec fn bit_at(data: Seq<u8>, i: int) -> bool {
    ((data[i / 8] >> ((7 - i % 8) as u8)) & 1) == 1
}

/// `data` holds exactly the bits `bits`, MSB first, zero-padded to a whole byte.
pub open spec fn packs(data: Seq<u8>, bits: Seq<bool>) -> bool {
    &&& data.len() == (bits.len() + 7) / 8
    &&& forall|i: int| 0 <= i < 8 * data.len() ==> #[trigger] bit_at(data, i) == (i < bits.len() && bits[i])
}

/// 1 when bit `i` of `bits` is present and set, else 0.
pub open spec fn bit_value(bits: Seq<bool>, i: int) -> int {
    if 0 <= i < bits.len() && bits[i] { 1 } else { 0 }
}

/// Byte `j` of the MSB-first packing of `bits`.
pub open spec fn packed_byte(bits: Seq<bool>, j: int) -> u8 {
    (bit_value(bits, 8 * j) * 128 + bit_value(bits, 8 * j + 1) * 64 + bit_value(bits, 8 * j + 2) * 32
        + bit_value(bits, 8 * j + 3) * 16 + bit_value(bits, 8 * j + 4) * 8 + bit_value(bits, 8 * j + 5) * 4
        + bit_value(bits, 8 * j + 6) * 2 + bit_value(bits, 8 * j + 7)) as u8
}

/// The bytes holding `bits` MSB first, zero-padded to a whole byte.
pub open spec fn packed(bits: Seq<bool>) -> Seq<u8> {
    Seq::new(((bits.len() + 7) / 8) as nat, |j: int| packed_byte(bits, j))
}

/// The `n` low bits of `value`, most significant first.
pub open spec fn value_bits(value: u32, n: nat) -> Seq<bool> {
    Seq::new(n, |k: int| ((value >> ((n - 1 - k) as u32)) & 1) == 1)
}

/// Packing law: bytes that hold exactly the given bits are their MSB-first packing.
pub proof fn lemma_packs_is_packed(data: Seq<u8>, bits: Seq<bool>)
    requires packs(data, bits),
    ensures data == packed(bits),
{
    assert forall|j: int| 0 <= j < data.len() implies #[trigger] data[j] == packed_byte(bits, j) by {
        let x = data[j];
        assert(x == ((x >> 7u8) & 1) * 128 + ((x >> 6u8) & 1) * 64 + ((x >> 5u8) & 1) * 32
            + ((x >> 4u8) & 1) * 16 + ((x >> 3u8) & 1) * 8 + ((x >> 2u8) & 1) * 4
            + ((x >> 1u8) & 1) * 2 + (x & 1)) by (bit_vector);
        assert(bit_at(data, 8 * j + 0) == (8 * j + 0 < bits.len() && bits[8 * j + 0]));
        assert((8 * j + 0) / 8 == j && (8 * j + 0) % 8 == 0);
        assert(bit_at(data, 8 * j + 1) == (8 * j + 1 < bits.len() && bits[8 * j + 1]));
        assert((8 * j + 1) / 8 == j && (8 * j + 1) % 8 == 1);
        assert(bit_at(data, 8 * j + 2) == (8 * j + 2 < bits.len() && bits[8 * j + 2]));
        assert((8 * j + 2) / 8 == j && (8 * j + 2) % 8 == 2);
        assert(bit_at(data, 8 * j + 3) == (8 * j + 3 < bits.len() && bits[8 * j + 3]));
        assert((8 * j + 3) / 8 == j && (8 * j + 3) % 8 == 3);
        assert(bit_at(data, 8 * j + 4) == (8 * j + 4 < bits.len() && bits[8 * j + 4]));
        assert((8 * j + 4) / 8 == j && (8 * j + 4) % 8 == 4);
        assert(bit_at(data, 8 * j + 5) == (8 * j + 5 < bits.len() && bits[8 * j + 5]));
        assert((8 * j + 5) / 8 == j && (8 * j + 5) % 8 == 5);
        assert(bit_at(data, 8 * j + 6) == (8 * j + 6 < bits.len() && bits[8 * j + 6]));
        assert((8 * j + 6) / 8 == j && (8 * j + 6) % 8 == 6);
        assert(bit_at(data, 8 * j + 7) == (8 * j + 7 < bits.len() && bits[8 * j + 7]));
        assert((8 * j + 7) / 8 == j && (8 * j + 7) % 8 == 7);
        assert(((x >> 7u8) & 1) <= 1 && ((x >> 6u8) & 1) <= 1 && ((x >> 5u8) & 1) <= 1 && ((x >> 4u8) & 1) <= 1
            && ((x >> 3u8) & 1) <= 1 && ((x >> 2u8) & 1) <= 1 && ((x >> 1u8) & 1) <= 1 && (x & 1) <= 1) by (bit_vector);
        assert(((x >> 0u8) & 1) == (x & 1)) by (bit_vector);
        assert(((x >> ((7 - 0) as u8)) & 1) as int == bit_value(bits, 8 * j + 0));
        assert(((x >> ((7 - 1) as u8)) & 1) as int == bit_value(bits, 8 * j + 1));
        assert(((x >> ((7 - 2) as u8)) & 1) as int == bit_value(bits, 8 * j + 2));
        assert(((x >> ((7 - 3) as u8)) & 1) as int == bit_value(bits, 8 * j + 3));
        assert(((x >> ((7 - 4) as u8)) & 1) as int == bit_value(bits, 8 * j + 4));
        assert(((x >> ((7 - 5) as u8)) & 1) as int == bit_value(bits, 8 * j + 5));
        assert(((x >> ((7 - 6) as u8)) & 1) as int == bit_value(bits, 8 * j + 6));
        assert(((x >> ((7 - 7) as u8)) & 1) as int == bit_value(bits, 8 * j + 7));
    }
    assert(data =~= packed(bits));
}

/// Bit writer: bytes plus the count of bits written.
pub struct BitWriter {
    data: Vec<u8>,
    bit_offset: u32,
    bits: Ghost<Seq<bool>>,
}

impl View for BitWriter {
    type V = Seq<bool>;

    /// The bits written so far.
    open spec fn view(&self) -> Seq<bool> {
        self.spec_bits()
    }
}

impl BitWriter {
    /// The bits written so far.
    pub closed spec fn spec_bits(&self) -> Seq<bool> {
        self.bits@
    }

    /// Invariant: the bytes pack exactly the bits written.
    pub closed spec fn wf(&self) -> bool {
        &&& self.bit_offset == self.bits@.len()
        &&& packs(self.data@, self.bits@)
    }

    /// An empty writer.
    pub fn new() -> (r: Self)
        ensures r.wf(), r@ == Seq::<bool>::empty(),
    {
        BitWriter { data: Vec::new(), bit_offset: 0, bits: Ghost(Seq::empty()) }
    }

    /// Append one bit.
    fn push_bit(&mut self, bit: bool)
        requires old(self).wf(), old(self)@.len() < u32::MAX,
        ensures final(self).wf(), final(self)@ == old(self)@.push(bit),
    {
        let off = self.bit_offset;
        let byte_idx = (off / 8) as usize;
        let bit_idx: u8 = (7 - (off % 8)) as u8;
        let ghost old_bits = self.bits@;
        let ghost new_bits = old_bits.push(bit);
        if byte_idx >= self.data.len() {
            self.data.push(0);
            proof {
                assert forall|i: int| 0 <= i < 8 * self.data@.len() implies
                    #[trigger] bit_at(self.data@, i) == (i < old_bits.len() && old_bits[i]) by {
                    if i < 8 * (self.data@.len() - 1) {
                        assert(bit_at(old(self).data@, i) == (i < old_bits.len() && old_bits[i]));
                    } else {
                        let sh: u8 = (7 - i % 8) as u8;
                        assert(((0u8 >> sh) & 1) == 0) by (bit_vector);
                    }
                }
            }
        }
        let ghost mid = self.data@;
        assert(forall|i: int| 0 <= i < 8 * mid.len() ==> #[trigger] bit_at(mid, i) == (i < old_bits.len() && old_bits[i]));
        assert(byte_idx < mid.len());
        if bit {
            let x = self.data[byte_idx];
            let y = x | (1u8 << bit_idx);
            self.data.set(byte_idx, y);
            proof {
                assert forall|i: int| 0 <= i < 8 * self.data@.len() implies
                    #[trigger] bit_at(self.data@, i) == (i < new_bits.len() && new_bits[i]) by {
                    if i / 8 != byte_idx {
                        assert(self.data@[i / 8] == mid[i / 8]);
                        assert(bit_at(mid, i) == (i < old_bits.len() && old_bits[i]));
                        assert(i != off);
                    } else {
                        let sh: u8 = (7 - i % 8) as u8;
                        if i == off {
                            assert(((y >> sh) & 1) == 1) by (bit_vector)
                                requires y == x | (1u8 << bit_idx), sh == bit_idx, bit_idx < 8;
                        } else {
                            assert(bit_at(mid, i) == (i < old_bits.len() && old_bits[i]));
                            assert(sh != bit_idx);
                            assert(((y >> sh) & 1) == ((x >> sh) & 1)) by (bit_vector)
                                requires y == x | (1u8 << bit_idx), sh != bit_idx, bit_idx < 8, sh < 8;
                        }
                    }
                }
            }
        } else {
            proof {
                assert forall|i: int| 0 <= i < 8 * self.data@.len() implies
                    #[trigger] bit_at(self.data@, i) == (i < new_bits.len() && new_bits[i]) by {
                    if i == off {
                        assert(bit_at(self.data@, i) == (i < old_bits.len() && old_bits[i]));
                    }
                }
            }
        }
        self.bit_offset = off + 1;
        self.bits = Ghost(new_bits);
    }

    /// Append the `n` low bits of `value`, most significant first.
    pub fn write_bits(&mut self, value: u32, n: u32)
        requires
            old(self).wf(),
            n <= 32,
            old(self)@.len() + n <= u32::MAX,
        ensures
            final(self).wf(),
            final(self)@ == old(self)@ + value_bits(value, n as nat),
    {
        let mut k: u32 = 0;
        while k < n
            invariant
                n <= 32,
                k <= n,
                self.wf(),
                old(self)@.len() + n <= u32::MAX,
                self@ == old(self)@ + value_bits(value, n as nat).subrange(0, k as int),
            decreases n - k,
        {
            let i = n - 1 - k;
            let bit = (value >> i) & 1;
            assert((bit != 0) == (bit == 1)) by (bit_vector) requires bit == (value >> i) & 1;
            self.push_bit(bit != 0);
            proof {
                assert(value_bits(value, n as nat).subrange(0, (k + 1) as int)
                    =~= value_bits(value, n as nat).subrange(0, k as int).push(bit == 1));
            }
            k = k + 1;
        }
        proof {
            assert(value_bits(value, n as nat).subrange(0, n as int) =~= value_bits(value, n as nat));
        }
    }

    /// Append one bit.
    pub fn write_bit(&mut self, value: bool)
        requires old(self).wf(), old(self)@.len() < u32::MAX,
        ensures final(self).wf(), final(self)@ == old(self)@.push(value),
    {
        self.push_bit(value);
    }

    /// Number of bits written.
    pub fn bit_offset(&self) -> (r: u32)
        requires self.wf(),
        ensures r == self@.len(),
    {
        self.bit_offset
    }

    /// Number of bytes written (bits rounded up to whole bytes).
    pub fn bytes_written(&self) -> (r: usize)
        requires self.wf(),
        ensures r == (self@.len() + 7) / 8,
    {
        let q = self.bit_offset / 8;
        let extra: u32 = if self.bit_offset % 8 != 0 { 1 } else { 0 };
        (q + extra) as usize
    }

    /// The written bytes: the MSB-first packing of the bits.
    pub fn data(&self) -> (r: &[u8])
        requires self.wf(),
        ensures r@ == packed(self@),
    {
        proof { lemma_packs_is_packed(self.data@, self.bits@); }
        let n = self.bytes_written();
        vstd::slice::slice_subrange(self.data.as_slice(), 0, n)
    }

    /// Consume the writer, returning the MSB-first packing of the bits.
    pub fn into_data(self) -> (r: Vec<u8>)
        requires self.wf(),
        ensures r@ == packed(self@),
    {
        proof { lemma_packs_is_packed(self.data@, self.bits@); }
        let len = self.bytes_written();
        let mut data = self.data;
        data.truncate(len);
        data
    }
}

} // verus!
