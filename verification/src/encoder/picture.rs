//! Picture management: per-picture control sets, the decoded picture buffer of
//! reference frames, and the group-of-pictures structure.
use vstd::prelude::*;
use crate::types::frame::FrameType;
use crate::types::reference::REF_FRAMES;
use vstd::arithmetic::power2::pow2;

verus! {

/// Per-picture encoding state.
#[derive(Debug)]
pub struct PictureControlSet {
    /// Frame number in display order.
    pub display_order: u64,
    /// Frame number in decode order.
    pub decode_order: u64,
    /// Frame type (key, inter, intra-only, switch).
    pub frame_type: FrameType,
    /// Whether this frame is shown (vs. hidden alt-ref).
    pub show_frame: bool,
    /// Temporal layer index (0 = base layer).
    pub temporal_layer: u8,
    /// Hierarchical level within the mini-GOP.
    pub hierarchical_level: u8,
    /// Base QP for this picture.
    pub qp: u8,
    /// Reference frame indices into the DPB (-1: none).
    pub ref_frame_idx: [i8; REF_FRAMES],
    /// Which reference slots this frame refreshes (one bit per slot).
    pub refresh_frame_flags: u8,
    /// Picture width.
    pub width: u32,
    /// Picture height.
    pub height: u32,
}

/// No reference slot is assigned.
pub open spec fn no_refs(idx: [i8; REF_FRAMES]) -> bool {
    forall|i: int| 0 <= i < REF_FRAMES ==> #[trigger] idx@[i] == -1
}

impl PictureControlSet {
    /// A shown key frame at QP 30, decoded in display order, refreshing every slot.
    pub fn new_key_frame(width: u32, height: u32, display_order: u64) -> (r: Self)
        ensures
            r.display_order == display_order,
            r.decode_order == display_order,
            r.frame_type == FrameType::Key,
            r.show_frame,
            r.temporal_layer == 0,
            r.hierarchical_level == 0,
            r.qp == 30,
            no_refs(r.ref_frame_idx),
            r.refresh_frame_flags == 0xFF,
            r.width == width,
            r.height == height,
    {
        PictureControlSet {
            display_order,
            decode_order: display_order,
            frame_type: FrameType::Key,
            show_frame: true,
            temporal_layer: 0,
            hierarchical_level: 0,
            qp: 30,
            ref_frame_idx: [-1, -1, -1, -1, -1, -1, -1, -1],
            refresh_frame_flags: 0xFF,
            width,
            height,
        }
    }

    /// A shown inter frame at QP 30 in `temporal_layer` (also its hierarchical level),
    /// refreshing no slot.
    pub fn new_inter_frame(width: u32, height: u32, display_order: u64, decode_order: u64,
        temporal_layer: u8) -> (r: Self)
        ensures
            r.display_order == display_order,
            r.decode_order == decode_order,
            r.frame_type == FrameType::Inter,
            r.show_frame,
            r.temporal_layer == temporal_layer,
            r.hierarchical_level == temporal_layer,
            r.qp == 30,
            no_refs(r.ref_frame_idx),
            r.refresh_frame_flags == 0,
            r.width == width,
            r.height == height,
    {
        PictureControlSet {
            display_order,
            decode_order,
            frame_type: FrameType::Inter,
            show_frame: true,
            temporal_layer,
            hierarchical_level: temporal_layer,
            qp: 30,
            ref_frame_idx: [-1, -1, -1, -1, -1, -1, -1, -1],
            refresh_frame_flags: 0,
            width,
            height,
        }
    }
}

/// A reference frame stored in the DPB.
#[derive(Debug)]
pub struct ReferenceFrame {
    /// Reconstructed luma pixels.
    pub y_plane: Vec<u8>,
    /// Frame width.
    pub width: u32,
    /// Frame height.
    pub height: u32,
    /// Display order of this frame.
    pub display_order: u64,
    /// Order hint for temporal distance computation.
    pub order_hint: u32,
}

/// Two reference frames hold the same pixels and parameters.
pub open spec fn same_frame(a: ReferenceFrame, b: ReferenceFrame) -> bool {
    &&& a.y_plane@ == b.y_plane@
    &&& a.width == b.width
    &&& a.height == b.height
    &&& a.display_order == b.display_order
    &&& a.order_hint == b.order_hint
}

impl Clone for ReferenceFrame {
    /// A copy with the same pixels and parameters.
    fn clone(&self) -> (r: Self)
        ensures same_frame(r, *self),
    {
        ReferenceFrame {
            y_plane: self.y_plane.clone(),
            width: self.width,
            height: self.height,
            display_order: self.display_order,
            order_hint: self.order_hint,
        }
    }
}

/// The decoded picture buffer: eight reference slots, each empty or holding a frame.
#[derive(Debug)]
pub struct DecodedPictureBuffer {
    slots: [Option<ReferenceFrame>; REF_FRAMES],
}

/// Number of occupied entries among the first `n` of `s`.
pub open spec fn count_occupied(s: Seq<Option<ReferenceFrame>>, n: int) -> int
    decreases n,
{
    if n <= 0 { 0 } else { count_occupied(s, n - 1) + if s[n - 1] is Some { 1int } else { 0 } }
}

impl DecodedPictureBuffer {
    /// The slots, in order.
    pub closed spec fn view(&self) -> Seq<Option<ReferenceFrame>> {
        self.slots@
    }

    /// There are always eight slots.
    pub proof fn lemma_len(&self)
        ensures self.view().len() == REF_FRAMES,
    {
    }

    /// An empty buffer.
    pub fn new() -> (r: Self)
        ensures
            r.view().len() == REF_FRAMES,
            forall|i: int| 0 <= i < REF_FRAMES ==> #[trigger] r.view()[i] is None,
    {
        DecodedPictureBuffer { slots: [None, None, None, None, None, None, None, None] }
    }

    /// Store `frame` in `slot`; a slot of 8 or more changes nothing.
    pub fn store(&mut self, slot: usize, frame: ReferenceFrame)
        ensures
            slot < REF_FRAMES ==> final(self).view() == old(self).view().update(slot as int, Some(frame)),
            slot >= REF_FRAMES ==> final(self).view() == old(self).view(),
    {
        if slot < REF_FRAMES {
            self.slots[slot] = Some(frame);
        }
    }

    /// The frame in `slot`, if the slot exists and holds one.
    pub fn get(&self, slot: usize) -> (r: Option<&ReferenceFrame>)
        ensures
            slot < REF_FRAMES ==> r == match self.view()[slot as int] { Some(f) => Some(&f), None => None },
            slot >= REF_FRAMES ==> r is None,
    {
        if slot < REF_FRAMES {
            match &self.slots[slot] {
                Some(f) => Some(f),
                None => None,
            }
        } else {
            None
        }
    }

    /// Put a copy of `frame` in each slot whose bit is set in `flags`; the others stay.
    pub fn refresh(&mut self, flags: u8, frame: &ReferenceFrame)
        ensures
            final(self).view().len() == REF_FRAMES,
            forall|i: int| 0 <= i < REF_FRAMES ==> {
                if (flags >> (i as u8)) & 1 == 1 {
                    #[trigger] final(self).view()[i] is Some && same_frame(final(self).view()[i]->0, *frame)
                } else {
                    final(self).view()[i] == old(self).view()[i]
                }
            },
    {
        let mut i: usize = 0;
        while i < REF_FRAMES
            invariant
                i <= REF_FRAMES,
                self.view().len() == REF_FRAMES,
                forall|k: int| 0 <= k < i ==> {
                    if (flags >> (k as u8)) & 1 == 1 {
                        #[trigger] self.view()[k] is Some && same_frame(self.view()[k]->0, *frame)
                    } else {
                        self.view()[k] == old(self).view()[k]
                    }
                },
                forall|k: int| i <= k < REF_FRAMES ==> #[trigger] self.view()[k] == old(self).view()[k],
            decreases REF_FRAMES - i,
        {
            let b: u8 = i as u8;
            let bit: u8 = 1u8 << b;
            assert((flags & bit != 0) == ((flags >> b) & 1 == 1)) by (bit_vector)
                requires b < 8, bit == 1u8 << b;
            if flags & bit != 0 {
                self.slots[i] = Some(frame.clone());
            }
            i = i + 1;
        }
    }

    /// Empty every slot.
    pub fn clear(&mut self)
        ensures
            final(self).view().len() == REF_FRAMES,
            forall|i: int| 0 <= i < REF_FRAMES ==> #[trigger] final(self).view()[i] is None,
    {
        let mut i: usize = 0;
        while i < REF_FRAMES
            invariant
                i <= REF_FRAMES,
                self.view().len() == REF_FRAMES,
                forall|k: int| 0 <= k < i ==> #[trigger] self.view()[k] is None,
            decreases REF_FRAMES - i,
        {
            self.slots[i] = None;
            i = i + 1;
        }
    }

    /// Number of occupied slots.
    pub fn occupied_slots(&self) -> (r: usize)
        ensures r == count_occupied(self.view(), REF_FRAMES as int),
    {
        let mut count: usize = 0;
        let mut i: usize = 0;
        while i < REF_FRAMES
            invariant
                i <= REF_FRAMES,
                count == count_occupied(self.view(), i as int),
                count <= i,
            decreases REF_FRAMES - i,
        {
            if self.slots[i].is_some() {
                count = count + 1;
            }
            i = i + 1;
        }
        count
    }
}

impl Default for DecodedPictureBuffer {
    /// An empty buffer.
    fn default() -> (r: Self)
        ensures
            r.view().len() == REF_FRAMES,
            forall|i: int| 0 <= i < REF_FRAMES ==> #[trigger] r.view()[i] is None,
    {
        Self::new()
    }
}

/// Group-of-pictures structure for hierarchical coding.
#[derive(Debug, Clone)]
pub struct GopStructure {
    /// Number of hierarchical levels.
    pub hierarchical_levels: u8,
    /// Mini-GOP size (`2^hierarchical_levels` when built by [`GopStructure::new`]).
    pub mini_gop_size: u32,
    /// Intra period (key frame interval). 0 = single key frame.
    pub intra_period: u32,
}

/// `n - 1`, or 0 for 0.
pub open spec fn sat_dec(n: int) -> int {
    if n > 0 { n - 1 } else { 0 }
}

/// Temporal layer search: at step `step` (a power of two), with the layer counted
/// down to `layer`, the first step whose span `mini / step` divides `pos` gives
/// `layer - 1` (saturating); past the mini-GOP size the answer is `levels`.
pub open spec fn temporal_layer_search(levels: u8, mini: u32, pos: u32, layer: int, step: int) -> int
    decreases (if 0 < step < mini { mini - step } else { 0 }),
{
    if 0 < step < mini {
        if (pos as int) % ((mini as int) / step) == 0 {
            sat_dec(layer)
        } else {
            temporal_layer_search(levels, mini, pos, sat_dec(layer), step * 2)
        }
    } else {
        levels as int
    }
}

/// Temporal layer of position `pos` within a mini-GOP: 0 for position 0, else
/// the search from step 1 at the top layer.
pub open spec fn spec_temporal_layer(levels: u8, mini: u32, pos: u32) -> int {
    if pos == 0 { 0 } else { temporal_layer_search(levels, mini, pos, levels as int, 1) }
}

impl GopStructure {
    /// A structure with `2^hierarchical_levels` pictures per mini-GOP.
    pub fn new(hierarchical_levels: u8, intra_period: u32) -> (r: Self)
        requires hierarchical_levels < 32,
        ensures
            r.hierarchical_levels == hierarchical_levels,
            r.mini_gop_size == pow2(hierarchical_levels as nat),
            r.intra_period == intra_period,
    {
        proof {
            vstd::arithmetic::power2::lemma2_to64();
            if hierarchical_levels < 32 {
                vstd::arithmetic::power2::lemma_pow2_strictly_increases(hierarchical_levels as nat, 32);
            }
            vstd::bits::lemma_u32_shl_is_mul(1, hierarchical_levels as u32);
        }
        let mini_gop_size: u32 = 1u32 << (hierarchical_levels as u32);
        GopStructure { hierarchical_levels, mini_gop_size, intra_period }
    }

    /// Temporal layer for a position within a mini-GOP (see [`spec_temporal_layer`]).
    pub fn get_temporal_layer(&self, pos_in_gop: u32) -> (r: u8)
        requires self.mini_gop_size <= 0x8000_0000,
        ensures r == spec_temporal_layer(self.hierarchical_levels, self.mini_gop_size, pos_in_gop),
    {
        if pos_in_gop == 0 {
            return 0;
        }
        let mut layer: u8 = self.hierarchical_levels;
        let mut step: u32 = 1;
        let ghost mut k: nat = 0;
        proof {
            vstd::arithmetic::power2::lemma2_to64();
        }
        while step < self.mini_gop_size
            invariant
                0 < step <= 0x8000_0000, pos_in_gop != 0,
                step == pow2(k), k <= 31,
                self.mini_gop_size <= 0x8000_0000,
                layer <= self.hierarchical_levels,
                temporal_layer_search(self.hierarchical_levels, self.mini_gop_size, pos_in_gop, self.hierarchical_levels as int, 1)
                    == temporal_layer_search(self.hierarchical_levels, self.mini_gop_size, pos_in_gop, layer as int, step as int),
            decreases 0x8000_0000 - step,
        {
            assert(self.mini_gop_size / step >= 1) by (nonlinear_arith)
                requires 0 < step < self.mini_gop_size;
            let next: u8 = if layer > 0 { layer - 1 } else { 0 };
            assert(next == sat_dec(layer as int));
            if pos_in_gop % (self.mini_gop_size / step) == 0 {
                assert((pos_in_gop as int) % ((self.mini_gop_size as int) / (step as int)) == 0);
                assert(temporal_layer_search(self.hierarchical_levels, self.mini_gop_size, pos_in_gop, layer as int,
                    step as int) == next);
                return next;
            }
            proof {
                vstd::arithmetic::power2::lemma2_to64();
                if k > 31 {
                    vstd::arithmetic::power2::lemma_pow2_strictly_increases(31, k);
                }
                assert(k < 31);
                vstd::arithmetic::power2::lemma_pow2_unfold(k + 1);
                if k + 1 < 31 {
                    vstd::arithmetic::power2::lemma_pow2_strictly_increases(k + 1, 31);
                }
            }
            layer = next;
            step = step * 2;
            proof {
                k = k + 1;
            }
        }
        self.hierarchical_levels
    }

    /// Whether the frame at `display_order` is a key frame: the first one only when
    /// the intra period is 0, else every multiple of the intra period.
    pub fn is_key_frame(&self, display_order: u64) -> (r: bool)
        ensures
            r == if self.intra_period == 0 { display_order == 0 } else { display_order % (self.intra_period as u64) == 0 },
    {
        if self.intra_period == 0 {
            return display_order == 0;
        }
        display_order % self.intra_period as u64 == 0
    }
}

} // verus!
