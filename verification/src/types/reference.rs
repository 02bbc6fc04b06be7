//! Reference frame definitions.
use vstd::prelude::*;

verus! {

/// Reference frames: `NoneFrame` (-1), `Intra` (0), then the seven inter references (1..7).
#[derive(Debug, Clone, Copy, PartialEq, Eq, Structural, Hash)]
pub enum ReferenceFrame {
    NoneFrame,
    Intra,
    Last,
    Last2,
    Last3,
    Golden,
    BwdRef,
    AltRef2,
    AltRef,
}

impl ReferenceFrame {
    /// The signed code of the reference frame, from -1 (`NoneFrame`) to 7 (`AltRef`).
    pub open spec fn code(self) -> int {
        match self {
            ReferenceFrame::NoneFrame => -1,
            ReferenceFrame::Intra => 0,
            ReferenceFrame::Last => 1,
            ReferenceFrame::Last2 => 2,
            ReferenceFrame::Last3 => 3,
            ReferenceFrame::Golden => 4,
            ReferenceFrame::BwdRef => 5,
            ReferenceFrame::AltRef2 => 6,
            ReferenceFrame::AltRef => 7,
        }
    }

    /// The signed code of the reference frame.
    pub fn as_i8(self) -> (r: i8)
        ensures r == self.code(),
    {
        match self {
            ReferenceFrame::NoneFrame => -1,
            ReferenceFrame::Intra => 0,
            ReferenceFrame::Last => 1,
            ReferenceFrame::Last2 => 2,
            ReferenceFrame::Last3 => 3,
            ReferenceFrame::Golden => 4,
            ReferenceFrame::BwdRef => 5,
            ReferenceFrame::AltRef2 => 6,
            ReferenceFrame::AltRef => 7,
        }
    }
}

pub const REF_FRAMES: usize = 8;
pub const REF_FRAMES_LOG2: usize = 3;
pub const REFS_PER_FRAME: usize = 7;
pub const INTER_REFS_PER_FRAME: usize = 7;
pub const TOTAL_REFS_PER_FRAME: usize = 8;
pub const FWD_REFS: usize = 4;
pub const BWD_REFS: usize = 3;
pub const SINGLE_REFS: usize = 7;

/// Unidirectional compound reference pairs.
#[derive(Debug, Clone, Copy, PartialEq, Eq, Structural, Hash)]
pub enum UniDirCompRef {
    LastLast2,
    LastLast3,
    LastGolden,
    BwdRefAltRef,
    Last2Last3,
    Last2Golden,
    Last3Golden,
    BwdRefAltRef2,
    AltRef2AltRef,
}

pub const TOTAL_UNIDIR_COMP_REFS: usize = 9;
pub const UNIDIR_COMP_REFS: usize = 4;
pub const TOTAL_COMP_REFS: usize = FWD_REFS * BWD_REFS + TOTAL_UNIDIR_COMP_REFS;
pub const COMP_REFS: usize = FWD_REFS * BWD_REFS + UNIDIR_COMP_REFS;
pub const MODE_CTX_REF_FRAMES: usize = TOTAL_REFS_PER_FRAME + TOTAL_COMP_REFS;

/// Reference mode.
#[derive(Debug, Clone, Copy, PartialEq, Eq, Structural, Hash)]
pub enum ReferenceMode {
    Single,
    Compound,
    Select,
}

impl ReferenceMode {
    pub const COUNT: usize = 3;
}

/// Compound reference type.
#[derive(Debug, Clone, Copy, PartialEq, Eq, Structural, Hash)]
pub enum CompReferenceType {
    Unidir,
    Bidir,
}

/// Reference list.
#[derive(Debug, Clone, Copy, PartialEq, Eq, Structural, Hash)]
pub enum RefList {
    List0,
    List1,
}

pub const TOTAL_NUM_OF_REF_LISTS: usize = 2;

/// Prediction direction.
#[derive(Debug, Clone, Copy, PartialEq, Eq, Structural, Hash)]
pub enum PredDirection {
    UniPredList0,
    UniPredList1,
    BiPred,
}

pub const SKIP_CONTEXTS: usize = 3;
pub const SKIP_MODE_CONTEXTS: usize = 3;
pub const COMP_INDEX_CONTEXTS: usize = 6;
pub const COMP_GROUP_IDX_CONTEXTS: usize = 6;
pub const NEWMV_MODE_CONTEXTS: usize = 6;
pub const GLOBALMV_MODE_CONTEXTS: usize = 2;
pub const REFMV_MODE_CONTEXTS: usize = 6;
pub const DRL_MODE_CONTEXTS: usize = 3;
pub const INTER_MODE_CONTEXTS: usize = 8;
pub const INTRA_INTER_CONTEXTS: usize = 4;
pub const COMP_INTER_CONTEXTS: usize = 5;
pub const REF_CONTEXTS: usize = 3;
pub const COMP_REF_TYPE_CONTEXTS: usize = 5;
pub const UNI_COMP_REF_CONTEXTS: usize = 3;

} // verus!
