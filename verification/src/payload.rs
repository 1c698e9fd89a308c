//! Request payloads carried over the bus, the invariants they must satisfy,
//! and the fatal protocol violations the oracle can report.

use vstd::prelude::*;

use crate::burst::{beat_addr, beat_bytes, wrap_span, wrap_upper, BurstKind};
use crate::{MAX_SIZE, MEM_SIZE};

verus! {

/// A fatal violation detected by the oracle. Every variant carries enough
/// context to diagnose the offending request; none is recoverable, because
/// masking a divergence would hide the defect under test.
#[derive(Debug, PartialEq, Eq)]
pub enum AxiError {
    /// The request's address is not a multiple of its transfer unit.
    Misaligned { addr: u32, size: u8 },
    /// The bus carried a burst-kind encoding outside the enumeration.
    UnknownBurst { raw: u8 },
    /// A Wrap burst whose beat count is not 2, 4, 8 or 16.
    IllegalWrapLen { addr: u32, len: u8 },
    /// A write payload whose data or mask arrays disagree with its beat count.
    MalformedPayload { beats: u32, data_len: usize, strb_len: usize },
    /// An active write beat whose lane mask enables a number of lanes other
    /// than the full transfer unit, or lanes beyond the bus width.
    BadLaneMask { beat: usize, strb: u8, size: u8 },
    /// A response arrived with no matching outstanding request.
    QueueUnderflow,
    /// The device returned bytes that differ from the shadow memory's
    /// prediction; both sequences are reported.
    DataMismatch { expected: Vec<u8>, observed: Vec<u8> },
}

/// Whether byte lane `lane` is enabled by the mask `strb`.
pub open spec fn lane_set(strb: u8, lane: u32) -> bool {
    (strb >> lane) & 1 == 1
}

/// The enabled lanes of `strb` among lanes `[0, w)`, in ascending order.
pub open spec fn lanes_on(strb: u8, w: nat) -> Seq<u32>
    decreases w,
{
    if w == 0 {
        Seq::empty()
    } else {
        lanes_on(strb, (w - 1) as nat) + (if lane_set(strb, (w - 1) as u32) {
            seq![(w - 1) as u32]
        } else {
            Seq::empty()
        })
    }
}

/// Number of byte lanes of the bus that the mask enables.
pub open spec fn lane_count(strb: u8) -> nat {
    lanes_on(strb, crate::BUS_BYTES as nat).len()
}

/// A write beat's lane mask is acceptable when it is idle (all lanes off) or
/// enables exactly one transfer unit's worth of lanes, none of them beyond
/// the bus width (mask values of 16 and above would name lanes the bus does
/// not have).
pub open spec fn mask_ok(strb: u8, size: u8) -> bool {
    strb == 0 || (strb < 16 && lane_count(strb) == beat_bytes(size))
}

/// One write burst as issued to the bus: the addressing parameters plus one
/// data word and one lane mask per beat.
#[derive(Debug)]
pub struct AxiWritePayload {
    /// Start address of the burst.
    pub addr: u32,
    /// Log2 of the transfer-unit size in bytes.
    pub size: u8,
    /// Beat count minus one.
    pub len: u8,
    /// Address-generation rule.
    pub burst: BurstKind,
    /// One lane mask per beat, one bit per byte lane.
    pub strb: Vec<u8>,
    /// One data word per beat; lane `i` carries byte `i` of the word.
    pub data: Vec<u32>,
}

impl AxiWritePayload {
    /// Number of beats in the burst.
    pub open spec fn beats(&self) -> nat {
        self.len as nat + 1
    }

    /// Bytes moved by one beat.
    pub open spec fn bytes(&self) -> nat {
        beat_bytes(self.size)
    }

    /// The transfer unit fits on the bus.
    pub open spec fn size_ok(&self) -> bool {
        self.size <= MAX_SIZE
    }

    /// Wrap bursts admit only the beat counts 2, 4, 8 and 16.
    pub open spec fn wrap_len_ok(&self) -> bool {
        self.burst == BurstKind::Wrap ==> (self.beats() == 2 || self.beats() == 4
            || self.beats() == 8 || self.beats() == 16)
    }

    /// The start address is a multiple of the transfer unit.
    pub open spec fn aligned(&self) -> bool {
        self.addr as nat % self.bytes() == 0
    }

    /// The data and mask arrays carry exactly one entry per beat.
    pub open spec fn shaped(&self) -> bool {
        self.data@.len() == self.beats() && self.strb@.len() == self.beats()
    }

    /// Every beat's lane mask is idle or full-width.
    pub open spec fn masks_ok(&self) -> bool {
        forall|i: int| 0 <= i < self.beats() ==> mask_ok(#[trigger] self.strb@[i], self.size)
    }

    /// Address of beat `i` of this burst.
    pub open spec fn beat_address(&self, i: nat) -> nat {
        beat_addr(self.addr as nat, self.size, self.burst, self.beats(), i)
    }

    /// Every byte the burst touches lies inside the shadow memory.
    pub open spec fn in_bounds(&self) -> bool {
        match self.burst {
            BurstKind::Fixed => self.addr + self.bytes() <= MEM_SIZE,
            BurstKind::Incr => self.addr + self.beats() * self.bytes() <= MEM_SIZE,
            BurstKind::Wrap => wrap_upper(
                self.addr as nat,
                wrap_span(self.size, self.beats()),
            ) <= MEM_SIZE,
        }
    }

    /// Everything the data model asks of a write request.
    pub open spec fn valid(&self) -> bool {
        self.size_ok() && self.wrap_len_ok() && self.aligned() && self.shaped()
            && self.masks_ok() && self.in_bounds()
    }
}

/// One read burst as issued to the bus: addressing parameters only.
#[derive(Clone, Copy, Debug, PartialEq, Eq, Structural)]
pub struct AxiReadPayload {
    /// Start address of the burst.
    pub addr: u32,
    /// Log2 of the transfer-unit size in bytes.
    pub size: u8,
    /// Beat count minus one.
    pub len: u8,
    /// Address-generation rule.
    pub burst: BurstKind,
}

/// The read request that verifies a completed write: identical address,
/// size, burst length and burst kind.
pub open spec fn read_of(w: AxiWritePayload) -> AxiReadPayload {
    AxiReadPayload { addr: w.addr, size: w.size, len: w.len, burst: w.burst }
}

impl AxiReadPayload {
    /// Number of beats in the burst.
    pub open spec fn beats(&self) -> nat {
        self.len as nat + 1
    }

    /// Bytes moved by one beat.
    pub open spec fn bytes(&self) -> nat {
        beat_bytes(self.size)
    }

    /// The transfer unit fits on the bus.
    pub open spec fn size_ok(&self) -> bool {
        self.size <= MAX_SIZE
    }

    /// Wrap bursts admit only the beat counts 2, 4, 8 and 16.
    pub open spec fn wrap_len_ok(&self) -> bool {
        self.burst == BurstKind::Wrap ==> (self.beats() == 2 || self.beats() == 4
            || self.beats() == 8 || self.beats() == 16)
    }

    /// The start address is a multiple of the transfer unit.
    pub open spec fn aligned(&self) -> bool {
        self.addr as nat % self.bytes() == 0
    }

    /// Address of beat `i` of this burst.
    pub open spec fn beat_address(&self, i: nat) -> nat {
        beat_addr(self.addr as nat, self.size, self.burst, self.beats(), i)
    }

    /// Every byte the burst touches lies inside the shadow memory.
    pub open spec fn in_bounds(&self) -> bool {
        match self.burst {
            BurstKind::Fixed => self.addr + self.bytes() <= MEM_SIZE,
            BurstKind::Incr => self.addr + self.beats() * self.bytes() <= MEM_SIZE,
            BurstKind::Wrap => wrap_upper(
                self.addr as nat,
                wrap_span(self.size, self.beats()),
            ) <= MEM_SIZE,
        }
    }

    /// Everything the data model asks of a read request.
    pub open spec fn valid(&self) -> bool {
        self.size_ok() && self.wrap_len_ok() && self.aligned() && self.in_bounds()
    }

    /// Derive the verification read for a completed write burst.
    pub fn from_write_payload(w: &AxiWritePayload) -> (r: AxiReadPayload)
        ensures
            r == read_of(*w),
    {
        AxiReadPayload { addr: w.addr, size: w.size, len: w.len, burst: w.burst }
    }
}

} // verus!
