//! The transaction correlator and driver: per-direction FIFOs that pair each
//! issued request with its eventual response in strict arrival order, and the
//! four bus-event handlers that orchestrate the shadow memory.
//!
//! The driver is single-threaded by contract: the caller must invoke one
//! event handler at a time and let it run to completion before the next; the
//! driver does not enforce this itself.

use std::collections::VecDeque;

use vstd::prelude::*;

use crate::payload::{read_of, AxiError, AxiReadPayload, AxiWritePayload};
use crate::shadow::{apply_burst, byte_of, lane_byte, read_burst_spec, ShadowMem};
use crate::{BUS_BYTES, MEM_SIZE};

verus! {

/// The bytes of one bus data word, lane by lane (lane `j` maps to offset `j`).
pub open spec fn word_bytes(w: u32) -> Seq<u8> {
    Seq::new(BUS_BYTES as nat, |j: int| byte_of(w, j as u32))
}

/// Copy a byte vector.
fn copy_bytes(a: &Vec<u8>) -> (r: Vec<u8>)
    ensures
        r@ == a@,
{
    let mut r: Vec<u8> = Vec::new();
    let mut i: usize = 0;
    while i < a.len()
        invariant
            i <= a.len(),
            r@ == a@.subrange(0, i as int),
        decreases a.len() - i,
    {
        r.push(a[i]);
        proof {
            assert(r@ =~= a@.subrange(0, i + 1));
        }
        i += 1;
    }
    proof {
        assert(r@ =~= a@);
    }
    r
}

/// Compare two byte vectors for byte-for-byte equality.
fn bytes_equal(a: &Vec<u8>, b: &Vec<u8>) -> (r: bool)
    ensures
        r == (a@ == b@),
{
    if a.len() != b.len() {
        return false;
    }
    let mut i: usize = 0;
    while i < a.len()
        invariant
            i <= a.len(),
            a@.len() == b@.len(),
            forall|k: int| 0 <= k < i ==> a@[k] == b@[k],
        decreases a.len() - i,
    {
        if a[i] != b[i] {
            return false;
        }
        i += 1;
    }
    proof {
        assert(a@ =~= b@);
    }
    true
}

/// The driver: owns the shadow memory, the three correlator FIFOs and the
/// read accumulation buffer; nothing else may touch them.
pub struct Driver {
    /// Configured bus data width in bits, kept for the surrounding harness.
    pub dlen: u32,
    /// Per-run timeout bound, consumed by the surrounding harness.
    pub timeout: u64,
    shadow_mem: ShadowMem,
    axi_write_fifo: VecDeque<AxiWritePayload>,
    axi_write_done_fifo: VecDeque<AxiWritePayload>,
    axi_read_fifo: VecDeque<AxiReadPayload>,
    axi_read_buffer: Vec<u8>,
}

impl Driver {
    /// Configured bus data width in bits.
    pub closed spec fn spec_dlen(&self) -> u32 {
        self.dlen
    }

    /// Configured per-run timeout bound.
    pub closed spec fn spec_timeout(&self) -> u64 {
        self.timeout
    }

    /// The reference memory image.
    pub closed spec fn shadow(&self) -> Seq<u8> {
        self.shadow_mem@
    }

    /// Write requests issued to the bus and not yet acknowledged, oldest
    /// first.
    pub closed spec fn write_fifo(&self) -> Seq<AxiWritePayload> {
        self.axi_write_fifo@
    }

    /// Acknowledged writes not yet read back, oldest first.
    pub closed spec fn done_fifo(&self) -> Seq<AxiWritePayload> {
        self.axi_write_done_fifo@
    }

    /// Verification reads in flight, oldest first.
    pub closed spec fn read_fifo(&self) -> Seq<AxiReadPayload> {
        self.axi_read_fifo@
    }

    /// Beats of the read response currently accumulating.
    pub closed spec fn read_buffer(&self) -> Seq<u8> {
        self.axi_read_buffer@
    }

    /// Internal invariant: the image spans the whole address space, and
    /// every queued request was validated when it entered its queue.
    pub closed spec fn wf(&self) -> bool {
        &&& self.shadow_mem.wf()
        &&& forall|i: int|
            0 <= i < self.axi_write_fifo@.len() ==> (#[trigger] self.axi_write_fifo@[i]).valid()
        &&& forall|i: int|
            0 <= i < self.axi_write_done_fifo@.len() ==> (
            #[trigger] self.axi_write_done_fifo@[i]).valid()
        &&& forall|i: int|
            0 <= i < self.axi_read_fifo@.len() ==> (#[trigger] self.axi_read_fifo@[i]).valid()
    }

    /// A fresh driver: empty queues over a zero-filled shadow memory.
    pub fn new(dlen: u32, timeout: u64) -> (r: Driver)
        ensures
            r.wf(),
            r.spec_dlen() == dlen,
            r.spec_timeout() == timeout,
            r.shadow() == Seq::new(MEM_SIZE as nat, |x: int| 0u8),
            r.write_fifo() == Seq::<AxiWritePayload>::empty(),
            r.done_fifo() == Seq::<AxiWritePayload>::empty(),
            r.read_fifo() == Seq::<AxiReadPayload>::empty(),
            r.read_buffer() == Seq::<u8>::empty(),
    {
        Driver {
            dlen,
            timeout,
            shadow_mem: ShadowMem::new(),
            axi_write_fifo: VecDeque::new(),
            axi_write_done_fifo: VecDeque::new(),
            axi_read_fifo: VecDeque::new(),
            axi_read_buffer: Vec::new(),
        }
    }

    /// Number of issued writes still waiting for an acknowledgement; for
    /// end-of-run diagnostics (an unmatched in-flight transaction at
    /// shutdown is not an error, but should be visible).
    pub fn outstanding_writes(&self) -> (n: usize)
        ensures
            n == self.write_fifo().len(),
    {
        self.axi_write_fifo.len()
    }

    /// Number of acknowledged writes not yet read back.
    pub fn completed_writes(&self) -> (n: usize)
        ensures
            n == self.done_fifo().len(),
    {
        self.axi_write_done_fifo.len()
    }

    /// Number of verification reads still in flight.
    pub fn outstanding_reads(&self) -> (n: usize)
        ensures
            n == self.read_fifo().len(),
    {
        self.axi_read_fifo.len()
    }

    /// Accept a new write request at the bus's invitation. The request comes
    /// from the stimulus source; the driver enforces its constraints, applies
    /// it to the shadow memory at once (write-through: the reference image
    /// reflects a write when issued, not when acknowledged) and tracks it as
    /// issued. A request that breaks a constraint is rejected with the same
    /// error the shadow memory reports, and changes nothing.
    pub fn axi_write_ready(&mut self, payload: AxiWritePayload) -> (r: Result<(), AxiError>)
        requires
            old(self).wf(),
            payload.size_ok(),
            payload.shaped() && payload.wrap_len_ok() && payload.aligned() && payload.masks_ok()
                ==> payload.in_bounds(),
        ensures
            final(self).wf(),
            final(self).spec_dlen() == old(self).spec_dlen(),
            final(self).spec_timeout() == old(self).spec_timeout(),
            final(self).done_fifo() == old(self).done_fifo(),
            final(self).read_fifo() == old(self).read_fifo(),
            final(self).read_buffer() == old(self).read_buffer(),
            payload.valid() ==> {
                &&& r == Ok::<(), AxiError>(())
                &&& final(self).shadow() == apply_burst(old(self).shadow(), payload)
                &&& final(self).write_fifo() == old(self).write_fifo().push(payload)
            },
            !payload.valid() ==> {
                &&& r matches Err(_)
                &&& final(self).shadow() == old(self).shadow()
                &&& final(self).write_fifo() == old(self).write_fifo()
            },
            !payload.shaped() ==> r == (Err::<(), AxiError>(AxiError::MalformedPayload {
                beats: (payload.len + 1) as u32,
                data_len: payload.data@.len() as usize,
                strb_len: payload.strb@.len() as usize,
            })),
            payload.shaped() && !payload.wrap_len_ok() ==> r == (Err::<(), AxiError>(
                AxiError::IllegalWrapLen { addr: payload.addr, len: payload.len },
            )),
            payload.shaped() && payload.wrap_len_ok() && !payload.aligned() ==> r == (Err::<
                (),
                AxiError,
            >(AxiError::Misaligned { addr: payload.addr, size: payload.size })),
    {
        let res = self.shadow_mem.write_mem_axi(&payload);
        match res {
            Ok(()) => {
                self.axi_write_fifo.push_back(payload);
                Ok(())
            },
            Err(e) => Err(e),
        }
    }

    /// Consume a write acknowledgement: the oldest issued write is complete
    /// and becomes eligible for read-back. The identifier, status and user
    /// tag are not checked beyond the existence of a matching outstanding
    /// request; an acknowledgement with none is a protocol violation.
    #[allow(unused_variables)]
    pub fn axi_write_done(&mut self, bid: u8, bresp: u8, buser: u8) -> (r: Result<(), AxiError>)
        requires
            old(self).wf(),
        ensures
            final(self).wf(),
            final(self).spec_dlen() == old(self).spec_dlen(),
            final(self).spec_timeout() == old(self).spec_timeout(),
            final(self).shadow() == old(self).shadow(),
            final(self).read_fifo() == old(self).read_fifo(),
            final(self).read_buffer() == old(self).read_buffer(),
            old(self).write_fifo().len() == 0 ==> {
                &&& r == Err::<(), AxiError>(AxiError::QueueUnderflow)
                &&& final(self).write_fifo() == old(self).write_fifo()
                &&& final(self).done_fifo() == old(self).done_fifo()
            },
            old(self).write_fifo().len() > 0 ==> {
                &&& r == Ok::<(), AxiError>(())
                &&& final(self).write_fifo() == old(self).write_fifo().drop_first()
                &&& final(self).done_fifo() == old(self).done_fifo().push(
                    old(self).write_fifo()[0],
                )
            },
    {
        match self.axi_write_fifo.pop_front() {
            None => Err(AxiError::QueueUnderflow),
            Some(payload) => {
                self.axi_write_done_fifo.push_back(payload);
                Ok(())
            },
        }
    }

    /// At the bus's invitation to issue a read, derive the verification read
    /// for the oldest completed write — identical address, size, burst kind
    /// and burst length — track it as in flight, and hand it to the bus.
    /// Asking with no completed write outstanding is a protocol violation.
    pub fn axi_read_ready(&mut self) -> (r: Result<AxiReadPayload, AxiError>)
        requires
            old(self).wf(),
        ensures
            final(self).wf(),
            final(self).spec_dlen() == old(self).spec_dlen(),
            final(self).spec_timeout() == old(self).spec_timeout(),
            final(self).shadow() == old(self).shadow(),
            final(self).write_fifo() == old(self).write_fifo(),
            final(self).read_buffer() == old(self).read_buffer(),
            old(self).done_fifo().len() == 0 ==> {
                &&& r == Err::<AxiReadPayload, AxiError>(AxiError::QueueUnderflow)
                &&& final(self).done_fifo() == old(self).done_fifo()
                &&& final(self).read_fifo() == old(self).read_fifo()
            },
            old(self).done_fifo().len() > 0 ==> {
                &&& r == Ok::<AxiReadPayload, AxiError>(read_of(old(self).done_fifo()[0]))
                &&& final(self).done_fifo() == old(self).done_fifo().drop_first()
                &&& final(self).read_fifo() == old(self).read_fifo().push(
                    read_of(old(self).done_fifo()[0]),
                )
            },
    {
        match self.axi_write_done_fifo.pop_front() {
            None => Err(AxiError::QueueUnderflow),
            Some(w) => {
                let rp = AxiReadPayload::from_write_payload(&w);
                self.axi_read_fifo.push_back(rp);
                Ok(rp)
            },
        }
    }

    /// Consume one beat of a read response: append the beat's bytes to the
    /// accumulation buffer; when the beat is marked last (`rlast != 0`), pop
    /// the oldest in-flight read, predict its bytes from the shadow memory,
    /// and compare byte for byte. A divergence is fatal and reports both the
    /// predicted and the observed sequence; either way the buffer is cleared
    /// for the next transaction. A last beat with no in-flight read is a
    /// protocol violation.
    #[allow(unused_variables)]
    pub fn axi_read_resp(&mut self, rdata: u32, rid: u8, rlast: u8, rresp: u8, ruser: u8) -> (r:
        Result<(), AxiError>)
        requires
            old(self).wf(),
        ensures
            final(self).wf(),
            final(self).spec_dlen() == old(self).spec_dlen(),
            final(self).spec_timeout() == old(self).spec_timeout(),
            final(self).shadow() == old(self).shadow(),
            final(self).write_fifo() == old(self).write_fifo(),
            final(self).done_fifo() == old(self).done_fifo(),
            rlast == 0 ==> {
                &&& r == Ok::<(), AxiError>(())
                &&& final(self).read_buffer() == old(self).read_buffer() + word_bytes(rdata)
                &&& final(self).read_fifo() == old(self).read_fifo()
            },
            rlast != 0 && old(self).read_fifo().len() == 0 ==> {
                &&& r == Err::<(), AxiError>(AxiError::QueueUnderflow)
                &&& final(self).read_buffer() == old(self).read_buffer() + word_bytes(rdata)
                &&& final(self).read_fifo() == old(self).read_fifo()
            },
            rlast != 0 && old(self).read_fifo().len() > 0 ==> {
                let expected = read_burst_spec(old(self).shadow(), old(self).read_fifo()[0]);
                let observed = old(self).read_buffer() + word_bytes(rdata);
                &&& final(self).read_fifo() == old(self).read_fifo().drop_first()
                &&& final(self).read_buffer() == Seq::<u8>::empty()
                &&& expected == observed ==> r == Ok::<(), AxiError>(())
                &&& expected != observed ==> (r matches Err(e) && e matches AxiError::DataMismatch
                    { expected: e_bytes, observed: o_bytes } && e_bytes@ == expected && o_bytes@
                    == observed)
            },
    {
        self.axi_read_buffer.push(lane_byte(rdata, 0));
        self.axi_read_buffer.push(lane_byte(rdata, 1));
        self.axi_read_buffer.push(lane_byte(rdata, 2));
        self.axi_read_buffer.push(lane_byte(rdata, 3));
        proof {
            assert(self.axi_read_buffer@ =~= old(self).axi_read_buffer@ + word_bytes(rdata));
        }
        if rlast != 0 {
            match self.axi_read_fifo.pop_front() {
                None => Err(AxiError::QueueUnderflow),
                Some(q) => {
                    match self.shadow_mem.read_mem_axi(q) {
                        Ok(compare) => {
                            if bytes_equal(&compare, &self.axi_read_buffer) {
                                self.axi_read_buffer.clear();
                                Ok(())
                            } else {
                                let observed = copy_bytes(&self.axi_read_buffer);
                                self.axi_read_buffer.clear();
                                Err(AxiError::DataMismatch { expected: compare, observed })
                            }
                        },
                        Err(e) => {
                            // Unreachable: every queued read was validated on entry.
                            proof {
                                assert(q.wrap_len_ok() && q.aligned());
                            }
                            Err(e)
                        },
                    }
                },
            }
        } else {
            Ok(())
        }
    }
}

} // verus!
