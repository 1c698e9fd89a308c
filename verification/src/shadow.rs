//! The shadow memory: a byte-addressable reference store mutated only by
//! lane-masked burst writes and observed only by burst reads, together with
//! the exact model of what a burst does to it.

use vstd::prelude::*;
use vstd::arithmetic::div_mod::{
    lemma_fundamental_div_mod, lemma_fundamental_div_mod_converse, lemma_mod_bound,
};
use vstd::arithmetic::mul::{lemma_mul_inequality, lemma_mul_is_commutative};

use crate::burst::{
    beat_bytes, lemma_beat_addr_in_bounds, lemma_beat_bytes_values, lemma_beat_intervals_disjoint,
    next_addr, wrap_lower,
    wrap_span, wrap_upper, BurstKind,
};
use crate::payload::{lane_count, lanes_on, mask_ok, read_of, AxiError, AxiReadPayload,
    AxiWritePayload};
use crate::{BUS_BYTES, MAX_SIZE, MEM_SIZE};

verus! {

/// Byte of the data word `w` carried on byte lane `lane` of the bus.
pub open spec fn byte_of(w: u32, lane: u32) -> u8 {
    ((w >> ((8 * lane) as u32)) & 0xff) as u8
}

/// Extract the byte on lane `lane` of the data word `w`.
pub fn lane_byte(w: u32, lane: u32) -> (r: u8)
    requires
        lane < BUS_BYTES,
    ensures
        r == byte_of(w, lane),
{
    ((w >> (8 * lane)) & 0xff) as u8
}

/// The memory image after one write beat at address `a`: the bytes of the
/// enabled lanes of `w`, in ascending lane order, land at consecutive
/// addresses from `a`; every other byte is untouched. An idle mask (no lane
/// enabled) leaves the image unchanged.
pub open spec fn apply_beat(mem: Seq<u8>, a: nat, w: u32, strb: u8) -> Seq<u8> {
    Seq::new(
        mem.len(),
        |x: int|
            {
                let ls = lanes_on(strb, BUS_BYTES as nat);
                if a <= x < a + ls.len() {
                    byte_of(w, ls[x - a])
                } else {
                    mem[x]
                }
            },
    )
}

/// The memory image after the first `n` beats of a write burst.
pub open spec fn apply_n(mem: Seq<u8>, p: AxiWritePayload, n: nat) -> Seq<u8>
    decreases n,
{
    if n == 0 {
        mem
    } else {
        apply_beat(
            apply_n(mem, p, (n - 1) as nat),
            p.beat_address((n - 1) as nat),
            p.data@[n - 1],
            p.strb@[n - 1],
        )
    }
}

/// The memory image after a whole write burst.
pub open spec fn apply_burst(mem: Seq<u8>, p: AxiWritePayload) -> Seq<u8> {
    apply_n(mem, p, p.beats())
}

/// The bytes a read burst returns: for each beat in order, the transfer
/// unit's worth of bytes starting at the beat's address.
pub open spec fn read_burst_spec(mem: Seq<u8>, p: AxiReadPayload) -> Seq<u8> {
    Seq::new(
        p.beats() * p.bytes(),
        |k: int|
            mem[p.beat_address((k / (p.bytes() as int)) as nat) + (k % (p.bytes() as int))],
    )
}

/// Entry `i * bytes + j` of a read burst's result is byte `j` of beat `i`.
pub proof fn lemma_read_spec_index(mem: Seq<u8>, p: AxiReadPayload, i: nat, j: nat)
    requires
        p.size_ok(),
        i < p.beats(),
        j < p.bytes(),
    ensures
        0 <= i * p.bytes() + j < read_burst_spec(mem, p).len(),
        read_burst_spec(mem, p)[(i * p.bytes() + j) as int] == mem[(p.beat_address(i)
            + j) as int],
{
    let b = p.bytes();
    lemma_beat_bytes_values(p.size);
    let k = i * b + j;
    lemma_fundamental_div_mod_converse(k as int, b as int, i as int, j as int);
    lemma_mul_inequality(i + 1 as int, p.beats() as int, b as int);
    vstd::arithmetic::mul::lemma_mul_is_distributive_add_other_way(b as int, i as int, 1);
}

/// Appending beats never changes the length of the memory image.
pub proof fn lemma_apply_n_len(mem: Seq<u8>, p: AxiWritePayload, n: nat)
    ensures
        apply_n(mem, p, n).len() == mem.len(),
    decreases n,
{
    if n > 0 {
        lemma_apply_n_len(mem, p, (n - 1) as nat);
    }
}

/// The lanes a mask enables among the first `w` are at most `w` many, and
/// the idle mask enables none.
pub proof fn lemma_lanes_on_len(strb: u8, w: nat)
    ensures
        lanes_on(strb, w).len() <= w,
        strb == 0 ==> lanes_on(strb, w).len() == 0,
    decreases w,
{
    if w > 0 {
        lemma_lanes_on_len(strb, (w - 1) as nat);
        let l = (w - 1) as u32;
        assert((0u8 >> l) & 1 != 1) by (bit_vector);
    }
}

/// A mask enables no more lanes among the first `w1` than among the first
/// `w2`, when `w1 <= w2`.
pub proof fn lemma_lanes_on_mono(strb: u8, w1: nat, w2: nat)
    requires
        w1 <= w2,
    ensures
        lanes_on(strb, w1).len() <= lanes_on(strb, w2).len(),
    decreases w2,
{
    if w1 < w2 {
        lemma_lanes_on_mono(strb, w1, (w2 - 1) as nat);
    }
}

/// Count the byte lanes a mask enables.
pub fn count_lanes(strb: u8) -> (c: u32)
    ensures
        c as nat == lane_count(strb),
{
    let mut c: u32 = 0;
    let mut lane: u32 = 0;
    while lane < BUS_BYTES
        invariant
            lane <= BUS_BYTES,
            c <= lane,
            c as nat == lanes_on(strb, lane as nat).len(),
        decreases BUS_BYTES - lane,
    {
        if (strb >> lane) & 1 == 1 {
            c += 1;
        }
        lane += 1;
    }
    c
}

/// The bytes a whole write burst stores, beat after beat: entry
/// `i * bytes + j` is the byte of beat `i`'s data word on the `j`-th enabled
/// lane of beat `i`'s mask.
pub open spec fn burst_data_bytes(p: AxiWritePayload) -> Seq<u8> {
    Seq::new(
        p.beats() * p.bytes(),
        |k: int|
            byte_of(
                p.data@[k / (p.bytes() as int)],
                lanes_on(p.strb@[k / (p.bytes() as int)], BUS_BYTES as nat)[k % (p.bytes() as int)],
            ),
    )
}

/// After the first `n` beats of a valid write burst whose masks are all
/// active, byte `j` of beat `i`'s interval holds the byte beat `i` stored
/// there, for any already-applied beat `i < n` — no later beat disturbs it.
proof fn lemma_apply_n_beat_bytes(mem: Seq<u8>, p: AxiWritePayload, n: nat, i: nat, j: nat)
    requires
        mem.len() == MEM_SIZE,
        p.valid(),
        forall|k: int| 0 <= k < p.beats() ==> p.strb@[k] != 0,
        p.burst != BurstKind::Fixed || p.beats() == 1,
        i < n <= p.beats(),
        j < p.bytes(),
    ensures
        apply_n(mem, p, n)[(p.beat_address(i) + j) as int] == byte_of(
            p.data@[i as int],
            lanes_on(p.strb@[i as int], BUS_BYTES as nat)[j as int],
        ),
    decreases n,
{
    let b = p.bytes();
    lemma_beat_bytes_values(p.size);
    let last = (n - 1) as nat;
    let a_last = p.beat_address(last);
    let s_last = p.strb@[last as int];
    lemma_apply_n_len(mem, p, last);
    let prev = apply_n(mem, p, last);
    lemma_beat_addr_in_bounds(
        p.addr as nat,
        p.size,
        p.burst,
        p.beats(),
        last,
        MEM_SIZE as nat,
    );
    lemma_beat_addr_in_bounds(p.addr as nat, p.size, p.burst, p.beats(), i, MEM_SIZE as nat);
    // An active, acceptable mask enables exactly one transfer unit of lanes.
    assert(mask_ok(s_last, p.size) && s_last != 0);
    assert(lanes_on(s_last, BUS_BYTES as nat).len() == b);
    if i == last {
        assert(apply_n(mem, p, n) == apply_beat(prev, a_last, p.data@[last as int], s_last));
    } else {
        lemma_apply_n_beat_bytes(mem, p, last, i, j);
        lemma_beat_intervals_disjoint(p.addr as nat, p.size, p.burst, p.beats(), i, last);
        let x = p.beat_address(i) + j;
        assert(!(a_last <= x < a_last + b));
        assert(apply_n(mem, p, n)[x as int] == prev[x as int]);
    }
}

/// Law (round trip): a write burst followed immediately by a read burst with
/// identical address, size, burst kind and burst length, with every beat's
/// lane mask active and no intervening write, returns byte for byte the data
/// the write stored. It holds whenever no two beats of the burst share an
/// address: for every Incr burst, every legal Wrap burst, and a single-beat
/// Fixed burst. (A Fixed burst of several beats rewrites one transfer unit
/// in place, so reading it back returns the last beat's bytes, not each
/// beat's.)
pub proof fn lemma_write_read_round_trip(mem: Seq<u8>, p: AxiWritePayload)
    requires
        mem.len() == MEM_SIZE,
        p.valid(),
        forall|k: int| 0 <= k < p.beats() ==> p.strb@[k] != 0,
        p.burst != BurstKind::Fixed || p.beats() == 1,
    ensures
        read_burst_spec(apply_burst(mem, p), read_of(p)) == burst_data_bytes(p),
{
    let b = p.bytes();
    let n = p.beats();
    let q = read_of(p);
    let final_mem = apply_burst(mem, p);
    lemma_beat_bytes_values(p.size);
    lemma_apply_n_len(mem, p, n);
    assert forall|k: int| 0 <= k < n * b implies read_burst_spec(final_mem, q)[k]
        == burst_data_bytes(p)[k] by {
        lemma_fundamental_div_mod(k, b as int);
        lemma_mod_bound(k, b as int);
        let i = k / (b as int);
        let j = k % (b as int);
        assert(0 <= i < n) by (nonlinear_arith)
            requires
                k == (b as int) * i + j,
                0 <= j < b,
                0 <= k < n * (b as int),
                b > 0,
        ;
        lemma_read_spec_index(final_mem, q, i as nat, j as nat);
        assert(q.beat_address(i as nat) == p.beat_address(i as nat));
        lemma_apply_n_beat_bytes(mem, p, n, i as nat, j as nat);
    }
    assert(read_burst_spec(final_mem, q) =~= burst_data_bytes(p));
}

/// The shadow memory: the oracle's reference image of the device's
/// byte-addressable storage, of fixed capacity `MEM_SIZE`, allocated once
/// and zero-initialized.
pub struct ShadowMem {
    mem: Vec<u8>,
}

impl View for ShadowMem {
    type V = Seq<u8>;

    closed spec fn view(&self) -> Seq<u8> {
        self.mem@
    }
}

impl ShadowMem {
    /// The image always spans exactly the configured address space.
    pub open spec fn wf(&self) -> bool {
        self@.len() == MEM_SIZE
    }

    /// A fresh, zero-filled shadow memory.
    pub fn new() -> (r: ShadowMem)
        ensures
            r.wf(),
            r@ == Seq::new(MEM_SIZE as nat, |x: int| 0u8),
    {
        let mem = vec![0u8; MEM_SIZE];
        proof {
            assert forall|x: int| 0 <= x < MEM_SIZE implies mem@[x] == 0u8 by {
                assert(cloned(0u8, mem@[x]));
            }
            assert(mem@ =~= Seq::new(MEM_SIZE as nat, |x: int| 0u8));
        }
        ShadowMem { mem }
    }

    /// Whether `addr` is a multiple of the transfer unit `2^size`.
    pub fn is_addr_align(&self, addr: u32, size: u8) -> (r: bool)
        requires
            size <= MAX_SIZE,
        ensures
            r == (addr as nat % beat_bytes(size) == 0),
    {
        let bytes_number: u32 = 1u32 << (size as u32);
        proof {
            lemma_beat_bytes_values(size);
            lemma_fundamental_div_mod(addr as int, bytes_number as int);
            lemma_mod_bound(addr as int, bytes_number as int);
            lemma_mul_is_commutative(addr as int / bytes_number as int, bytes_number as int);
        }
        let aligned_addr = addr / bytes_number * bytes_number;
        addr == aligned_addr
    }

    /// Predict the bytes a read burst returns: one transfer unit per beat,
    /// taken from the image at the beat's address. Rejects a Wrap burst with
    /// an illegal beat count, then a misaligned start address.
    #[verifier::rlimit(60)]
    pub fn read_mem_axi(&self, payload: AxiReadPayload) -> (r: Result<Vec<u8>, AxiError>)
        requires
            self.wf(),
            payload.size_ok(),
            payload.wrap_len_ok() && payload.aligned() ==> payload.in_bounds(),
        ensures
            !payload.wrap_len_ok() ==> r == (Err::<Vec<u8>, AxiError>(AxiError::IllegalWrapLen {
                addr: payload.addr,
                len: payload.len,
            })),
            payload.wrap_len_ok() && !payload.aligned() ==> r == (Err::<Vec<u8>, AxiError>(
                AxiError::Misaligned { addr: payload.addr, size: payload.size },
            )),
            payload.wrap_len_ok() && payload.aligned() ==> (r matches Ok(d) && d@
                == read_burst_spec(self@, payload)),
    {
        let bytes_number: u32 = 1u32 << (payload.size as u32);
        proof {
            lemma_beat_bytes_values(payload.size);
        }
        let transfer_count: u32 = payload.len as u32 + 1;

        if payload.burst == BurstKind::Wrap && !(transfer_count == 2 || transfer_count == 4
            || transfer_count == 8 || transfer_count == 16) {
            return Err(AxiError::IllegalWrapLen { addr: payload.addr, len: payload.len });
        }
        if !self.is_addr_align(payload.addr, payload.size) {
            return Err(AxiError::Misaligned { addr: payload.addr, size: payload.size });
        }

        let mut lower_boundary: u32 = 0;
        let mut upper_boundary: u32 = 0;
        if payload.burst == BurstKind::Wrap {
            proof {
                vstd::arithmetic::mul::lemma_mul_upper_bound(
                    bytes_number as int,
                    4,
                    transfer_count as int,
                    16,
                );
            }
            let span = bytes_number * transfer_count;
            proof {
                vstd::arithmetic::mul::lemma_mul_strictly_positive(
                    bytes_number as int,
                    transfer_count as int,
                );
                lemma_fundamental_div_mod(payload.addr as int, span as int);
                lemma_mod_bound(payload.addr as int, span as int);
                lemma_mul_is_commutative(payload.addr as int / span as int, span as int);
            }
            lower_boundary = payload.addr / span * span;
            proof {
                assert(span as nat == wrap_span(payload.size, payload.beats()));
                assert(lower_boundary as nat == wrap_lower(
                    payload.addr as nat,
                    wrap_span(payload.size, payload.beats()),
                ));
                assert(lower_boundary + span == wrap_upper(
                    payload.addr as nat,
                    wrap_span(payload.size, payload.beats()),
                ));
                assert(lower_boundary + span <= MEM_SIZE);
            }
            upper_boundary = lower_boundary + span;
        }

        let mut data: Vec<u8> = Vec::new();
        let mut current_addr: u32 = payload.addr;
        let mut i: u32 = 0;
        while i < transfer_count
            invariant
                self.wf(),
                payload.size_ok(),
                payload.wrap_len_ok(),
                payload.aligned(),
                payload.in_bounds(),
                bytes_number as nat == payload.bytes(),
                transfer_count as nat == payload.beats(),
                i <= transfer_count,
                current_addr as nat == payload.beat_address(i as nat),
                payload.burst == BurstKind::Wrap ==> {
                    &&& lower_boundary as nat == wrap_lower(
                        payload.addr as nat,
                        wrap_span(payload.size, payload.beats()),
                    )
                    &&& upper_boundary as nat == wrap_upper(
                        payload.addr as nat,
                        wrap_span(payload.size, payload.beats()),
                    )
                },
                data@.len() == i as nat * payload.bytes(),
                forall|k: int| 0 <= k < data@.len() ==> data@[k] == read_burst_spec(
                    self@,
                    payload,
                )[k],
            decreases transfer_count - i,
        {
            proof {
                lemma_beat_addr_in_bounds(
                    payload.addr as nat,
                    payload.size,
                    payload.burst,
                    payload.beats(),
                    i as nat,
                    MEM_SIZE as nat,
                );
            }
            let mut j: u32 = 0;
            while j < bytes_number
                invariant
                    self.wf(),
                    payload.size_ok(),
                    bytes_number as nat == payload.bytes(),
                    transfer_count as nat == payload.beats(),
                    i < transfer_count,
                    j <= bytes_number,
                    current_addr as nat == payload.beat_address(i as nat),
                    current_addr + bytes_number <= MEM_SIZE,
                    data@.len() == i as nat * payload.bytes() + j as nat,
                    forall|k: int| 0 <= k < data@.len() ==> data@[k] == read_burst_spec(
                        self@,
                        payload,
                    )[k],
                decreases bytes_number - j,
            {
                proof {
                    lemma_read_spec_index(self@, payload, i as nat, j as nat);
                }
                let byte = self.mem[(current_addr + j) as usize];
                data.push(byte);
                j += 1;
            }
            proof {
                vstd::arithmetic::mul::lemma_mul_is_distributive_add_other_way(
                    payload.bytes() as int,
                    i as int,
                    1,
                );
                assert((i as nat + 1) * payload.bytes() == i as nat * payload.bytes()
                    + payload.bytes());
            }
            current_addr = next_addr(
                current_addr,
                bytes_number,
                payload.burst,
                lower_boundary,
                upper_boundary,
            );
            i += 1;
        }
        proof {
            assert(data@ =~= read_burst_spec(self@, payload));
        }
        Ok(data)
    }

    /// Apply a write burst to the image. Per beat: an idle lane mask writes
    /// nothing; any other mask must enable exactly the transfer unit's worth
    /// of lanes, whose bytes land at consecutive addresses from the beat's
    /// address. The address advances by the burst rule whether or not the
    /// beat wrote. Rejects, in this order: a payload whose data or mask
    /// arrays disagree with its beat count, a Wrap burst with an illegal
    /// beat count, a misaligned start address, and the first unacceptable
    /// lane mask; a rejected burst leaves the image untouched.
    #[verifier::rlimit(60)]
    pub fn write_mem_axi(&mut self, payload: &AxiWritePayload) -> (r: Result<(), AxiError>)
        requires
            old(self).wf(),
            payload.size_ok(),
            payload.shaped() && payload.wrap_len_ok() && payload.aligned() && payload.masks_ok()
                ==> payload.in_bounds(),
        ensures
            final(self).wf(),
            !payload.shaped() ==> r == (Err::<(), AxiError>(AxiError::MalformedPayload {
                beats: (payload.len + 1) as u32,
                data_len: payload.data@.len() as usize,
                strb_len: payload.strb@.len() as usize,
            })),
            payload.shaped() && !payload.wrap_len_ok() ==> r == (Err::<(), AxiError>(
                AxiError::IllegalWrapLen { addr: payload.addr, len: payload.len },
            )),
            payload.shaped() && payload.wrap_len_ok() && !payload.aligned() ==> r == (Err::<
                (),
                AxiError,
            >(AxiError::Misaligned { addr: payload.addr, size: payload.size })),
            payload.shaped() && payload.wrap_len_ok() && payload.aligned()
                && !payload.masks_ok() ==> (r matches Err(e) && e matches AxiError::BadLaneMask {
                beat,
                strb,
                size,
            } && beat < payload.beats() && strb == payload.strb@[beat as int] && size
                == payload.size && !mask_ok(strb, payload.size) && (forall|k: int|
                0 <= k < beat ==> mask_ok(#[trigger] payload.strb@[k], payload.size))),
            payload.shaped() && payload.wrap_len_ok() && payload.aligned() && payload.masks_ok()
                ==> r == Ok::<(), AxiError>(()) && final(self)@ == apply_burst(
                old(self)@,
                *payload,
            ),
            r matches Err(_) ==> final(self)@ == old(self)@,
    {
        let transfer_count: u32 = payload.len as u32 + 1;
        if payload.data.len() != transfer_count as usize || payload.strb.len()
            != transfer_count as usize {
            return Err(AxiError::MalformedPayload {
                beats: transfer_count,
                data_len: payload.data.len(),
                strb_len: payload.strb.len(),
            });
        }
        let bytes_number: u32 = 1u32 << (payload.size as u32);
        proof {
            lemma_beat_bytes_values(payload.size);
        }
        if payload.burst == BurstKind::Wrap && !(transfer_count == 2 || transfer_count == 4
            || transfer_count == 8 || transfer_count == 16) {
            return Err(AxiError::IllegalWrapLen { addr: payload.addr, len: payload.len });
        }
        if !self.is_addr_align(payload.addr, payload.size) {
            return Err(AxiError::Misaligned { addr: payload.addr, size: payload.size });
        }

        let mut beat_idx: usize = 0;
        while beat_idx < transfer_count as usize
            invariant
                payload.size_ok(),
                payload.shaped(),
                payload.wrap_len_ok(),
                payload.aligned(),
                bytes_number as nat == payload.bytes(),
                transfer_count as nat == payload.beats(),
                beat_idx <= transfer_count,
                self@ == old(self)@,
                self@.len() == MEM_SIZE,
                forall|k: int| 0 <= k < beat_idx ==> mask_ok(
                    #[trigger] payload.strb@[k],
                    payload.size,
                ),
            decreases transfer_count as usize - beat_idx,
        {
            let s = payload.strb[beat_idx];
            if !(s == 0 || (s < 16 && count_lanes(s) == bytes_number)) {
                return Err(AxiError::BadLaneMask { beat: beat_idx, strb: s, size: payload.size });
            }
            beat_idx += 1;
        }

        let mut lower_boundary: u32 = 0;
        let mut upper_boundary: u32 = 0;
        if payload.burst == BurstKind::Wrap {
            proof {
                vstd::arithmetic::mul::lemma_mul_upper_bound(
                    bytes_number as int,
                    4,
                    transfer_count as int,
                    16,
                );
            }
            let span = bytes_number * transfer_count;
            proof {
                vstd::arithmetic::mul::lemma_mul_strictly_positive(
                    bytes_number as int,
                    transfer_count as int,
                );
                lemma_fundamental_div_mod(payload.addr as int, span as int);
                lemma_mod_bound(payload.addr as int, span as int);
                lemma_mul_is_commutative(payload.addr as int / span as int, span as int);
            }
            lower_boundary = payload.addr / span * span;
            proof {
                assert(span as nat == wrap_span(payload.size, payload.beats()));
                assert(lower_boundary as nat == wrap_lower(
                    payload.addr as nat,
                    wrap_span(payload.size, payload.beats()),
                ));
                assert(lower_boundary + span == wrap_upper(
                    payload.addr as nat,
                    wrap_span(payload.size, payload.beats()),
                ));
            }
            upper_boundary = lower_boundary + span;
        }

        let mut current_addr: u32 = payload.addr;
        let mut item_idx: usize = 0;
        while item_idx < transfer_count as usize
            invariant
                self@.len() == MEM_SIZE,
                payload.size_ok(),
                payload.shaped(),
                payload.wrap_len_ok(),
                payload.aligned(),
                payload.masks_ok(),
                payload.in_bounds(),
                bytes_number as nat == payload.bytes(),
                transfer_count as nat == payload.beats(),
                item_idx <= transfer_count,
                current_addr as nat == payload.beat_address(item_idx as nat),
                payload.burst == BurstKind::Wrap ==> {
                    &&& lower_boundary as nat == wrap_lower(
                        payload.addr as nat,
                        wrap_span(payload.size, payload.beats()),
                    )
                    &&& upper_boundary as nat == wrap_upper(
                        payload.addr as nat,
                        wrap_span(payload.size, payload.beats()),
                    )
                },
                self@ == apply_n(old(self)@, *payload, item_idx as nat),
            decreases transfer_count as usize - item_idx,
        {
            proof {
                lemma_beat_addr_in_bounds(
                    payload.addr as nat,
                    payload.size,
                    payload.burst,
                    payload.beats(),
                    item_idx as nat,
                    MEM_SIZE as nat,
                );
            }
            let s = payload.strb[item_idx];
            let w = payload.data[item_idx];
            let ghost pre = self@;
            proof {
                lemma_lanes_on_len(s, BUS_BYTES as nat);
            }
            let mut write_count: u32 = 0;
            let mut lane: u32 = 0;
            while lane < BUS_BYTES
                invariant
                    lane <= BUS_BYTES,
                    self@.len() == MEM_SIZE,
                    pre.len() == MEM_SIZE,
                    payload.size_ok(),
                    bytes_number as nat == payload.bytes(),
                    mask_ok(s, payload.size),
                    lane_count(s) <= bytes_number,
                    current_addr + bytes_number <= MEM_SIZE,
                    write_count as nat == lanes_on(s, lane as nat).len(),
                    forall|x: int| 0 <= x < MEM_SIZE ==> self@[x] == (if current_addr <= x
                        < current_addr + write_count {
                        byte_of(w, lanes_on(s, lane as nat)[x - current_addr])
                    } else {
                        pre[x]
                    }),
                decreases BUS_BYTES - lane,
            {
                if (s >> lane) & 1 == 1 {
                    proof {
                        lemma_lanes_on_mono(s, (lane + 1) as nat, BUS_BYTES as nat);
                    }
                    let byte = lane_byte(w, lane);
                    self.mem[(current_addr + write_count) as usize] = byte;
                    write_count += 1;
                }
                lane += 1;
            }
            proof {
                assert(self@ =~= apply_beat(pre, current_addr as nat, w, s));
            }
            current_addr = next_addr(
                current_addr,
                bytes_number,
                payload.burst,
                lower_boundary,
                upper_boundary,
            );
            item_idx += 1;
        }
        Ok(())
    }
}

} // verus!
