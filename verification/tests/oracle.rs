use axi_shadow::burst::BurstKind;
use axi_shadow::driver::Driver;
use axi_shadow::payload::{AxiError, AxiReadPayload, AxiWritePayload};
use axi_shadow::shadow::{count_lanes, ShadowMem};

fn wp(addr: u32, size: u8, len: u8, burst: BurstKind, strb: Vec<u8>, data: Vec<u32>) -> AxiWritePayload {
    AxiWritePayload { addr, size, len, burst, strb, data }
}

fn rp(addr: u32, size: u8, len: u8, burst: BurstKind) -> AxiReadPayload {
    AxiReadPayload { addr, size, len, burst }
}

fn le_bytes(w: u32) -> Vec<u8> {
    vec![
        (w & 0xff) as u8,
        ((w >> 8) & 0xff) as u8,
        ((w >> 16) & 0xff) as u8,
        ((w >> 24) & 0xff) as u8,
    ]
}

#[test]
fn incr_burst_beat_addresses() {
    // size=2 (4-byte unit), 4 beats, Incr, addr=0x100: beats land at
    // 0x100, 0x104, 0x108, 0x10C.
    let mut m = ShadowMem::new();
    let words = [0x00010203u32, 0x04050607, 0x08090a0b, 0x0c0d0e0f];
    let p = wp(0x100, 2, 3, BurstKind::Incr, vec![0xf; 4], words.to_vec());
    assert_eq!(m.write_mem_axi(&p), Ok(()));
    for (i, w) in words.iter().enumerate() {
        let addr = 0x100 + 4 * i as u32;
        let got = m.read_mem_axi(rp(addr, 2, 0, BurstKind::Incr)).unwrap();
        assert_eq!(got, le_bytes(*w));
    }
}

#[test]
fn incr_round_trip() {
    // A write burst read back with identical parameters returns the written
    // bytes, beat after beat.
    let mut m = ShadowMem::new();
    let words = [0xdeadbeefu32, 0x01020304, 0xcafef00d, 0x55aa55aa];
    let p = wp(0x200, 2, 3, BurstKind::Incr, vec![0xf; 4], words.to_vec());
    assert_eq!(m.write_mem_axi(&p), Ok(()));
    let got = m.read_mem_axi(rp(0x200, 2, 3, BurstKind::Incr)).unwrap();
    let mut want = Vec::new();
    for w in words.iter() {
        want.extend(le_bytes(*w));
    }
    assert_eq!(got, want);
}

#[test]
fn wrap_burst_beat_addresses() {
    // size=2, 4 beats, Wrap, addr=20: span=16, window [16, 32), beats land
    // at 20, 24, 28 and then wrap to 16.
    let mut m = ShadowMem::new();
    let words = [0x11111111u32, 0x22222222, 0x33333333, 0x44444444];
    let p = wp(20, 2, 3, BurstKind::Wrap, vec![0xf; 4], words.to_vec());
    assert_eq!(m.write_mem_axi(&p), Ok(()));
    // Reading the window in address order finds the last beat first.
    let got = m.read_mem_axi(rp(16, 2, 3, BurstKind::Incr)).unwrap();
    let mut want = Vec::new();
    for w in [words[3], words[0], words[1], words[2]].iter() {
        want.extend(le_bytes(*w));
    }
    assert_eq!(got, want);
}

#[test]
fn wrap_round_trip() {
    // Reading back with the same Wrap parameters returns the written data in
    // write order, not in address order.
    let mut m = ShadowMem::new();
    let words = [0xa1a1a1a1u32, 0xb2b2b2b2, 0xc3c3c3c3, 0xd4d4d4d4];
    let p = wp(20, 2, 3, BurstKind::Wrap, vec![0xf; 4], words.to_vec());
    assert_eq!(m.write_mem_axi(&p), Ok(()));
    let got = m.read_mem_axi(rp(20, 2, 3, BurstKind::Wrap)).unwrap();
    let mut want = Vec::new();
    for w in words.iter() {
        want.extend(le_bytes(*w));
    }
    assert_eq!(got, want);
}

#[test]
fn fixed_burst_stays_in_place() {
    // Every beat of a Fixed burst uses the initial address: a two-beat write
    // leaves the second beat's data, and a four-beat read returns the same
    // unit four times.
    let mut m = ShadowMem::new();
    let p = wp(40, 2, 1, BurstKind::Fixed, vec![0xf; 2], vec![0x01010101, 0x9a9a9a9a]);
    assert_eq!(m.write_mem_axi(&p), Ok(()));
    let got = m.read_mem_axi(rp(40, 2, 3, BurstKind::Fixed)).unwrap();
    let mut want = Vec::new();
    for _ in 0..4 {
        want.extend(le_bytes(0x9a9a9a9a));
    }
    assert_eq!(got, want);
}

#[test]
fn zero_mask_skips_but_address_advances() {
    // A beat with mask 0 writes nothing, yet the address still advances:
    // the second beat lands one transfer unit further on.
    let mut m = ShadowMem::new();
    let p = wp(60, 2, 1, BurstKind::Incr, vec![0x0, 0xf], vec![0x11111111, 0x2222_3333]);
    assert_eq!(m.write_mem_axi(&p), Ok(()));
    let untouched = m.read_mem_axi(rp(60, 2, 0, BurstKind::Incr)).unwrap();
    assert_eq!(untouched, vec![0, 0, 0, 0]);
    let written = m.read_mem_axi(rp(64, 2, 0, BurstKind::Incr)).unwrap();
    assert_eq!(written, le_bytes(0x2222_3333));
}

#[test]
fn partial_lane_mask_rejected() {
    // An active mask whose bit count is neither zero nor the transfer unit's
    // width is rejected, and the burst changes nothing.
    let mut m = ShadowMem::new();
    let p = wp(0, 2, 0, BurstKind::Incr, vec![0x3], vec![0xffffffff]);
    assert_eq!(
        m.write_mem_axi(&p),
        Err(AxiError::BadLaneMask { beat: 0, strb: 0x3, size: 2 })
    );
    let got = m.read_mem_axi(rp(0, 2, 0, BurstKind::Incr)).unwrap();
    assert_eq!(got, vec![0, 0, 0, 0]);
}

#[test]
fn mask_beyond_bus_width_rejected() {
    let mut m = ShadowMem::new();
    // 0x30 names lanes 4 and 5, which a 32-bit bus does not have.
    let p = wp(0, 1, 0, BurstKind::Incr, vec![0x30], vec![0xffffffff]);
    assert_eq!(
        m.write_mem_axi(&p),
        Err(AxiError::BadLaneMask { beat: 0, strb: 0x30, size: 1 })
    );
}

#[test]
fn second_bad_mask_reported() {
    let mut m = ShadowMem::new();
    let p = wp(0, 0, 1, BurstKind::Incr, vec![0x1, 0x3], vec![1, 2]);
    assert_eq!(
        m.write_mem_axi(&p),
        Err(AxiError::BadLaneMask { beat: 1, strb: 0x3, size: 0 })
    );
}

#[test]
fn compacted_lanes_land_from_beat_address() {
    // With a 2-byte unit, mask 0b1100 selects lanes 2 and 3: their bytes
    // land at the beat's address and the byte after it.
    let mut m = ShadowMem::new();
    let p = wp(80, 1, 0, BurstKind::Incr, vec![0xc], vec![0xddcc_bbaa]);
    assert_eq!(m.write_mem_axi(&p), Ok(()));
    let got = m.read_mem_axi(rp(80, 1, 0, BurstKind::Incr)).unwrap();
    assert_eq!(got, vec![0xcc, 0xdd]);
}

#[test]
fn misaligned_address_rejected() {
    // An address that is not a multiple of the transfer unit is rejected
    // whatever the burst kind.
    let mut m = ShadowMem::new();
    for kind in [BurstKind::Fixed, BurstKind::Incr] {
        let p = wp(0x101, 2, 0, kind, vec![0xf], vec![7]);
        assert_eq!(
            m.write_mem_axi(&p),
            Err(AxiError::Misaligned { addr: 0x101, size: 2 })
        );
        assert_eq!(
            m.read_mem_axi(rp(0x101, 2, 0, kind)),
            Err(AxiError::Misaligned { addr: 0x101, size: 2 })
        );
    }
    let w = wp(18, 2, 3, BurstKind::Wrap, vec![0xf; 4], vec![0, 0, 0, 0]);
    assert_eq!(
        m.write_mem_axi(&w),
        Err(AxiError::Misaligned { addr: 18, size: 2 })
    );
}

#[test]
fn illegal_wrap_length_rejected() {
    let mut m = ShadowMem::new();
    // Three beats under Wrap are illegal: only 2, 4, 8 and 16 are allowed.
    let p = wp(0, 2, 2, BurstKind::Wrap, vec![0xf; 3], vec![1, 2, 3]);
    assert_eq!(
        m.write_mem_axi(&p),
        Err(AxiError::IllegalWrapLen { addr: 0, len: 2 })
    );
    assert_eq!(
        m.read_mem_axi(rp(0, 2, 2, BurstKind::Wrap)),
        Err(AxiError::IllegalWrapLen { addr: 0, len: 2 })
    );
}

#[test]
fn malformed_payload_rejected() {
    let mut m = ShadowMem::new();
    // Two beats announced, one data word and one mask supplied.
    let p = wp(0, 2, 1, BurstKind::Incr, vec![0xf], vec![1]);
    assert_eq!(
        m.write_mem_axi(&p),
        Err(AxiError::MalformedPayload { beats: 2, data_len: 1, strb_len: 1 })
    );
}

#[test]
fn burst_kind_decoding() {
    assert_eq!(BurstKind::from_raw(0), Ok(BurstKind::Fixed));
    assert_eq!(BurstKind::from_raw(1), Ok(BurstKind::Incr));
    assert_eq!(BurstKind::from_raw(2), Ok(BurstKind::Wrap));
    assert_eq!(BurstKind::from_raw(3), Err(AxiError::UnknownBurst { raw: 3 }));
    assert_eq!(BurstKind::from_raw(0xff), Err(AxiError::UnknownBurst { raw: 0xff }));
}

#[test]
fn lane_counting() {
    assert_eq!(count_lanes(0x0), 0);
    assert_eq!(count_lanes(0x1), 1);
    assert_eq!(count_lanes(0x5), 2);
    assert_eq!(count_lanes(0xf), 4);
    // Bits above the bus's four lanes do not count.
    assert_eq!(count_lanes(0xf0), 0);
}

#[test]
fn lane_order_is_little_endian() {
    let mut m = ShadowMem::new();
    let p = wp(0, 2, 0, BurstKind::Incr, vec![0xf], vec![0xddccbbaa]);
    assert_eq!(m.write_mem_axi(&p), Ok(()));
    let got = m.read_mem_axi(rp(0, 2, 0, BurstKind::Incr)).unwrap();
    assert_eq!(got, vec![0xaa, 0xbb, 0xcc, 0xdd]);
}

#[test]
fn fresh_memory_reads_zero() {
    let m = ShadowMem::new();
    let got = m.read_mem_axi(rp(0x400, 2, 1, BurstKind::Incr)).unwrap();
    assert_eq!(got, vec![0; 8]);
}

#[test]
fn alignment_check() {
    let m = ShadowMem::new();
    assert!(m.is_addr_align(0x100, 2));
    assert!(!m.is_addr_align(0x101, 2));
    assert!(!m.is_addr_align(0x102, 2));
    assert!(m.is_addr_align(0x102, 1));
    assert!(m.is_addr_align(0x103, 0));
}

#[test]
fn driver_verifies_matching_read_back() {
    let mut d = Driver::new(32, 1000);
    let words = [0x11223344u32, 0x55667788];
    let p = wp(0x300, 2, 1, BurstKind::Incr, vec![0xf; 2], words.to_vec());
    assert_eq!(d.axi_write_ready(p), Ok(()));
    assert_eq!(d.axi_write_done(0, 0, 0), Ok(()));
    let q = d.axi_read_ready().unwrap();
    assert_eq!(q, rp(0x300, 2, 1, BurstKind::Incr));
    // The device returns exactly what was written: beat by beat, last beat
    // flagged.
    assert_eq!(d.axi_read_resp(words[0], 0, 0, 0, 0), Ok(()));
    assert_eq!(d.axi_read_resp(words[1], 0, 1, 0, 0), Ok(()));
}

#[test]
fn driver_reports_mismatch_with_both_sequences() {
    let mut d = Driver::new(32, 1000);
    let p = wp(0x300, 2, 0, BurstKind::Incr, vec![0xf], vec![0x11223344]);
    assert_eq!(d.axi_write_ready(p), Ok(()));
    assert_eq!(d.axi_write_done(0, 0, 0), Ok(()));
    let _ = d.axi_read_ready().unwrap();
    let r = d.axi_read_resp(0x11223345, 0, 1, 0, 0);
    assert_eq!(
        r,
        Err(AxiError::DataMismatch {
            expected: le_bytes(0x11223344),
            observed: le_bytes(0x11223345),
        })
    );
}

#[test]
fn driver_exposes_in_flight_transactions() {
    let mut d = Driver::new(32, 1000);
    assert_eq!(d.outstanding_writes(), 0);
    let p = wp(0, 2, 0, BurstKind::Incr, vec![0xf], vec![1]);
    assert_eq!(d.axi_write_ready(p), Ok(()));
    assert_eq!(d.outstanding_writes(), 1);
    assert_eq!(d.axi_write_done(0, 0, 0), Ok(()));
    assert_eq!(d.outstanding_writes(), 0);
    assert_eq!(d.completed_writes(), 1);
    let _ = d.axi_read_ready().unwrap();
    assert_eq!(d.completed_writes(), 0);
    assert_eq!(d.outstanding_reads(), 1);
    assert_eq!(d.axi_read_resp(1, 0, 1, 0, 0), Ok(()));
    assert_eq!(d.outstanding_reads(), 0);
}

#[test]
fn driver_rejects_unmatched_responses() {
    let mut d = Driver::new(32, 1000);
    assert_eq!(d.axi_write_done(0, 0, 0), Err(AxiError::QueueUnderflow));
    assert_eq!(d.axi_read_ready(), Err(AxiError::QueueUnderflow));
    assert_eq!(d.axi_read_resp(0, 0, 1, 0, 0), Err(AxiError::QueueUnderflow));
}

#[test]
fn driver_rejects_bad_write_request() {
    let mut d = Driver::new(32, 1000);
    let p = wp(0x101, 2, 0, BurstKind::Incr, vec![0xf], vec![7]);
    assert_eq!(
        d.axi_write_ready(p),
        Err(AxiError::Misaligned { addr: 0x101, size: 2 })
    );
}

#[test]
fn driver_pairs_in_arrival_order() {
    let mut d = Driver::new(32, 1000);
    let p1 = wp(0x500, 2, 0, BurstKind::Incr, vec![0xf], vec![0xaaaaaaaa]);
    let p2 = wp(0x600, 2, 0, BurstKind::Incr, vec![0xf], vec![0xbbbbbbbb]);
    assert_eq!(d.axi_write_ready(p1), Ok(()));
    assert_eq!(d.axi_write_ready(p2), Ok(()));
    assert_eq!(d.axi_write_done(0, 0, 0), Ok(()));
    assert_eq!(d.axi_write_done(1, 0, 0), Ok(()));
    // Reads come back in the order the writes were issued.
    let q1 = d.axi_read_ready().unwrap();
    assert_eq!(q1.addr, 0x500);
    let q2 = d.axi_read_ready().unwrap();
    assert_eq!(q2.addr, 0x600);
    assert_eq!(d.axi_read_resp(0xaaaaaaaa, 0, 1, 0, 0), Ok(()));
    assert_eq!(d.axi_read_resp(0xbbbbbbbb, 0, 1, 0, 0), Ok(()));
}
