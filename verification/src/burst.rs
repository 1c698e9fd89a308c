//! Burst address sequencing: the rule by which the bus address advances from
//! one beat of a burst to the next, and the laws that rule obeys.

use vstd::prelude::*;
use vstd::arithmetic::div_mod::{
    lemma_add_mod_noop, lemma_add_mod_noop_right, lemma_div_pos_is_pos, lemma_fundamental_div_mod,
    lemma_mod_bound, lemma_mod_multiples_basic, lemma_mod_self_0, lemma_mod_sub_multiples_vanish,
    lemma_small_mod, lemma_sub_mod_noop,
};
use vstd::arithmetic::mul::{
    lemma_mul_basics, lemma_mul_inequality, lemma_mul_is_associative, lemma_mul_is_commutative,
    lemma_mul_is_distributive_add_other_way, lemma_mul_strict_inequality,
    lemma_mul_strictly_positive,
};

use crate::payload::AxiError;
use crate::MAX_SIZE;

verus! {

/// The address-generation rule of a burst.
#[derive(Clone, Copy, Debug, PartialEq, Eq, Structural)]
pub enum BurstKind {
    /// Every beat uses the request's initial address.
    Fixed,
    /// Each beat's address is the previous one plus the transfer-unit size.
    Incr,
    /// As `Incr`, but the address wraps back to an aligned window boundary.
    Wrap,
}

impl BurstKind {
    /// Decode the bus encoding of the burst kind; any value outside the
    /// enumeration is a protocol error.
    pub fn from_raw(raw: u8) -> (r: Result<BurstKind, AxiError>)
        ensures
            raw == 0 ==> r == Ok::<BurstKind, AxiError>(BurstKind::Fixed),
            raw == 1 ==> r == Ok::<BurstKind, AxiError>(BurstKind::Incr),
            raw == 2 ==> r == Ok::<BurstKind, AxiError>(BurstKind::Wrap),
            raw > 2 ==> r == Err::<BurstKind, AxiError>(AxiError::UnknownBurst { raw }),
    {
        match raw {
            0 => Ok(BurstKind::Fixed),
            1 => Ok(BurstKind::Incr),
            2 => Ok(BurstKind::Wrap),
            _ => Err(AxiError::UnknownBurst { raw }),
        }
    }
}

/// Number of bytes a single beat transfers: `2^size`.
pub open spec fn beat_bytes(size: u8) -> nat {
    (1u32 << (size as u32)) as nat
}

/// With `size` in its legal range the transfer unit is 1, 2 or 4 bytes.
pub proof fn lemma_beat_bytes_values(size: u8)
    requires
        size <= MAX_SIZE,
    ensures
        beat_bytes(size) == if size == 0 { 1nat } else if size == 1 { 2nat } else { 4nat },
        1 <= beat_bytes(size) <= 4,
{
    assert((size == 0 ==> 1u32 << (size as u32) == 1u32) && (size == 1 ==> 1u32 << (size as u32)
        == 2u32) && (size == 2 ==> 1u32 << (size as u32) == 4u32)) by (bit_vector);
}

/// Total number of bytes a Wrap burst of `n` beats covers.
pub open spec fn wrap_span(size: u8, n: nat) -> nat {
    beat_bytes(size) * n
}

/// Lowest address of the wrap window containing `addr`.
pub open spec fn wrap_lower(addr: nat, span: nat) -> nat
    recommends
        span > 0,
{
    (addr / span) * span
}

/// One past the highest address of the wrap window containing `addr`.
pub open spec fn wrap_upper(addr: nat, span: nat) -> nat
    recommends
        span > 0,
{
    wrap_lower(addr, span) + span
}

/// Address of the beat following a beat at `cur`.
pub open spec fn next_addr_spec(
    cur: nat,
    bytes: nat,
    kind: BurstKind,
    lower: nat,
    upper: nat,
) -> nat {
    match kind {
        BurstKind::Fixed => cur,
        BurstKind::Incr => cur + bytes,
        BurstKind::Wrap => if cur + bytes >= upper {
            lower
        } else {
            cur + bytes
        },
    }
}

/// Address of beat `i` of a burst of `n` beats starting at `addr`.
pub open spec fn beat_addr(addr: nat, size: u8, kind: BurstKind, n: nat, i: nat) -> nat
    decreases i,
{
    if i == 0 {
        addr
    } else {
        let bytes = beat_bytes(size);
        let span = wrap_span(size, n);
        next_addr_spec(
            beat_addr(addr, size, kind, n, (i - 1) as nat),
            bytes,
            kind,
            wrap_lower(addr, span),
            wrap_upper(addr, span),
        )
    }
}

/// Advance the bus address by one beat.
pub fn next_addr(cur: u32, bytes: u32, kind: BurstKind, lower: u32, upper: u32) -> (r: u32)
    requires
        kind != BurstKind::Fixed ==> cur + bytes <= u32::MAX,
    ensures
        r as nat == next_addr_spec(cur as nat, bytes as nat, kind, lower as nat, upper as nat),
{
    match kind {
        BurstKind::Fixed => cur,
        BurstKind::Incr => cur + bytes,
        BurstKind::Wrap => {
            if cur + bytes >= upper {
                lower
            } else {
                cur + bytes
            }
        },
    }
}

/// Law: under a Fixed burst, every beat address equals the request's initial
/// address.
pub proof fn lemma_fixed_beat_addr(addr: nat, size: u8, n: nat, i: nat)
    ensures
        beat_addr(addr, size, BurstKind::Fixed, n, i) == addr,
    decreases i,
{
    if i > 0 {
        lemma_fixed_beat_addr(addr, size, n, (i - 1) as nat);
    }
}

/// Law: under an Incr burst, beat `i` sits `i` transfer units past the
/// request's initial address.
pub proof fn lemma_incr_beat_addr(addr: nat, size: u8, n: nat, i: nat)
    ensures
        beat_addr(addr, size, BurstKind::Incr, n, i) == addr + i * beat_bytes(size),
    decreases i,
{
    let b = beat_bytes(size);
    if i > 0 {
        lemma_incr_beat_addr(addr, size, n, (i - 1) as nat);
        lemma_mul_is_distributive_add_other_way(b as int, i - 1, 1);
        assert((i - 1) * (b as int) + 1 * (b as int) == i * (b as int));
    } else {
        lemma_mul_basics(b as int);
    }
}

/// The start address lies inside its own wrap window.
pub proof fn lemma_wrap_start_in_window(addr: nat, span: nat)
    requires
        span > 0,
    ensures
        wrap_lower(addr, span) <= addr < wrap_upper(addr, span),
{
    lemma_fundamental_div_mod(addr as int, span as int);
    lemma_mod_bound(addr as int, span as int);
    lemma_mul_is_commutative(addr as int / span as int, span as int);
}

/// Law: under a Wrap burst the beat addresses never leave the wrap window,
/// and the address wraps back to the window's lower bound exactly when the
/// naive next address would reach the upper bound.
pub proof fn lemma_wrap_beat_addr_in_window(addr: nat, size: u8, n: nat, i: nat)
    requires
        wrap_span(size, n) > 0,
    ensures
        ({
            let span = wrap_span(size, n);
            let lower = wrap_lower(addr, span);
            let upper = wrap_upper(addr, span);
            let cur = beat_addr(addr, size, BurstKind::Wrap, n, i);
            &&& lower <= cur < upper
            &&& beat_addr(addr, size, BurstKind::Wrap, n, i + 1) == if cur + beat_bytes(size)
                >= upper {
                lower
            } else {
                cur + beat_bytes(size)
            }
        }),
    decreases i,
{
    let span = wrap_span(size, n);
    if i == 0 {
        lemma_wrap_start_in_window(addr, span);
    } else {
        lemma_wrap_beat_addr_in_window(addr, size, n, (i - 1) as nat);
    }
}

/// Closed form for Wrap beat addresses: with the start address aligned to the
/// transfer unit, beat `i` occupies slot `(q + i) mod n` of the wrap window,
/// where `q` is the slot of the start address.
pub proof fn lemma_wrap_closed_form(addr: nat, size: u8, n: nat, i: nat)
    requires
        size <= MAX_SIZE,
        n > 0,
        addr % beat_bytes(size) == 0,
    ensures
        ({
            let b = beat_bytes(size);
            let span = wrap_span(size, n);
            let lower = wrap_lower(addr, span);
            let q = (addr - lower) / (b as int);
            &&& beat_addr(addr, size, BurstKind::Wrap, n, i) == lower + ((q + i) % (n as int)) * b
            &&& 0 <= q < n
            &&& addr == lower + q * b
        }),
    decreases i,
{
    let b = beat_bytes(size);
    lemma_beat_bytes_values(size);
    lemma_mul_basics(b as int);
    let span = wrap_span(size, n);
    assert(span == b * n);
    lemma_mul_strictly_positive(b as int, n as int);
    lemma_mul_is_commutative(b as int, n as int);
    assert(span == n * b && span > 0);
    let lower = wrap_lower(addr, span);
    lemma_wrap_start_in_window(addr, span);
    let d = addr - lower;
    // The window's lower bound is a multiple of the transfer unit, so the
    // offset of the start address within the window is one too.
    let k = addr as int / span as int;
    lemma_mul_is_associative(k, n as int, b as int);
    lemma_mod_multiples_basic(k * n, b as int);
    assert((lower as int) % (b as int) == 0);
    lemma_sub_mod_noop(addr as int, lower as int, b as int);
    lemma_small_mod(0nat, b);
    assert(d % (b as int) == 0);
    lemma_fundamental_div_mod(d, b as int);
    let q = d / (b as int);
    lemma_mul_is_commutative(b as int, q);
    assert(d == q * b);
    lemma_div_pos_is_pos(d, b as int);
    assert(q < n) by (nonlinear_arith)
        requires
            q * (b as int) < n * (b as int),
            b > 0,
    ;
    if i == 0 {
        lemma_small_mod(q as nat, n);
    } else {
        lemma_wrap_closed_form(addr, size, n, (i - 1) as nat);
        let t = (q + i - 1) % (n as int);
        lemma_mod_bound(q + i - 1, n as int);
        let prev = beat_addr(addr, size, BurstKind::Wrap, n, (i - 1) as nat);
        assert(prev == lower + t * b);
        // prev + b compares to the window's upper bound as slot t + 1
        // compares to the slot count n.
        lemma_mul_is_distributive_add_other_way(b as int, t, 1);
        assert((t + 1) * (b as int) == t * (b as int) + 1 * (b as int));
        // (q + i) mod n == (t + 1) mod n
        lemma_add_mod_noop_right(1, q + i - 1, n as int);
        assert((q + i) % (n as int) == (1 + t) % (n as int));
        if t + 1 == n {
            lemma_mul_is_commutative(n as int, b as int);
            assert(prev + b == lower + span);
            lemma_mod_self_0(n as int);
            assert((q + i) % (n as int) == 0);
            assert(beat_addr(addr, size, BurstKind::Wrap, n, i) == lower);
        } else {
            lemma_mul_strict_inequality(t + 1, n as int, b as int);
            assert((t + 1) * (b as int) < n * (b as int));
            assert(prev + b < lower + span);
            lemma_small_mod((t + 1) as nat, n);
        }
    }
}

/// Every beat of a burst that satisfies the per-kind bound `cap` touches
/// only bytes below `cap`.
pub proof fn lemma_beat_addr_in_bounds(addr: nat, size: u8, kind: BurstKind, n: nat, i: nat, cap: nat)
    requires
        size <= MAX_SIZE,
        addr % beat_bytes(size) == 0,
        i < n,
        match kind {
            BurstKind::Fixed => addr + beat_bytes(size) <= cap,
            BurstKind::Incr => addr + n * beat_bytes(size) <= cap,
            BurstKind::Wrap => wrap_upper(addr, wrap_span(size, n)) <= cap,
        },
    ensures
        beat_addr(addr, size, kind, n, i) + beat_bytes(size) <= cap,
{
    let b = beat_bytes(size);
    lemma_beat_bytes_values(size);
    match kind {
        BurstKind::Fixed => {
            lemma_fixed_beat_addr(addr, size, n, i);
        },
        BurstKind::Incr => {
            lemma_incr_beat_addr(addr, size, n, i);
            lemma_mul_is_distributive_add_other_way(b as int, i as int, 1);
            lemma_mul_inequality(i + 1 as int, n as int, b as int);
            assert(i * b + b == (i + 1) * b && (i + 1) * b <= n * b);
        },
        BurstKind::Wrap => {
            lemma_wrap_closed_form(addr, size, n, i);
            let span = wrap_span(size, n);
            let lower = wrap_lower(addr, span);
            let u = ((addr - lower) / (b as int) + i) % (n as int);
            lemma_mod_bound((addr - lower) / (b as int) + i, n as int);
            lemma_mul_is_distributive_add_other_way(b as int, u, 1);
            lemma_mul_inequality(u + 1, n as int, b as int);
            lemma_mul_is_commutative(n as int, b as int);
            assert(u * b + b == (u + 1) * b && (u + 1) * b <= n * b);
        },
    }
}

/// Under an Incr burst, or a Wrap burst with an aligned start address, no two
/// beats overlap: their byte intervals are disjoint.
pub proof fn lemma_beat_intervals_disjoint(addr: nat, size: u8, kind: BurstKind, n: nat, i: nat, j: nat)
    requires
        size <= MAX_SIZE,
        addr % beat_bytes(size) == 0,
        i < j < n,
        kind != BurstKind::Fixed,
    ensures
        ({
            let a_i = beat_addr(addr, size, kind, n, i);
            let a_j = beat_addr(addr, size, kind, n, j);
            a_i + beat_bytes(size) <= a_j || a_j + beat_bytes(size) <= a_i
        }),
{
    let b = beat_bytes(size);
    lemma_beat_bytes_values(size);
    match kind {
        BurstKind::Fixed => {},
        BurstKind::Incr => {
            lemma_incr_beat_addr(addr, size, n, i);
            lemma_incr_beat_addr(addr, size, n, j);
            lemma_mul_is_distributive_add_other_way(b as int, i as int, 1);
            lemma_mul_inequality(i + 1 as int, j as int, b as int);
            assert(i * b + b == (i + 1) * b && (i + 1) * b <= j * b);
        },
        BurstKind::Wrap => {
            lemma_wrap_closed_form(addr, size, n, i);
            lemma_wrap_closed_form(addr, size, n, j);
            lemma_wrap_beat_addrs_distinct(addr, size, n, i, j);
            let span = wrap_span(size, n);
            let lower = wrap_lower(addr, span);
            let q = (addr - lower) / (b as int);
            let u = (q + i) % (n as int);
            let v = (q + j) % (n as int);
            assert(u != v) by {
                assert(lower + u * b != lower + v * b);
            }
            if u < v {
                lemma_mul_is_distributive_add_other_way(b as int, u, 1);
                lemma_mul_inequality(u + 1, v, b as int);
                assert(u * b + b == (u + 1) * b && (u + 1) * b <= v * b);
            } else {
                lemma_mul_is_distributive_add_other_way(b as int, v, 1);
                lemma_mul_inequality(v + 1, u, b as int);
                assert(v * b + b == (v + 1) * b && (v + 1) * b <= u * b);
            }
        },
    }
}

/// Law: under a Wrap burst with the start address aligned to the transfer
/// unit, no two of the burst's beats share an address.
pub proof fn lemma_wrap_beat_addrs_distinct(addr: nat, size: u8, n: nat, i: nat, j: nat)
    requires
        size <= MAX_SIZE,
        addr % beat_bytes(size) == 0,
        i < j < n,
    ensures
        beat_addr(addr, size, BurstKind::Wrap, n, i) != beat_addr(addr, size, BurstKind::Wrap, n, j),
{
    let b = beat_bytes(size);
    lemma_beat_bytes_values(size);
    lemma_wrap_closed_form(addr, size, n, i);
    lemma_wrap_closed_form(addr, size, n, j);
    let span = wrap_span(size, n);
    let lower = wrap_lower(addr, span);
    let q = (addr - lower) / (b as int);
    let u = (q + i) % (n as int);
    let v = (q + j) % (n as int);
    lemma_mod_bound(q + i, n as int);
    lemma_mod_bound(q + j, n as int);
    // Slot v is slot u advanced by j - i, which stays short of a full turn
    // of the window, so the two slots differ.
    lemma_add_mod_noop(q + i, j - i, n as int);
    lemma_small_mod((j - i) as nat, n);
    assert(v == (u + (j - i)) % (n as int));
    if u + (j - i) < n {
        lemma_small_mod((u + (j - i)) as nat, n);
    } else {
        lemma_mod_sub_multiples_vanish(u + (j - i), n as int);
        lemma_small_mod((u + (j - i) - n) as nat, n);
    }
    assert(u != v);
    assert(u * b != v * b) by (nonlinear_arith)
        requires
            b > 0 && u != v,
    ;
}

} // verus!
