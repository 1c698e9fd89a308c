//! Parsing of the wave-dump range option: an empty string, one decimal
//! number, or two comma-separated decimal numbers `start,end`.

use vstd::prelude::*;
use vstd::arithmetic::div_mod::{lemma_fundamental_div_mod, lemma_mod_bound};
use vstd::string::StringSliceAdditionalSpecFns;

verus! {

/// Why a dump-range string was rejected.
#[derive(Clone, Copy, Debug, PartialEq, Eq, Structural)]
pub enum RangeError {
    /// A part that should be a decimal number is empty, holds a non-digit,
    /// or does not fit in 64 bits.
    InvalidNumber,
    /// The range's start is larger than its end.
    StartAfterEnd,
}

/// The byte of an ASCII decimal digit.
pub open spec fn is_digit(b: u8) -> bool {
    48 <= b <= 57
}

/// Every byte of `s` is a decimal digit.
pub open spec fn all_digits(s: Seq<u8>) -> bool {
    forall|i: int| 0 <= i < s.len() ==> is_digit(#[trigger] s[i])
}

/// The value of `s` read as a decimal numeral.
pub open spec fn dec_val(s: Seq<u8>) -> nat
    recommends
        all_digits(s),
    decreases s.len(),
{
    if s.len() == 0 {
        0
    } else {
        (dec_val(s.drop_last()) * 10 + (s.last() - 48)) as nat
    }
}

/// Extending a numeral to the right never shrinks its value.
pub proof fn lemma_dec_val_prefix_le(s: Seq<u8>, k: int)
    requires
        0 <= k <= s.len(),
        all_digits(s),
    ensures
        dec_val(s.subrange(0, k)) <= dec_val(s),
    decreases s.len() - k,
{
    if k < s.len() {
        lemma_dec_val_prefix_le(s, k + 1);
        let p = s.subrange(0, k + 1);
        assert(p.drop_last() =~= s.subrange(0, k));
        assert(dec_val(p) == dec_val(s.subrange(0, k)) * 10 + (p.last() - 48));
    } else {
        assert(s.subrange(0, k) =~= s);
    }
}

/// What parsing one decimal numeral returns: its value when it is a
/// non-empty, all-digit string whose value fits in 64 bits, and
/// `InvalidNumber` otherwise.
pub open spec fn spec_parse_u64(s: Seq<u8>) -> Result<u64, RangeError> {
    if s.len() > 0 && all_digits(s) && dec_val(s) <= u64::MAX {
        Ok(dec_val(s) as u64)
    } else {
        Err(RangeError::InvalidNumber)
    }
}

/// Number of comma bytes in `s`.
pub open spec fn comma_count(s: Seq<u8>) -> nat
    decreases s.len(),
{
    if s.len() == 0 {
        0
    } else {
        comma_count(s.drop_last()) + if s.last() == 44 {
            1nat
        } else {
            0nat
        }
    }
}

/// What parsing returns once the input is split at its single comma into
/// `a,b`: an empty start means "from zero"; otherwise both parts must parse
/// and be in order.
pub open spec fn spec_range_of_parts(a: Seq<u8>, b: Seq<u8>) -> Result<(u64, u64), RangeError> {
    if a.len() == 0 {
        match spec_parse_u64(b) {
            Ok(end) => Ok((0, end)),
            Err(e) => Err(e),
        }
    } else {
        match (spec_parse_u64(a), spec_parse_u64(b)) {
            (Ok(start), Ok(end)) => if start > end {
                Err(RangeError::StartAfterEnd)
            } else {
                Ok((start, end))
            },
            (Err(e), _) => Err(e),
            (_, Err(e)) => Err(e),
        }
    }
}

/// Parse one decimal numeral from `bytes[from..to]`.
fn parse_u64_slice(bytes: &[u8], from: usize, to: usize) -> (r: Result<u64, RangeError>)
    requires
        from <= to <= bytes@.len(),
    ensures
        r == spec_parse_u64(bytes@.subrange(from as int, to as int)),
{
    let ghost s = bytes@.subrange(from as int, to as int);
    if from == to {
        return Err(RangeError::InvalidNumber);
    }
    let mut acc: u64 = 0;
    let mut i: usize = from;
    while i < to
        invariant
            from <= i <= to <= bytes@.len(),
            s == bytes@.subrange(from as int, to as int),
            all_digits(bytes@.subrange(from as int, i as int)),
            acc as nat == dec_val(bytes@.subrange(from as int, i as int)),
        decreases to - i,
    {
        let b = bytes[i];
        let ghost pre = bytes@.subrange(from as int, i as int);
        let ghost cur = bytes@.subrange(from as int, i + 1);
        proof {
            assert(cur.drop_last() =~= pre);
            assert(cur.last() == bytes@[i as int]);
        }
        if !(48 <= b && b <= 57) {
            proof {
                assert(s[i - from] == bytes@[i as int]);
                assert(!all_digits(s));
            }
            return Err(RangeError::InvalidNumber);
        }
        let d = b - 48;
        proof {
            lemma_fundamental_div_mod((u64::MAX - d) as int, 10);
            lemma_mod_bound((u64::MAX - d) as int, 10);
        }
        if acc > (u64::MAX - d as u64) / 10 {
            proof {
                assert(dec_val(cur) > u64::MAX);
                assert(cur =~= s.subrange(0, i + 1 - from));
                // A numeral already too large stays too large, so the whole
                // part is rejected whether or not its tail is numeric.
                if all_digits(s) {
                    lemma_dec_val_prefix_le(s, i + 1 - from);
                    assert(dec_val(s) > u64::MAX);
                }
            }
            return Err(RangeError::InvalidNumber);
        }
        acc = acc * 10 + d as u64;
        i += 1;
    }
    proof {
        assert(bytes@.subrange(from as int, i as int) =~= s);
    }
    Ok(acc)
}

/// Parse a wave-dump range option. The empty string asks for no bound:
/// `(0, 0)`. A single number is the start of the range. `start,end` gives
/// both bounds; an empty `start` means zero. A string of three or more parts
/// is ignored as `(0, 0)`; a part that is not a number, or a start beyond
/// its end, is rejected.
pub fn parse_range(input: &str) -> (r: Result<(u64, u64), RangeError>)
    ensures
        input.spec_bytes().len() == 0 ==> r == Ok::<(u64, u64), RangeError>((0, 0)),
        comma_count(input.spec_bytes()) >= 2 ==> r == Ok::<(u64, u64), RangeError>((0, 0)),
        input.spec_bytes().len() > 0 && comma_count(input.spec_bytes()) == 0 ==> r == (match
            spec_parse_u64(input.spec_bytes()) {
            Ok(v) => Ok::<(u64, u64), RangeError>((v, 0)),
            Err(e) => Err::<(u64, u64), RangeError>(e),
        }),
        comma_count(input.spec_bytes()) == 1 ==> (forall|c: int|
            0 <= c < input.spec_bytes().len() && input.spec_bytes()[c] == 44 ==> r
                == spec_range_of_parts(
                input.spec_bytes().subrange(0, c),
                input.spec_bytes().subrange(c + 1, input.spec_bytes().len() as int),
            )),
{
    let bytes = input.as_bytes();
    let n = bytes.len();
    let ghost s = bytes@;

    let mut count: usize = 0;
    let mut first: usize = 0;
    let mut found = false;
    let mut i: usize = 0;
    while i < n
        invariant
            i <= n,
            n == s.len(),
            s == bytes@,
            count <= i,
            count as nat == comma_count(s.subrange(0, i as int)),
            found ==> first < i && s[first as int] == 44 && (forall|k: int|
                0 <= k < first ==> s[k] != 44),
            !found ==> (forall|k: int| 0 <= k < i ==> s[k] != 44),
            found == (count > 0),
        decreases n - i,
    {
        let ghost pre = s.subrange(0, i as int);
        let ghost cur = s.subrange(0, i + 1);
        proof {
            assert(cur.drop_last() =~= pre);
            assert(cur.last() == s[i as int]);
        }
        if bytes[i] == 44 {
            if !found {
                first = i;
                found = true;
            }
            count += 1;
        }
        i += 1;
    }
    proof {
        assert(s.subrange(0, n as int) =~= s);
    }

    if n == 0 {
        return Ok((0, 0));
    }
    if count >= 2 {
        return Ok((0, 0));
    }
    if count == 0 {
        proof {
            assert(bytes@.subrange(0, n as int) =~= s);
        }
        return match parse_u64_slice(bytes, 0, n) {
            Ok(v) => Ok((v, 0)),
            Err(e) => Err(e),
        };
    }
    // Exactly one comma, at index `first`: the contract's quantifier can only
    // be met at that index, since every other position is not a comma.
    proof {
        assert forall|c: int| 0 <= c < s.len() && s[c] == 44 implies c == first by {
            if c > first {
                lemma_comma_count_two(s, first as int, c);
            }
        }
    }
    let a_start: usize = 0;
    let a_end: usize = first;
    let b_start: usize = first + 1;
    let b_end: usize = n;
    if a_end == 0 {
        match parse_u64_slice(bytes, b_start, b_end) {
            Ok(end) => Ok((0, end)),
            Err(e) => Err(e),
        }
    } else {
        let start = match parse_u64_slice(bytes, a_start, a_end) {
            Ok(v) => v,
            Err(e) => {
                return Err(e);
            },
        };
        let end = match parse_u64_slice(bytes, b_start, b_end) {
            Ok(v) => v,
            Err(e) => {
                return Err(e);
            },
        };
        if start > end {
            Err(RangeError::StartAfterEnd)
        } else {
            Ok((start, end))
        }
    }
}

/// A sequence containing a comma has a positive comma count.
proof fn lemma_comma_count_one(s: Seq<u8>, c: int)
    requires
        0 <= c < s.len(),
        s[c] == 44,
    ensures
        comma_count(s) >= 1,
    decreases s.len(),
{
    if c < s.len() - 1 {
        lemma_comma_count_one(s.drop_last(), c);
    }
}

/// A sequence containing two distinct commas has a comma count of at least
/// two.
proof fn lemma_comma_count_two(s: Seq<u8>, c1: int, c2: int)
    requires
        0 <= c1 < c2 < s.len(),
        s[c1] == 44,
        s[c2] == 44,
    ensures
        comma_count(s) >= 2,
    decreases s.len(),
{
    if c2 < s.len() - 1 {
        lemma_comma_count_two(s.drop_last(), c1, c2);
    } else {
        lemma_comma_count_one(s.drop_last(), c1);
    }
}

} // verus!
