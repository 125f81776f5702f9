//! Scanning one chart file's text for its declared catalog identifier.
//!
//! A chart file declares its identifier on a line that begins with the
//! marker `BeatmapID:`; what follows the marker's colon is read as an
//! unsigned decimal integer (an optional leading `+`, then digits). Only the
//! first line that begins with the marker counts; later lines are never
//! inspected. A value that does not parse contributes nothing, the value `0`
//! is the sentinel for "declared locally as not yet in the catalog", and any
//! positive value is a candidate for remote verification.
//!
//! Lines are separated by the byte `0x0A`; a trailing `0x0D` on a line is
//! ignored, so both LF and CRLF files are read alike.

use vstd::prelude::*;

verus! {

/// What scanning one chart file's contents yields.
#[derive(Clone, Copy, Debug, PartialEq, Eq, Structural)]
pub enum ChartScan {
    /// No line declares a usable identifier.
    NoIdentifier,
    /// The first marker line declares identifier `0`: the folder is known
    /// unsubmitted without asking the catalog.
    Sentinel,
    /// The first marker line declares this positive identifier.
    Candidate(u64),
}

/// The marker that opens an identifier line: the bytes of `BeatmapID:`.
pub open spec fn spec_marker() -> Seq<u8> {
    seq![66u8, 101u8, 97u8, 116u8, 109u8, 97u8, 112u8, 73u8, 68u8, 58u8]
}

/// An ASCII decimal digit.
pub open spec fn is_digit(b: u8) -> bool {
    48 <= b <= 57
}

/// The value of one digit byte (zero for a byte that is no digit).
pub open spec fn digit_val(b: u8) -> nat {
    if is_digit(b) {
        (b - 48) as nat
    } else {
        0
    }
}

pub open spec fn all_digits(s: Seq<u8>) -> bool {
    forall|i: int| 0 <= i < s.len() ==> is_digit(#[trigger] s[i])
}

/// The unbounded value of a string of decimal digits, most significant
/// first.
pub open spec fn digits_val(s: Seq<u8>) -> nat
    decreases s.len(),
{
    if s.len() == 0 {
        0
    } else {
        digits_val(s.drop_last()) * 10 + digit_val(s.last())
    }
}

/// How the bytes after the marker parse as a `u64`: an optional leading
/// `+`, then one or more digits, whose value must fit. Anything else —
/// empty, a stray character, a value past `u64::MAX` — parses to nothing.
pub open spec fn spec_parse_u64(s: Seq<u8>) -> Option<u64> {
    let d = if s.len() > 0 && s[0] == 43 {
        s.skip(1)
    } else {
        s
    };
    if d.len() > 0 && all_digits(d) && digits_val(d) <= u64::MAX {
        Some(digits_val(d) as u64)
    } else {
        None
    }
}

/// Index of the first line break in `s`, or `s.len()` if there is none.
pub open spec fn spec_line_end(s: Seq<u8>) -> int
    decreases s.len(),
{
    if s.len() == 0 {
        0
    } else if s[0] == 10 {
        0
    } else {
        1 + spec_line_end(s.skip(1))
    }
}

/// A line with its trailing carriage return, if any, removed.
pub open spec fn strip_cr(line: Seq<u8>) -> Seq<u8> {
    if line.len() > 0 && line.last() == 13 {
        line.drop_last()
    } else {
        line
    }
}

pub open spec fn starts_with_marker(line: Seq<u8>) -> bool {
    line.len() >= 10 && line.subrange(0, 10) == spec_marker()
}

/// The outcome a marker line contributes: parse what follows the marker.
pub open spec fn spec_line_outcome(line: Seq<u8>) -> ChartScan {
    match spec_parse_u64(line.subrange(10, line.len() as int)) {
        None => ChartScan::NoIdentifier,
        Some(v) => if v == 0 {
            ChartScan::Sentinel
        } else {
            ChartScan::Candidate(v)
        },
    }
}

/// The outcome of scanning a whole file: the first line that begins with
/// the marker decides; lines after it are never inspected; a file without
/// a marker line contributes nothing.
pub open spec fn spec_scan(s: Seq<u8>) -> ChartScan
    decreases s.len(),
    via spec_scan_dec
{
    if s.len() == 0 {
        ChartScan::NoIdentifier
    } else {
        let e = spec_line_end(s);
        let line = strip_cr(s.subrange(0, e));
        if starts_with_marker(line) {
            spec_line_outcome(line)
        } else if e == s.len() {
            ChartScan::NoIdentifier
        } else {
            spec_scan(s.subrange(e + 1, s.len() as int))
        }
    }
}

#[via_fn]
proof fn spec_scan_dec(s: Seq<u8>) {
    lemma_line_end_bounds(s);
}

pub proof fn lemma_line_end_bounds(s: Seq<u8>)
    ensures
        0 <= spec_line_end(s) <= s.len(),
    decreases s.len(),
{
    if s.len() == 0 {
    } else if s[0] == 10 {
    } else {
        lemma_line_end_bounds(s.skip(1));
    }
}

/// `spec_line_end` is pinned down by its characterisation: no line break
/// before it, and a line break at it unless the whole string is one line.
proof fn lemma_line_end_char(s: Seq<u8>, e: int)
    requires
        0 <= e <= s.len(),
        forall|j: int| 0 <= j < e ==> s[j] != 10,
        e < s.len() ==> s[e] == 10,
    ensures
        spec_line_end(s) == e,
    decreases s.len(),
{
    if s.len() == 0 {
    } else if s[0] == 10 {
        assert(e == 0);
    } else {
        assert(e >= 1) by {
            assert(e < s.len() ==> s[e] == 10);
        }
        let t = s.skip(1);
        assert forall|j: int| 0 <= j < e - 1 implies t[j] != 10 by {
            assert(t[j] == s[j + 1]);
        }
        assert(e - 1 < t.len() ==> t[e - 1] == 10) by {
            if e - 1 < t.len() {
                assert(t[e - 1] == s[e]);
            }
        }
        lemma_line_end_char(t, e - 1);
    }
}

/// Appending to the digit string multiplies the value by ten and adds the
/// new digit.
proof fn lemma_digits_val_take_succ(s: Seq<u8>, i: int)
    requires
        0 <= i < s.len(),
    ensures
        digits_val(s.take(i + 1)) == digits_val(s.take(i)) * 10 + digit_val(s[i]),
{
    assert(s.take(i + 1).drop_last() =~= s.take(i));
    assert(s.take(i + 1).last() == s[i]);
}

/// A digit string's value never shrinks as digits are appended.
proof fn lemma_digits_val_take_le(s: Seq<u8>, i: int)
    requires
        0 <= i <= s.len(),
    ensures
        digits_val(s.take(i)) <= digits_val(s),
    decreases s.len() - i,
{
    if i == s.len() {
        assert(s.take(i) =~= s);
    } else {
        lemma_digits_val_take_succ(s, i);
        lemma_digits_val_take_le(s, i + 1);
    }
}

/// Parses `v[lo..hi]` as an unsigned decimal integer, exactly as
/// [`spec_parse_u64`] reads it.
#[verifier::loop_isolation(false)]
fn parse_u64_digits(v: &Vec<u8>, lo: usize, hi: usize) -> (r: Option<u64>)
    requires
        lo <= hi <= v.len(),
    ensures
        r == spec_parse_u64(v@.subrange(lo as int, hi as int)),
{
    let ghost s = v@.subrange(lo as int, hi as int);
    let start = if lo < hi && v[lo] == 43 {
        lo + 1
    } else {
        lo
    };
    let ghost d = if s.len() > 0 && s[0] == 43 {
        s.skip(1)
    } else {
        s
    };
    proof {
        assert(d =~= v@.subrange(start as int, hi as int));
    }
    if start == hi {
        return None;
    }
    let mut acc: u64 = 0;
    let mut i = start;
    while i < hi
        invariant
            start <= i <= hi <= v.len(),
            d == v@.subrange(start as int, hi as int),
            all_digits(d.take(i - start)),
            acc == digits_val(d.take(i - start)),
        decreases hi - i,
    {
        let b = v[i];
        assert(d[i - start] == b);
        if !(48 <= b && b <= 57) {
            assert(!is_digit(d[i - start]));
            return None;
        }
        let dv: u64 = (b - 48) as u64;
        if acc > (u64::MAX - dv) / 10 {
            proof {
                lemma_digits_val_take_succ(d, i - start);
                assert(acc * 10 + dv > u64::MAX) by (nonlinear_arith)
                    requires
                        acc > (u64::MAX - dv) / 10,
                        dv <= 9,
                ;
                assert(d.take(i - start + 1) =~= d.take(i - start).push(d[i - start]));
                if all_digits(d) && digits_val(d) <= u64::MAX {
                    lemma_digits_val_take_le(d, i - start + 1);
                    assert(false);
                }
            }
            return None;
        }
        proof {
            lemma_digits_val_take_succ(d, i - start);
            assert(acc * 10 + dv <= u64::MAX) by (nonlinear_arith)
                requires
                    acc <= (u64::MAX - dv) / 10,
                    dv <= 9,
            ;
        }
        acc = acc * 10 + dv;
        i = i + 1;
    }
    proof {
        assert(d.take(i - start) =~= d);
    }
    Some(acc)
}

/// Whether `v[lo..hi]` begins with the marker bytes of `BeatmapID:`.
fn marker_at(v: &Vec<u8>, lo: usize, hi: usize) -> (b: bool)
    requires
        lo <= hi <= v.len(),
    ensures
        b == starts_with_marker(v@.subrange(lo as int, hi as int)),
{
    let ghost line = v@.subrange(lo as int, hi as int);
    if hi - lo < 10 {
        return false;
    }
    let b = v[lo] == 66 && v[lo + 1] == 101 && v[lo + 2] == 97 && v[lo + 3] == 116 && v[lo + 4]
        == 109 && v[lo + 5] == 97 && v[lo + 6] == 112 && v[lo + 7] == 73 && v[lo + 8] == 68 && v[lo
        + 9] == 58;
    proof {
        assert(forall|j: int| 0 <= j < 10 ==> line.subrange(0, 10)[j] == v@[lo + j]);
        if b {
            assert(line.subrange(0, 10) =~= spec_marker());
        } else {
            if starts_with_marker(line) {
                assert(forall|j: int|
                    0 <= j < 10 ==> line.subrange(0, 10)[j] == spec_marker()[j]);
                assert(false);
            }
        }
    }
    b
}

/// Index of the first line break at or after `start`, or the length if
/// there is none.
fn find_line_end(v: &Vec<u8>, start: usize) -> (e: usize)
    requires
        start <= v.len(),
    ensures
        start <= e <= v.len(),
        e - start == spec_line_end(v@.skip(start as int)),
        forall|j: int| start <= j < e ==> v@[j] != 10,
        e < v.len() ==> v@[e as int] == 10,
{
    let n = v.len();
    let mut e = start;
    while e < n && v[e] != 10
        invariant
            start <= e <= n == v.len(),
            forall|j: int| start <= j < e ==> v@[j] != 10,
        decreases n - e,
    {
        e = e + 1;
    }
    proof {
        let t = v@.skip(start as int);
        assert forall|j: int| 0 <= j < e - start implies t[j] != 10 by {
            assert(t[j] == v@[start + j]);
        }
        assert(e - start < t.len() ==> t[e - start] == 10) by {
            if e - start < t.len() {
                assert(t[e - start] == v@[e as int]);
            }
        }
        lemma_line_end_char(t, e - start);
    }
    e
}

/// Scans a chart file's contents for its declared identifier, exactly as
/// [`spec_scan`] reads them: the first line beginning with `BeatmapID:`
/// decides, and lines after it are never inspected.
#[verifier::loop_isolation(false)]
pub fn scan_chart(contents: &Vec<u8>) -> (r: ChartScan)
    ensures
        r == spec_scan(contents@),
{
    let n = contents.len();
    let mut pos: usize = 0;
    proof {
        assert(contents@.skip(0) =~= contents@);
    }
    loop
        invariant
            pos <= n == contents@.len(),
            spec_scan(contents@) == spec_scan(contents@.skip(pos as int)),
        decreases n - pos,
    {
        let ghost s = contents@.skip(pos as int);
        if pos == n {
            assert(s =~= Seq::<u8>::empty());
            return ChartScan::NoIdentifier;
        }
        let e = find_line_end(contents, pos);
        proof {
            lemma_line_end_bounds(s);
        }
        let le = if e > pos && contents[e - 1] == 13 {
            e - 1
        } else {
            e
        };
        let ghost line_raw = s.subrange(0, e - pos);
        let ghost line = strip_cr(line_raw);
        proof {
            assert(line_raw =~= contents@.subrange(pos as int, e as int));
            if line_raw.len() > 0 && line_raw.last() == 13 {
                assert(line_raw.last() == contents@[e - 1]);
                assert(line =~= contents@.subrange(pos as int, le as int));
            } else {
                assert(line =~= contents@.subrange(pos as int, le as int));
            }
        }
        if marker_at(contents, pos, le) {
            let r = parse_u64_digits(contents, pos + 10, le);
            proof {
                assert(starts_with_marker(line));
                assert(line.subrange(10, line.len() as int) =~= contents@.subrange(
                    pos + 10,
                    le as int,
                ));
                assert(spec_scan(s) == spec_line_outcome(line));
            }
            match r {
                None => {
                    return ChartScan::NoIdentifier;
                },
                Some(id) => {
                    if id == 0 {
                        return ChartScan::Sentinel;
                    } else {
                        return ChartScan::Candidate(id);
                    }
                },
            }
        } else if e == n {
            assert(spec_scan(s) == ChartScan::NoIdentifier);
            return ChartScan::NoIdentifier;
        } else {
            proof {
                assert(spec_scan(s) == spec_scan(s.subrange(e - pos + 1, s.len() as int)));
                assert(s.subrange(e - pos + 1, s.len() as int) =~= contents@.skip(e + 1));
            }
            pos = e + 1;
        }
    }
}

} // verus!
