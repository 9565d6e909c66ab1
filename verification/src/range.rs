//! The `Range` header: its grammar, the byte window that a range selects in
//! a file of a given size, and the `Content-Range` value that names such a
//! window.
//!
//! A parsed range keeps the numbers of the header as they were written. A
//! resolved window is half-open: it starts at its first byte and ends just
//! behind its last one.
use vstd::prelude::*;
use crate::text::{
    decimal, decimal_value, find, index_of, is_number, parse_number, push_chars, push_decimal,
    split, split_window, starts_with, strip_prefix, to_chars, trim, trim_window, windows,
};

verus! {

/// One range of a `Range` header, as written: `(Some(start), None)` reads
/// from `start` to the end of the file, `(None, Some(n))` reads the last `n`
/// bytes, and `(Some(first), Some(last))` reads from byte `first` up to and
/// including byte `last`.
pub type ByteRange = (Option<usize>, Option<usize>);

/// What a unit of the form `<digits>-<digits>` denotes: both runs must be
/// numbers, and the first may not exceed the second.
pub open spec fn window_range(u: Seq<char>) -> Option<ByteRange> {
    let i = index_of(u, '-');
    let first = u.take(i as int);
    let last = u.skip(i + 1 as int);
    if i < u.len() && is_number(first) && is_number(last) && decimal_value(first)
        <= decimal_value(last) {
        Some((Some(decimal_value(first) as usize), Some(decimal_value(last) as usize)))
    } else {
        None
    }
}

/// What one unit of a `Range` header denotes, or `None` where the unit is
/// none of `<digits>-`, `-<digits>` and `<digits>-<digits>`.
pub open spec fn unit_range(u: Seq<char>) -> Option<ByteRange> {
    let i = index_of(u, '-');
    let first = u.take(i as int);
    let last = u.skip(i + 1 as int);
    if i >= u.len() {
        None
    } else if first.len() == 0 {
        if is_number(last) {
            Some((None, Some(decimal_value(last) as usize)))
        } else {
            None
        }
    } else if last.len() == 0 {
        if is_number(first) {
            Some((Some(decimal_value(first) as usize), None))
        } else {
            None
        }
    } else {
        window_range(u)
    }
}

/// The ranges that a list of units denotes, each unit taken without the
/// white space around it, or `None` where any unit denotes none.
pub open spec fn unit_ranges(units: Seq<Seq<char>>) -> Option<Seq<ByteRange>> {
    if forall|i: int| 0 <= i < units.len() ==> unit_range(trim(#[trigger] units[i])) is Some {
        Some(Seq::new(units.len(), |i: int| unit_range(trim(units[i])).unwrap()))
    } else {
        None
    }
}

/// The ranges that the value of a `Range` header denotes. The value, taken
/// without the white space around it, must begin with `bytes=`; what follows
/// is a list of units separated by commas, and one malformed unit
/// invalidates the whole header.
pub open spec fn ranges_of(header: Seq<char>) -> Option<Seq<ByteRange>> {
    let value = trim(header);
    if starts_with(value, "bytes="@) {
        unit_ranges(split(value.skip("bytes="@.len() as int), ','))
    } else {
        None
    }
}

/// The half-open window `[start, end)` that `range` selects in a file of
/// `size` bytes, or `None` where the range does not fit the file.
///
/// A range from `start` selects `[start, size)`. A range of the last `n`
/// bytes selects `[size - n, size)`, and the whole file where `n` exceeds
/// its size. A range from `first` to `last` names its last byte, so it
/// selects `[first, last + 1)`. The window fits where its start does not lie
/// behind its end, nor its end behind the end of the file.
pub open spec fn resolve_bounds(range: ByteRange, size: usize) -> Option<(usize, usize)> {
    match range {
        (Some(start), None) => if start <= size {
            Some((start, size))
        } else {
            None
        },
        (None, Some(n)) => if n >= size {
            Some((0usize, size))
        } else {
            Some(((size - n) as usize, size))
        },
        (Some(first), Some(last)) => if first <= last + 1 && last + 1 <= size {
            Some((first, (last + 1) as usize))
        } else {
            None
        },
        (None, None) => None,
    }
}

/// The value of a `Content-Range` header for the bytes from position `start`
/// up to and including position `end` of a file of `size` bytes.
pub open spec fn content_range(start: usize, end: usize, size: usize) -> Seq<char> {
    "bytes "@ + decimal(start as nat) + "-"@ + decimal(end as nat) + "/"@ + decimal(size as nat)
}

fn parse_window(v: &Vec<char>, lo: usize, dash: usize, hi: usize) -> (r: Option<ByteRange>)
    requires
        lo <= dash < hi <= v.len(),
        dash - lo == index_of(v@.subrange(lo as int, hi as int), '-'),
    ensures
        r == window_range(v@.subrange(lo as int, hi as int)),
{
    proof {
        let u = v@.subrange(lo as int, hi as int);
        assert(u.take(dash - lo) =~= v@.subrange(lo as int, dash as int));
        assert(u.skip(dash - lo + 1) =~= v@.subrange(dash + 1, hi as int));
    }
    let first = match parse_number(v, lo, dash) {
        Some(n) => n,
        None => return None,
    };
    let last = match parse_number(v, dash + 1, hi) {
        Some(n) => n,
        None => return None,
    };
    if first > last {
        return None;
    }
    Some((Some(first), Some(last)))
}

fn parse_unit(v: &Vec<char>, lo: usize, hi: usize) -> (r: Option<ByteRange>)
    requires
        lo <= hi <= v.len(),
    ensures
        r == unit_range(v@.subrange(lo as int, hi as int)),
{
    let dash = find(v, lo, hi, '-');
    if dash == hi {
        return None;
    }
    proof {
        let u = v@.subrange(lo as int, hi as int);
        assert(u.take(dash - lo) =~= v@.subrange(lo as int, dash as int));
        assert(u.skip(dash - lo + 1) =~= v@.subrange(dash + 1, hi as int));
    }
    if dash == lo {
        match parse_number(v, dash + 1, hi) {
            Some(n) => Some((None, Some(n))),
            None => None,
        }
    } else if dash + 1 == hi {
        match parse_number(v, lo, dash) {
            Some(n) => Some((Some(n), None)),
            None => None,
        }
    } else {
        parse_window(v, lo, dash, hi)
    }
}

/// Reads one unit of the form `<digits>-<digits>`. Returns the window it
/// names, or `None` where `range_chunk` is not of that form or its first
/// number exceeds its second.
pub fn get_window_range(range_chunk: &str) -> (r: Option<ByteRange>)
    ensures
        r == window_range(range_chunk@),
{
    let v = to_chars(range_chunk);
    assert(v@.subrange(0, v.len() as int) =~= v@);
    let dash = find(&v, 0, v.len(), '-');
    if dash == v.len() {
        return None;
    }
    parse_window(&v, 0, dash, v.len())
}

/// Reads the value of a `Range` header. Returns the ranges in the order in
/// which the header lists them, or `None` where the header is malformed.
pub fn get_ranges(range_str: &str) -> (r: Option<Vec<ByteRange>>)
    ensures
        match ranges_of(range_str@) {
            Some(ranges) => r matches Some(v) && v@ == ranges,
            None => r is None,
        },
{
    let v = to_chars(range_str);
    assert(v@.subrange(0, v.len() as int) =~= v@);
    let (lo, hi) = trim_window(&v, 0, v.len());
    let start = match strip_prefix(&v, lo, hi, "bytes=") {
        Some(at) => at,
        None => return None,
    };
    let ghost value = v@.subrange(lo as int, hi as int);
    let ghost units = split(value.skip("bytes="@.len() as int), ',');
    assert(value.skip("bytes="@.len() as int) =~= v@.subrange(start as int, hi as int));
    let pieces = split_window(&v, start, hi, ',');
    let mut ranges: Vec<ByteRange> = Vec::new();
    let mut i: usize = 0;
    while i < pieces.len()
        invariant
            i <= pieces.len(),
            windows(v@, pieces@) == units,
            ranges_of(range_str@) == unit_ranges(units),
            forall|k: int| 0 <= k < pieces.len() ==> (#[trigger] pieces[k]).0 <= pieces[k].1 <= v.len(),
            ranges.len() == i,
            forall|k: int| 0 <= k < i ==> unit_range(trim(#[trigger] units[k])) == Some(ranges[k]),
        decreases pieces.len() - i,
    {
        let (a, b) = pieces[i];
        assert(units[i as int] == v@.subrange(a as int, b as int));
        let (ta, tb) = trim_window(&v, a, b);
        match parse_unit(&v, ta, tb) {
            Some(range) => {
                ranges.push(range);
            },
            None => {
                assert(unit_range(trim(units[i as int])) is None);
                return None;
            },
        }
        i += 1;
    }
    assert(units.len() == pieces.len());
    assert(ranges@ =~= unit_ranges(units).unwrap());
    Some(ranges)
}

/// Resolves `range` against a file of `size` bytes. Returns the half-open
/// window that it selects, or `None` where the range does not fit the file.
pub fn get_window(range: &ByteRange, size: usize) -> (r: Option<(usize, usize)>)
    ensures
        r == resolve_bounds(*range, size),
        r matches Some((start, end)) ==> start <= end <= size,
{
    match *range {
        (Some(start), None) => if start <= size {
            Some((start, size))
        } else {
            None
        },
        (None, Some(n)) => if n >= size {
            Some((0, size))
        } else {
            Some((size - n, size))
        },
        (Some(first), Some(last)) => if last < size && first <= last + 1 {
            Some((first, last + 1))
        } else {
            None
        },
        (None, None) => None,
    }
}

/// Resolves the first of `ranges` against a file of `size` bytes. Returns
/// the half-open window that it selects, or `None` where there is no range
/// or the range does not fit the file.
pub fn get_start_end(ranges: &Vec<ByteRange>, size: usize) -> (r: Option<(usize, usize)>)
    ensures
        r == if ranges.len() == 0 {
            None
        } else {
            resolve_bounds(ranges[0], size)
        },
        r matches Some((start, end)) ==> start <= end <= size,
{
    if ranges.len() == 0 {
        return None;
    }
    get_window(&ranges[0], size)
}

/// The value of a `Content-Range` header for the bytes from position `start`
/// up to and including position `end` of a file of `size` bytes.
pub fn build_content_range_header_str(start: &usize, end: &usize, size: &usize) -> (s: String)
    ensures
        s@ == content_range(*start, *end, *size),
{
    let mut s = String::new();
    let bytes = to_chars("bytes ");
    push_chars(&mut s, &bytes, 0, bytes.len());
    assert(bytes@.subrange(0, bytes.len() as int) =~= "bytes "@);
    push_decimal(&mut s, *start);
    s.push('-');
    push_decimal(&mut s, *end);
    s.push('/');
    push_decimal(&mut s, *size);
    proof {
        reveal_strlit("-");
        reveal_strlit("/");
        assert("-"@ =~= seq!['-']);
        assert("/"@ =~= seq!['/']);
        assert(s@ =~= content_range(*start, *end, *size));
    }
    s
}

} // verus!
