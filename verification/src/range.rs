//! HTTP `Range` header handling for ranged video streaming.
//!
//! A request is served partially only for a well-formed `bytes=<start>-<end>`
//! header whose range lies inside the file; anything else (including
//! `start > end` and `end >= size`) falls through to a full 200 response.

use vstd::prelude::*;
use vstd::string::StringExecFns;
use vstd::string::StringSliceAdditionalSpecFns;
use crate::bytes::{all_digits, dec_val, parse_u64};
use crate::text::{dec_chars_of, u64_to_string};

verus! {

/// The bytes of the literal `bytes=`.
pub open spec fn range_unit_prefix() -> Seq<u8> {
    seq![98u8, 121u8, 116u8, 101u8, 115u8, 61u8]
}

/// Index of the first occurrence of `b` in `s` at or after `i`, or -1.
pub open spec fn find_byte_from(s: Seq<u8>, i: int, b: u8) -> int
    decreases s.len() - i,
{
    if i < 0 || i >= s.len() {
        -1
    } else if s[i] == b {
        i
    } else {
        find_byte_from(s, i + 1, b)
    }
}

/// What a digit-string field of the header denotes, if anything.
pub open spec fn spec_parse_part(part: Seq<u8>, empty_value: Option<u64>) -> Option<u64> {
    if part.len() == 0 {
        empty_value
    } else if all_digits(part) && dec_val(part) <= u64::MAX {
        Some(dec_val(part) as u64)
    } else {
        None
    }
}

/// The byte range denoted by a `Range` header value against a file of
/// `size` bytes: `Some((start, end))` exactly when the header is
/// `bytes=<start>-<end>` (either side may be empty: an empty start means 0,
/// an empty end means `size - 1`) and `start <= end < size`.
pub open spec fn spec_parse_range(s: Seq<u8>, size: u64) -> Option<(u64, u64)> {
    if !(range_unit_prefix().len() <= s.len() && s.subrange(0, 6) == range_unit_prefix()) {
        None
    } else {
        let rest = s.subrange(6, s.len() as int);
        let d = find_byte_from(rest, 0, 45);
        if d < 0 {
            None
        } else {
            let sv = spec_parse_part(rest.subrange(0, d), Some(0));
            let ev = spec_parse_part(
                rest.subrange(d + 1, rest.len() as int),
                if size > 0 {
                    Some((size - 1) as u64)
                } else {
                    None
                },
            );
            match (sv, ev) {
                (Some(start), Some(end)) => if start <= end && end < size {
                    Some((start, end))
                } else {
                    None
                },
                _ => None,
            }
        }
    }
}

/// Find the first `-` in `s` starting at `from`.
fn find_dash(s: &[u8], from: usize) -> (r: Option<usize>)
    requires
        from <= s@.len(),
    ensures
        match r {
            Some(i) => from <= i < s@.len() && find_byte_from(s@, from as int, 45) == i,
            None => find_byte_from(s@, from as int, 45) == -1,
        },
    decreases s@.len() - from,
{
    if from == s.len() {
        None
    } else if s[from] == 45 {
        Some(from)
    } else {
        find_dash(s, from + 1)
    }
}

/// Parse a `Range` header value (e.g. `bytes=0-1023`, `bytes=1024-`) against
/// the file size.  Returns the inclusive byte range exactly when the header
/// is well formed and satisfiable.
pub fn parse_range(range_str: &str, file_size: u64) -> (r: Option<(u64, u64)>)
    ensures
        r == spec_parse_range(range_str.spec_bytes(), file_size),
        r matches Some((start, end)) ==> start <= end && end < file_size,
{
    let s = range_str.as_bytes();
    let ghost sv = s@;
    if s.len() < 6 {
        assert(spec_parse_range(sv, file_size) is None);
        return None;
    }
    if !(s[0] == 98 && s[1] == 121 && s[2] == 116 && s[3] == 101 && s[4] == 115 && s[5]
        == 61) {
        assert(sv.subrange(0, 6) != range_unit_prefix());
        return None;
    }
    assert(sv.subrange(0, 6) =~= range_unit_prefix());
    let ghost rest = sv.subrange(6, sv.len() as int);
    let d = match find_dash(s, 6) {
        Some(d) => d,
        None => {
            proof {
                lemma_find_byte_shift(sv, 6, 45);
            }
            return None;
        },
    };
    proof {
        lemma_find_byte_shift(sv, 6, 45);
    }
    assert(find_byte_from(rest, 0, 45) == d - 6);
    // start field: s[6 .. d]
    let start: u64 = if d == 6 {
        assert(rest.subrange(0, d - 6) =~= Seq::<u8>::empty());
        0
    } else {
        let part = vstd::slice::slice_subrange(s, 6, d);
        assert(part@ =~= rest.subrange(0, d - 6));
        match parse_u64(part) {
            Some(v) => v,
            None => {
                return None;
            },
        }
    };
    // end field: s[d + 1 ..]
    let end: u64 = if d + 1 == s.len() {
        assert(rest.subrange(d - 6 + 1, rest.len() as int) =~= Seq::<u8>::empty());
        if file_size > 0 {
            file_size - 1
        } else {
            return None;
        }
    } else {
        let part = vstd::slice::slice_subrange(s, d + 1, s.len());
        assert(part@ =~= rest.subrange(d - 6 + 1, rest.len() as int));
        match parse_u64(part) {
            Some(v) => v,
            None => {
                return None;
            },
        }
    };
    if start <= end && end < file_size {
        Some((start, end))
    } else {
        None
    }
}

proof fn lemma_find_byte_shift(s: Seq<u8>, at: int, b: u8)
    requires
        0 <= at <= s.len(),
    ensures
        forall|j: int|
            at <= j ==> (find_byte_from(s, j, b) == if find_byte_from(
                s.subrange(at, s.len() as int),
                j - at,
                b,
            ) >= 0 {
                find_byte_from(s.subrange(at, s.len() as int), j - at, b) + at
            } else {
                -1int
            }),
{
    let sub = s.subrange(at, s.len() as int);
    assert forall|j: int| at <= j implies (find_byte_from(s, j, b) == if find_byte_from(
        sub,
        j - at,
        b,
    ) >= 0 {
        find_byte_from(sub, j - at, b) + at
    } else {
        -1int
    }) by {
        lemma_find_byte_shift_one(s, at, j, b);
    }
}

proof fn lemma_find_byte_shift_one(s: Seq<u8>, at: int, j: int, b: u8)
    requires
        0 <= at <= s.len(),
        at <= j,
    ensures
        find_byte_from(s, j, b) == (if find_byte_from(
            s.subrange(at, s.len() as int),
            j - at,
            b,
        ) >= 0 {
            find_byte_from(s.subrange(at, s.len() as int), j - at, b) + at
        } else {
            -1int
        }),
    decreases s.len() - j,
{
    if j < s.len() {
        if s[j] != b {
            lemma_find_byte_shift_one(s, at, j + 1, b);
        }
    }
}

/// How a request for a file of `size` bytes is answered: a 206 with the
/// given inclusive range, or a 200 with the whole file.
#[derive(Clone, Copy, Debug, PartialEq, Eq, Structural)]
pub enum ServePlan {
    Partial { start: u64, end: u64, len: u64 },
    Full { size: u64 },
}

/// Decide between a 206 partial response and a 200 full response.  Partial
/// service happens exactly for a parsable, satisfiable range; its length is
/// `end - start + 1` bytes.
pub fn plan_serve(range_header: Option<&str>, file_size: u64) -> (r: ServePlan)
    ensures
        match range_header {
            None => r == (ServePlan::Full { size: file_size }),
            Some(h) => match spec_parse_range(h.spec_bytes(), file_size) {
                Some((start, end)) => r == (ServePlan::Partial {
                    start,
                    end,
                    len: (end - start + 1) as u64,
                }) && 1 <= end - start + 1 <= file_size,
                None => r == (ServePlan::Full { size: file_size }),
            },
        },
{
    match range_header {
        None => ServePlan::Full { size: file_size },
        Some(h) => match parse_range(h, file_size) {
            Some((start, end)) => ServePlan::Partial { start, end, len: end - start + 1 },
            None => ServePlan::Full { size: file_size },
        },
    }
}

/// The characters of a `Content-Range` header value,
/// `bytes <start>-<end>/<size>`.
pub open spec fn spec_content_range(start: u64, end: u64, size: u64) -> Seq<char> {
    "bytes "@ + dec_chars_of(start as nat) + "-"@ + dec_chars_of(end as nat) + "/"@
        + dec_chars_of(size as nat)
}

/// Render the `Content-Range` value for a 206 response.
pub fn content_range_value(start: u64, end: u64, size: u64) -> (r: String)
    ensures
        r@ == spec_content_range(start, end, size),
{
    let mut r = String::from_str("bytes ");
    r.append(u64_to_string(start).as_str());
    r.append("-");
    r.append(u64_to_string(end).as_str());
    r.append("/");
    r.append(u64_to_string(size).as_str());
    r
}

} // verus!
