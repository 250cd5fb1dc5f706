//! HTTP `Range` header resolution against a known content length.
//!
//! Accepted grammar: `bytes=<start>-<end>`, both numbers optional; a
//! missing start means `0`, a missing end means end of content. A
//! malformed header, `start > end`, or a start at or past the content
//! length is unsatisfiable; a satisfiable end is clamped to the last
//! byte of the content.

use vstd::prelude::*;
use vstd::string::StringSliceAdditionalSpecFns;

use crate::ascii::{chars_of, lemma_ascii_chars_bytes};
use crate::digits::{all_dec_digits, dec_value, parse_u64};
use crate::urlencode::DASH;

verus! {

/// The bytes of the mandatory header prefix `bytes=`.
pub open spec fn range_prefix() -> Seq<u8> {
    seq![98u8, 121u8, 116u8, 101u8, 115u8, 61u8]
}

/// The index of the first `-` in a byte sequence, or -1 if none.
pub open spec fn first_dash(s: Seq<u8>) -> int
    decreases s.len(),
{
    if s.len() == 0 {
        -1
    } else if s[0] == DASH {
        0
    } else {
        let r = first_dash(s.skip(1));
        if r == -1 {
            -1
        } else {
            r + 1
        }
    }
}

proof fn lemma_first_dash_at(s: Seq<u8>, i: int)
    requires
        0 <= i <= s.len(),
        forall|j: int| 0 <= j < i ==> s[j] != DASH,
        i < s.len() ==> s[i] == DASH,
    ensures
        first_dash(s) == if i < s.len() {
            i
        } else {
            -1
        },
    decreases i,
{
    if i == 0 {
    } else {
        assert(s[0] != DASH);
        lemma_first_dash_at(s.skip(1), i - 1);
    }
}

/// What one side of the dash contributes: the empty string means the
/// default, otherwise it must be all digits and fit in a `u64`.
pub open spec fn part_value(p: Seq<u8>, default: u64) -> Option<u64> {
    if p.len() == 0 {
        Some(default)
    } else if all_dec_digits(p) && dec_value(p) <= u64::MAX {
        Some(dec_value(p) as u64)
    } else {
        None
    }
}

/// The parse of a `Range` header value: the requested start and end,
/// with `u64::MAX` standing for a missing end.
pub open spec fn spec_parse_range(s: Seq<u8>) -> Option<(u64, u64)> {
    if s.len() < 6 || s.take(6) != range_prefix() {
        None
    } else {
        let rest = s.skip(6);
        let d = first_dash(rest);
        if d < 0 {
            None
        } else {
            match (part_value(rest.take(d), 0), part_value(rest.skip(d + 1), u64::MAX)) {
                (Some(a), Some(b)) => Some((a, b)),
                _ => None,
            }
        }
    }
}

/// Parses a `Range` header value into requested start and end offsets;
/// a missing end becomes `u64::MAX`, meaning end of content.
pub fn parse_range(range: &str) -> (r: Option<(u64, u64)>)
    ensures
        r == spec_parse_range(range.spec_bytes()),
{
    let s: &[u8] = range.as_bytes();
    let n = s.len();
    if n < 6 {
        return None;
    }
    let pfx: &[u8] = "bytes=".as_bytes();
    proof {
        reveal_strlit("bytes=");
        assert("bytes="@ =~= chars_of(range_prefix()));
        lemma_ascii_chars_bytes(range_prefix());
        assert(pfx@ =~= range_prefix());
    }
    let mut j: usize = 0;
    while j < 6
        invariant
            s@ == range.spec_bytes(),
            n == s@.len(),
            n >= 6,
            pfx@ == range_prefix(),
            pfx@.len() == 6,
            j <= 6,
            forall|k: int| 0 <= k < j ==> s@[k] == range_prefix()[k],
        decreases 6 - j,
    {
        if s[j] != pfx[j] {
            proof {
                assert(s@.take(6)[j as int] == s@[j as int]);
                assert(s@.take(6) != range_prefix());
            }
            return None;
        }
        j = j + 1;
    }
    proof {
        assert(s@.take(6) =~= range_prefix());
    }
    let rest: &[u8] = &s[6..n];
    proof {
        assert(rest@ =~= s@.skip(6));
    }
    let m = rest.len();
    let mut d: usize = 0;
    while d < m && rest[d] != DASH
        invariant
            m == rest@.len(),
            d <= m,
            forall|k: int| 0 <= k < d ==> rest@[k] != DASH,
        decreases m - d,
    {
        d = d + 1;
    }
    proof {
        lemma_first_dash_at(rest@, d as int);
    }
    if d == m {
        return None;
    }
    let start_part: &[u8] = &rest[0..d];
    let end_part: &[u8] = &rest[d + 1..m];
    proof {
        assert(start_part@ =~= rest@.take(d as int));
        assert(end_part@ =~= rest@.skip(d + 1));
    }
    let a: u64 = if start_part.len() == 0 {
        0
    } else {
        match parse_u64(start_part) {
            Some(v) => v,
            None => {
                return None;
            },
        }
    };
    let b: u64 = if end_part.len() == 0 {
        u64::MAX
    } else {
        match parse_u64(end_part) {
            Some(v) => v,
            None => {
                return None;
            },
        }
    };
    Some((a, b))
}

/// How a resource of a known length is to be delivered.
#[derive(Debug, Clone, Copy, PartialEq, Eq, Structural)]
pub enum RangeOutcome {
    /// No range was requested: deliver the whole content.
    Full,
    /// Deliver the inclusive byte range `start..=end`, `length` bytes.
    Partial { start: u64, end: u64, length: u64 },
    /// The requested range cannot be satisfied.
    Unsatisfiable,
}

/// The outcome for a present `Range` header against a content length.
pub open spec fn spec_resolve(s: Seq<u8>, content_length: u64) -> RangeOutcome {
    match spec_parse_range(s) {
        None => RangeOutcome::Unsatisfiable,
        Some((a, b)) => {
            if a > b || a >= content_length {
                RangeOutcome::Unsatisfiable
            } else {
                let e: u64 = if b > (content_length - 1) as u64 {
                    (content_length - 1) as u64
                } else {
                    b
                };
                RangeOutcome::Partial { start: a, end: e, length: (e - a + 1) as u64 }
            }
        },
    }
}

/// Resolves an optional `Range` header against the content length:
/// no header means full delivery; a malformed header, a start past the
/// last byte, or a start beyond the end is unsatisfiable; otherwise the
/// end is clamped to the last byte and the served length is exact.
pub fn resolve(range: Option<&str>, content_length: u64) -> (r: RangeOutcome)
    ensures
        range is None ==> r == RangeOutcome::Full,
        range matches Some(h) ==> r == spec_resolve(h.spec_bytes(), content_length),
        r matches RangeOutcome::Partial { start, end, length } ==> start <= end < content_length
            && length == end - start + 1,
{
    match range {
        None => RangeOutcome::Full,
        Some(h) => {
            match parse_range(h) {
                None => RangeOutcome::Unsatisfiable,
                Some((a, b)) => {
                    if a > b || a >= content_length {
                        RangeOutcome::Unsatisfiable
                    } else {
                        let e: u64 = if b > content_length - 1 {
                            content_length - 1
                        } else {
                            b
                        };
                        RangeOutcome::Partial { start: a, end: e, length: e - a + 1 }
                    }
                },
            }
        },
    }
}

} // verus!
