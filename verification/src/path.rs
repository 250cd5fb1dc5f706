//! Path sanitizing: turning an untrusted, percent-encoded request
//! route into a safe, root-relative filesystem path.
//!
//! The route is percent-decoded first, so an escaped `..` is caught
//! exactly like a literal one; it is then split on `/` alone, empty
//! and `.` segments are dropped, and any `..` segment is rejected.
//! Two strategies stand behind the one contract: the portable one
//! additionally rejects NUL bytes, the reserved-name one (for
//! filesystems with legacy device namespaces) additionally rejects
//! control characters, `:` and `\`, and reserved device names.
//!
//! The returned path, joined under any root directory, cannot traverse
//! above that root via `..` segments. This does not cover symlink
//! escapes or resolution races: callers must re-resolve the root on
//! every request rather than cache an open directory handle.

use vstd::prelude::*;
use vstd::string::StringSliceAdditionalSpecFns;

use crate::ascii::chars_of;
use crate::urlencode::{
    decode, encode_base, spec_decode, spec_encode, EncodeProfile, COLON, DOT, LOWER_A, LOWER_Z,
    SLASH, UPPER_A,
};

verus! {

pub const BACKSLASH: u8 = 92;
pub const UPPER_C: u8 = 67;
pub const UPPER_L: u8 = 76;
pub const UPPER_M: u8 = 77;
pub const UPPER_N: u8 = 78;
pub const UPPER_O: u8 = 79;
pub const UPPER_P: u8 = 80;
pub const UPPER_R: u8 = 82;
pub const UPPER_T: u8 = 84;
pub const UPPER_U: u8 = 85;
pub const UPPER_X: u8 = 88;

/// A single `.` segment.
pub open spec fn dot_seg() -> Seq<u8> {
    seq![DOT]
}

/// A parent-directory `..` segment.
pub open spec fn dotdot_seg() -> Seq<u8> {
    seq![DOT, DOT]
}

/// The segments of a byte string split on `/`; empty segments are
/// kept, so the result is never empty.
pub open spec fn split_slash(s: Seq<u8>) -> Seq<Seq<u8>>
    decreases s.len(),
{
    if s.len() == 0 {
        seq![Seq::empty()]
    } else if s[0] == SLASH {
        seq![Seq::<u8>::empty()] + split_slash(s.skip(1))
    } else {
        let r = split_slash(s.skip(1));
        seq![seq![s[0]] + r[0]] + r.skip(1)
    }
}

/// Segments that survive sanitizing: nonempty and not `.`.
pub open spec fn keep_seg(seg: Seq<u8>) -> bool {
    seg.len() > 0 && seg != dot_seg()
}

/// The kept segments, in order.
pub open spec fn clean_segs_of(parts: Seq<Seq<u8>>) -> Seq<Seq<u8>>
    decreases parts.len(),
{
    if parts.len() == 0 {
        Seq::empty()
    } else {
        let rest = clean_segs_of(parts.drop_last());
        if keep_seg(parts.last()) {
            rest.push(parts.last())
        } else {
            rest
        }
    }
}

/// Segments joined with `/`.
pub open spec fn join_slash(parts: Seq<Seq<u8>>) -> Seq<u8>
    decreases parts.len(),
{
    if parts.len() == 0 {
        Seq::empty()
    } else if parts.len() == 1 {
        parts[0]
    } else {
        parts[0] + seq![SLASH] + join_slash(parts.skip(1))
    }
}

/// The sanitized form of a decoded route: its kept segments joined
/// with `/`, or the current-directory sentinel `.` if none remain.
pub open spec fn spec_sanitized(s: Seq<u8>) -> Seq<u8> {
    let clean = clean_segs_of(split_slash(s));
    if clean.len() == 0 {
        dot_seg()
    } else {
        join_slash(clean)
    }
}

pub open spec fn slash_free(t: Seq<u8>) -> bool {
    forall|j: int| 0 <= j < t.len() ==> t[j] != SLASH
}

/// A byte uppercased, if it is an ASCII lowercase letter.
pub open spec fn spec_upper(b: u8) -> u8 {
    if LOWER_A <= b && b <= LOWER_Z {
        (b - 32) as u8
    } else {
        b
    }
}

/// Whether a segment begins, case-insensitively, with a reserved
/// device name: CON, PRN, AUX, NUL, COM or LPT, regardless of suffix.
pub open spec fn is_reserved_name(seg: Seq<u8>) -> bool {
    seg.len() >= 3 && {
        let a = spec_upper(seg[0]);
        let b = spec_upper(seg[1]);
        let c = spec_upper(seg[2]);
        (a == UPPER_C && b == UPPER_O && c == UPPER_N) || (a == UPPER_P && b == UPPER_R && c
            == UPPER_N) || (a == UPPER_A && b == UPPER_U && c == UPPER_X) || (a == UPPER_N && b
            == UPPER_U && c == UPPER_L) || (a == UPPER_C && b == UPPER_O && c == UPPER_M) || (a
            == UPPER_L && b == UPPER_P && c == UPPER_T)
    }
}

/// Whether any segment is a reserved device name.
pub open spec fn has_reserved(parts: Seq<Seq<u8>>) -> bool {
    exists|i: int| 0 <= i < parts.len() && is_reserved_name(parts[i])
}

/// What the reserved-name strategy refuses outright: control bytes,
/// `:` and `\`.
pub open spec fn win_bad_byte(b: u8) -> bool {
    b < 32 || b == COLON || b == BACKSLASH
}

pub open spec fn has_win_bad(s: Seq<u8>) -> bool {
    exists|i: int| 0 <= i < s.len() && win_bad_byte(s[i])
}

/// Why a route was rejected.
#[derive(Debug, Clone, Copy, PartialEq, Eq, Structural)]
#[non_exhaustive]
pub enum DangerousPathError {
    /// The route holds a `..` segment, or a reserved device name under
    /// the reserved-name strategy.
    DangerousPath,
    /// The route holds forbidden bytes: NUL under the portable
    /// strategy; control bytes, `:` or `\` under the reserved-name one.
    InvalidCharacters,
}

/// A validated, root-relative path: no `..` segment survives in it,
/// and it never begins with `/`.
#[derive(Debug)]
pub struct SanitizedPath {
    bytes: Vec<u8>,
}

impl View for SanitizedPath {
    type V = Seq<u8>;

    closed spec fn view(&self) -> Seq<u8> {
        self.bytes@
    }
}

impl SanitizedPath {
    /// The path's bytes: segments joined with `/`.
    pub fn as_bytes(&self) -> (r: &[u8])
        ensures
            r@ == self@,
    {
        self.bytes.as_slice()
    }

    /// Gives up the path's bytes.
    pub fn into_bytes(self) -> (r: Vec<u8>)
        ensures
            r@ == self@,
    {
        self.bytes
    }
}

proof fn lemma_split_step(s: Seq<u8>, k: int)
    requires
        0 <= k <= s.len(),
        forall|j: int| 0 <= j < k ==> s[j] != SLASH,
        k < s.len() ==> s[k] == SLASH,
    ensures
        k == s.len() ==> split_slash(s) == seq![s],
        k < s.len() ==> split_slash(s) == seq![s.take(k)] + split_slash(s.skip(k + 1)),
    decreases s.len(),
{
    if s.len() == 0 {
        assert(s =~= Seq::<u8>::empty());
        assert(split_slash(s) == seq![s]);
    } else if k == 0 {
        assert(s.take(0) =~= Seq::<u8>::empty());
    } else {
        let r = split_slash(s.skip(1));
        lemma_split_step(s.skip(1), k - 1);
        if k == s.len() {
            assert(r == seq![s.skip(1)]);
            assert(seq![s[0]] + s.skip(1) =~= s);
            assert(r.skip(1) =~= Seq::<Seq<u8>>::empty());
            assert(split_slash(s) =~= seq![s]);
        } else {
            assert(r == seq![s.skip(1).take(k - 1)] + split_slash(s.skip(1).skip(k)));
            assert(r[0] == s.skip(1).take(k - 1));
            assert(seq![s[0]] + s.skip(1).take(k - 1) =~= s.take(k));
            assert(r.skip(1) =~= split_slash(s.skip(1).skip(k)));
            assert(s.skip(1).skip(k) =~= s.skip(k + 1));
            assert(split_slash(s) =~= seq![s.take(k)] + split_slash(s.skip(k + 1)));
        }
    }
}

proof fn lemma_join_push(parts: Seq<Seq<u8>>, seg: Seq<u8>)
    ensures
        join_slash(parts.push(seg)) == if parts.len() == 0 {
            seg
        } else {
            join_slash(parts) + seq![SLASH] + seg
        },
    decreases parts.len(),
{
    let p2 = parts.push(seg);
    if parts.len() == 0 {
        assert(p2.len() == 1);
        assert(join_slash(p2) == p2[0]);
        assert(p2[0] == seg);
    } else if parts.len() == 1 {
        assert(p2.len() == 2);
        assert(p2.skip(1) =~= seq![seg]);
        assert(join_slash(seq![seg]) == seg);
        assert(join_slash(p2) == p2[0] + seq![SLASH] + seg);
        assert(p2[0] == parts[0]);
    } else {
        assert(p2.skip(1) =~= parts.skip(1).push(seg));
        lemma_join_push(parts.skip(1), seg);
        assert(join_slash(p2) == p2[0] + seq![SLASH] + (join_slash(parts.skip(1)) + seq![SLASH]
            + seg));
        assert(p2[0] == parts[0]);
        assert(parts[0] + seq![SLASH] + (join_slash(parts.skip(1)) + seq![SLASH] + seg) =~= (
        parts[0] + seq![SLASH] + join_slash(parts.skip(1))) + seq![SLASH] + seg);
    }
}

/// Splitting a join of nonempty, slash-free segments gives the
/// segments back: that is why no `..` can reappear in a joined path.
proof fn lemma_split_join(parts: Seq<Seq<u8>>)
    requires
        parts.len() >= 1,
        forall|i: int| 0 <= i < parts.len() ==> (#[trigger] parts[i]).len() > 0 && slash_free(
            parts[i],
        ),
    ensures
        split_slash(join_slash(parts)) == parts,
    decreases parts.len(),
{
    if parts.len() == 1 {
        let s = parts[0];
        lemma_split_step(s, s.len() as int);
        assert(join_slash(parts) == s);
        assert(seq![s] =~= parts);
    } else {
        let s = join_slash(parts);
        let first = parts[0];
        let k = first.len() as int;
        let rest_join = join_slash(parts.skip(1));
        assert(s == first + seq![SLASH] + rest_join);
        assert forall|j: int| 0 <= j < k implies s[j] != SLASH by {
            assert(s[j] == first[j]);
        }
        assert(s[k] == SLASH);
        lemma_split_step(s, k);
        assert(s.take(k) =~= first);
        assert(s.skip(k + 1) =~= rest_join);
        lemma_split_join(parts.skip(1));
        assert(seq![first] + parts.skip(1) =~= parts);
    }
}

fn upper_of(b: u8) -> (r: u8)
    ensures
        r == spec_upper(b),
{
    if LOWER_A <= b && b <= LOWER_Z {
        b - 32
    } else {
        b
    }
}

fn is_reserved_seg(seg: &[u8]) -> (r: bool)
    ensures
        r == is_reserved_name(seg@),
{
    if seg.len() < 3 {
        return false;
    }
    let a = upper_of(seg[0]);
    let b = upper_of(seg[1]);
    let c = upper_of(seg[2]);
    (a == UPPER_C && b == UPPER_O && c == UPPER_N) || (a == UPPER_P && b == UPPER_R && c
        == UPPER_N) || (a == UPPER_A && b == UPPER_U && c == UPPER_X) || (a == UPPER_N && b
        == UPPER_U && c == UPPER_L) || (a == UPPER_C && b == UPPER_O && c == UPPER_M) || (a
        == UPPER_L && b == UPPER_P && c == UPPER_T)
}

/// The shared segment walk behind both strategies: drops empty and `.`
/// segments, rejects `..` (and, under the reserved-name strategy,
/// reserved device names), and joins what remains.
fn build_path(dec: &[u8], reserved: bool) -> (r: Result<SanitizedPath, DangerousPathError>)
    ensures
        !(r matches Err(DangerousPathError::InvalidCharacters)),
        r is Err <==> (split_slash(dec@).contains(dotdot_seg()) || (reserved && has_reserved(
            split_slash(dec@),
        ))),
        r matches Ok(p) ==> p@ == spec_sanitized(dec@),
        r matches Ok(p) ==> p@.len() > 0 && p@[0] != SLASH && !split_slash(p@).contains(
            dotdot_seg(),
        ),
{
    let n = dec.len();
    let mut out: Vec<u8> = Vec::new();
    let mut p: usize = 0;
    let mut finished = false;
    let ghost mut done: Seq<Seq<u8>> = Seq::empty();
    let ghost mut kept: Seq<Seq<u8>> = Seq::empty();
    proof {
        assert(dec@.skip(0) =~= dec@);
        assert(Seq::<Seq<u8>>::empty() + split_slash(dec@) =~= split_slash(dec@));
    }
    while !finished
        invariant
            n == dec@.len(),
            p <= n,
            !finished ==> split_slash(dec@) == done + split_slash(dec@.skip(p as int)),
            finished ==> split_slash(dec@) == done,
            kept == clean_segs_of(done),
            forall|i: int| 0 <= i < done.len() ==> #[trigger] done[i] != dotdot_seg() && !(
            reserved && is_reserved_name(done[i])),
            forall|i: int| 0 <= i < kept.len() ==> (#[trigger] kept[i]).len() > 0 && slash_free(
                kept[i],
            ) && kept[i] != dotdot_seg(),
            out@ == join_slash(kept),
            kept.len() > 0 <==> out@.len() > 0,
            out@.len() > 0 ==> out@[0] != SLASH,
        decreases n - p + (if finished {
            0int
        } else {
            1int
        }),
    {
        let mut q = p;
        while q < n && dec[q] != SLASH
            invariant
                n == dec@.len(),
                p <= q <= n,
                forall|k: int| p <= k < q ==> dec@[k] != SLASH,
            decreases n - q,
        {
            q = q + 1;
        }
        proof {
            let tail = dec@.skip(p as int);
            assert forall|j: int| 0 <= j < q - p implies tail[j] != SLASH by {
                assert(tail[j] == dec@[p + j]);
            }
            if q < n {
                assert(tail[q - p] == dec@[q as int]);
            }
            lemma_split_step(tail, q - p);
        }
        let seg: &[u8] = &dec[p..q];
        proof {
            assert(seg@ =~= dec@.skip(p as int).take(q - p));
            if q == n {
                assert(dec@.skip(p as int).take(q - p) =~= dec@.skip(p as int));
            }
            // the current segment is the next element of the split
            assert(split_slash(dec@)[done.len() as int] == seg@);
        }
        let is_dotdot = seg.len() == 2 && seg[0] == DOT && seg[1] == DOT;
        if is_dotdot {
            proof {
                assert(seg@ =~= dotdot_seg());
                assert(split_slash(dec@).contains(dotdot_seg()));
            }
            return Err(DangerousPathError::DangerousPath);
        }
        if reserved && is_reserved_seg(seg) {
            proof {
                assert(has_reserved(split_slash(dec@)));
            }
            return Err(DangerousPathError::DangerousPath);
        }
        let is_dot = seg.len() == 1 && seg[0] == DOT;
        proof {
            if is_dot {
                assert(seg@ =~= dot_seg());
            }
            if seg@.len() == 1 && seg@ != dot_seg() {
                assert(seg@[0] != DOT);
            }
        }
        if seg.len() > 0 && !is_dot {
            if out.len() > 0 {
                out.push(SLASH);
            }
            let mut segv = vstd::slice::slice_to_vec(seg);
            out.append(&mut segv);
            proof {
                lemma_join_push(kept, seg@);
                kept = kept.push(seg@);
                assert(out@ == join_slash(kept));
                assert(keep_seg(seg@));
            }
        } else {
            proof {
                assert(!keep_seg(seg@));
            }
        }
        proof {
            let old_done = done;
            done = done.push(seg@);
            assert(done.drop_last() =~= old_done);
            assert(done.last() == seg@);
            assert(kept == clean_segs_of(done));
            if q < n {
                assert(dec@.skip(p as int).skip(q - p + 1) =~= dec@.skip(q + 1));
                assert(split_slash(dec@.skip(p as int)) == seq![seg@] + split_slash(
                    dec@.skip(q + 1),
                ));
                assert(done + split_slash(dec@.skip(q + 1)) =~= old_done + (seq![seg@]
                    + split_slash(dec@.skip(q + 1))));
            } else {
                assert(split_slash(dec@.skip(p as int)) == seq![seg@]);
                assert(done =~= old_done + seq![seg@]);
            }
        }
        if q < n {
            p = q + 1;
        } else {
            finished = true;
        }
    }
    if out.len() == 0 {
        out.push(DOT);
        proof {
            assert(kept.len() == 0);
            assert(out@ =~= dot_seg());
            assert(spec_sanitized(dec@) == dot_seg());
            // the sentinel `.` splits into itself alone
            let d = dot_seg();
            assert(d[0] == DOT && DOT != SLASH);
            assert(d.skip(1) =~= Seq::<u8>::empty());
            assert(split_slash(Seq::<u8>::empty()) == seq![Seq::<u8>::empty()]);
            let r = split_slash(d.skip(1));
            assert(r == seq![Seq::<u8>::empty()]);
            assert(seq![DOT] + r[0] =~= d);
            assert(r.skip(1) =~= Seq::<Seq<u8>>::empty());
            assert(split_slash(d) == seq![seq![DOT] + r[0]] + r.skip(1));
            assert(split_slash(d) =~= seq![d]);
            if split_slash(d).contains(dotdot_seg()) {
                let i = choose|i: int|
                    0 <= i < split_slash(d).len() && split_slash(d)[i] == dotdot_seg();
                assert(split_slash(d)[i] == d);
                assert(d.len() == 1 && dotdot_seg().len() == 2);
                assert(false);
            }
        }
    } else {
        proof {
            assert(kept.len() > 0);
            assert(spec_sanitized(dec@) == join_slash(kept));
            lemma_split_join(kept);
            if split_slash(out@).contains(dotdot_seg()) {
                let i = choose|i: int|
                    0 <= i < split_slash(out@).len() && split_slash(out@)[i] == dotdot_seg();
                assert(kept[i] == dotdot_seg());
                assert(false);
            }
        }
    }
    Ok(SanitizedPath { bytes: out })
}

fn contains_nul(s: &[u8]) -> (r: bool)
    ensures
        r == s@.contains(0u8),
{
    let n = s.len();
    let mut i: usize = 0;
    while i < n
        invariant
            n == s@.len(),
            i <= n,
            forall|j: int| 0 <= j < i ==> s@[j] != 0u8,
        decreases n - i,
    {
        if s[i] == 0 {
            assert(s@[i as int] == 0u8);
            return true;
        }
        i = i + 1;
    }
    proof {
        if s@.contains(0u8) {
            let j = choose|j: int| 0 <= j < s@.len() && s@[j] == 0u8;
            assert(false);
        }
    }
    false
}

fn contains_win_bad(s: &[u8]) -> (r: bool)
    ensures
        r == has_win_bad(s@),
{
    let n = s.len();
    let mut i: usize = 0;
    while i < n
        invariant
            n == s@.len(),
            i <= n,
            forall|j: int| 0 <= j < i ==> !win_bad_byte(s@[j]),
        decreases n - i,
    {
        let b = s[i];
        if b < 32 || b == COLON || b == BACKSLASH {
            assert(win_bad_byte(s@[i as int]));
            return true;
        }
        i = i + 1;
    }
    proof {
        if has_win_bad(s@) {
            let j = choose|j: int| 0 <= j < s@.len() && win_bad_byte(s@[j]);
            assert(false);
        }
    }
    false
}

/// Converts a request route into a safe relative path, the portable
/// strategy: the route is percent-decoded first, NUL bytes are
/// forbidden, empty and `.` segments are dropped, and any `..`
/// segment is rejected. An empty result becomes the single
/// current-directory sentinel `.`.
pub fn sanitize(route: &str) -> (r: Result<SanitizedPath, DangerousPathError>)
    ensures
        ({
            let dec = spec_decode(route.spec_bytes());
            &&& (r matches Err(DangerousPathError::InvalidCharacters) <==> dec.contains(0u8))
            &&& (r matches Err(DangerousPathError::DangerousPath) <==> !dec.contains(0u8)
                && split_slash(dec).contains(dotdot_seg()))
            &&& (r matches Ok(p) ==> p@ == spec_sanitized(dec))
            &&& (r matches Ok(p) ==> p@.len() > 0 && p@[0] != SLASH && !split_slash(p@).contains(
                dotdot_seg(),
            ))
        }),
{
    let dec = decode(route);
    if contains_nul(dec.as_slice()) {
        return Err(DangerousPathError::InvalidCharacters);
    }
    build_path(dec.as_slice(), false)
}

/// Converts an already-decoded route into a safe relative path, the
/// reserved-name strategy: control bytes, `:` and `\` are forbidden,
/// and a segment beginning, case-insensitively, with a reserved
/// device name is rejected like `..`.
pub fn sanitize_win(route: &str) -> (r: Result<SanitizedPath, DangerousPathError>)
    ensures
        ({
            let s = route.spec_bytes();
            &&& (r matches Err(DangerousPathError::InvalidCharacters) <==> has_win_bad(s))
            &&& (r matches Err(DangerousPathError::DangerousPath) <==> !has_win_bad(s) && (
            split_slash(s).contains(dotdot_seg()) || has_reserved(split_slash(s))))
            &&& (r matches Ok(p) ==> p@ == spec_sanitized(s))
            &&& (r matches Ok(p) ==> p@.len() > 0 && p@[0] != SLASH && !split_slash(p@).contains(
                dotdot_seg(),
            ))
        }),
{
    let s: &[u8] = route.as_bytes();
    if contains_win_bad(s) {
        return Err(DangerousPathError::InvalidCharacters);
    }
    build_path(s, true)
}

/// Percent-encodes a sanitized path for use inside a URL, keeping its
/// `/` separators.
pub fn encode(path: &SanitizedPath) -> (r: String)
    ensures
        r@ == chars_of(spec_encode(path@, EncodeProfile::PathPreserving)),
{
    encode_base(path.as_bytes(), true)
}

} // verus!
