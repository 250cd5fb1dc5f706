//! URL percent encoding and decoding.
//!
//! `encode` escapes every byte outside the unreserved set as `%XX`
//! (uppercase hex) and maps space to `+`. Decoding is lenient: a
//! malformed or truncated escape is no error, the literal `%` passes
//! through unchanged, so decoding never fails on an irregular route.

use vstd::prelude::*;
use vstd::string::StringSliceAdditionalSpecFns;

use crate::ascii::{all_ascii, ascii_to_string, chars_of};

verus! {

// ASCII byte values, named for readability.
pub const SPACE: u8 = 32;
pub const BANG: u8 = 33;
pub const HASH: u8 = 35;
pub const DOLLAR: u8 = 36;
pub const PERCENT: u8 = 37;
pub const AMPERSAND: u8 = 38;
pub const APOSTROPHE: u8 = 39;
pub const LPAREN: u8 = 40;
pub const RPAREN: u8 = 41;
pub const STAR: u8 = 42;
pub const PLUS: u8 = 43;
pub const COMMA: u8 = 44;
pub const DASH: u8 = 45;
pub const DOT: u8 = 46;
pub const SLASH: u8 = 47;
pub const DIGIT_0: u8 = 48;
pub const DIGIT_9: u8 = 57;
pub const COLON: u8 = 58;
pub const SEMICOLON: u8 = 59;
pub const EQUALS: u8 = 61;
pub const QUESTION: u8 = 63;
pub const AT_SIGN: u8 = 64;
pub const UPPER_A: u8 = 65;
pub const UPPER_F: u8 = 70;
pub const UPPER_Z: u8 = 90;
pub const UNDERSCORE: u8 = 95;
pub const LOWER_A: u8 = 97;
pub const LOWER_F: u8 = 102;
pub const LOWER_Z: u8 = 122;
pub const TILDE: u8 = 126;

/// Which bytes an encode pass leaves unescaped.
#[derive(Debug, Clone, Copy, PartialEq, Eq, Structural)]
pub enum EncodeProfile {
    /// URL components: only the unreserved set survives.
    Component,
    /// Like `Component`, but `/` passes through, for filesystem paths.
    PathPreserving,
    /// Full URIs: reserved delimiters also survive, for `Location` values.
    Uri,
}

/// The unreserved set, never escaped by any profile:
/// `A-Z a-z 0-9 - _ . ~ ! ' ( ) *`
pub open spec fn safe_byte(b: u8) -> bool {
    (UPPER_A <= b && b <= UPPER_Z) || (LOWER_A <= b && b <= LOWER_Z) || (DIGIT_0 <= b && b
        <= DIGIT_9) || b == DASH || b == UNDERSCORE || b == DOT || b == TILDE || b == BANG || b
        == APOSTROPHE || b == LPAREN || b == RPAREN || b == STAR
}

/// The bytes a profile passes through unescaped. No profile passes
/// `%`, `+` or space, so decoding undoes every encode exactly.
pub open spec fn profile_allows(p: EncodeProfile, b: u8) -> bool {
    match p {
        EncodeProfile::Component => safe_byte(b),
        EncodeProfile::PathPreserving => safe_byte(b) || b == SLASH,
        EncodeProfile::Uri => safe_byte(b) || b == SLASH || b == COLON || b == QUESTION || b
            == HASH || b == AT_SIGN || b == AMPERSAND || b == EQUALS || b == DOLLAR || b == COMMA
            || b == SEMICOLON,
    }
}

/// The uppercase hex digit of a value below 16.
pub open spec fn hex_digit(n: u8) -> u8
    recommends
        n < 16,
{
    if n < 10 {
        (DIGIT_0 + n) as u8
    } else {
        (UPPER_A + (n - 10)) as u8
    }
}

/// How one byte encodes: space to `+`, an allowed byte to itself,
/// anything else to `%XX`.
pub open spec fn spec_encode_byte(b: u8, p: EncodeProfile) -> Seq<u8> {
    if b == SPACE {
        seq![PLUS]
    } else if profile_allows(p, b) {
        seq![b]
    } else {
        seq![PERCENT, hex_digit(b / 16), hex_digit(b % 16)]
    }
}

/// The encoding of a byte sequence under a profile.
pub open spec fn spec_encode(s: Seq<u8>, p: EncodeProfile) -> Seq<u8>
    decreases s.len(),
{
    if s.len() == 0 {
        Seq::empty()
    } else {
        spec_encode_byte(s[0], p) + spec_encode(s.skip(1), p)
    }
}

pub open spec fn is_hex_digit(b: u8) -> bool {
    (DIGIT_0 <= b && b <= DIGIT_9) || (UPPER_A <= b && b <= UPPER_F) || (LOWER_A <= b && b
        <= LOWER_F)
}

/// The value of a hex digit.
pub open spec fn hex_value(b: u8) -> u8
    recommends
        is_hex_digit(b),
{
    if DIGIT_0 <= b && b <= DIGIT_9 {
        (b - DIGIT_0) as u8
    } else if UPPER_A <= b && b <= UPPER_F {
        (b - UPPER_A + 10) as u8
    } else {
        (b - LOWER_A + 10) as u8
    }
}

/// The lenient decoding of a byte sequence: `+` yields space, a valid
/// `%XX` escape yields its byte, and a `%` not followed by two hex
/// digits passes through as the literal `%`.
pub open spec fn spec_decode(s: Seq<u8>) -> Seq<u8>
    decreases s.len(),
{
    if s.len() == 0 {
        Seq::empty()
    } else if s[0] == PLUS {
        seq![SPACE] + spec_decode(s.skip(1))
    } else if s[0] != PERCENT {
        seq![s[0]] + spec_decode(s.skip(1))
    } else if s.len() >= 3 && is_hex_digit(s[1]) && is_hex_digit(s[2]) {
        seq![(hex_value(s[1]) * 16 + hex_value(s[2])) as u8] + spec_decode(s.skip(3))
    } else {
        seq![PERCENT] + spec_decode(s.skip(1))
    }
}

/// Whether a byte may stand raw in an already-encoded URI: anything a
/// `Uri` encode can emit, plus the `%` of existing escapes.
pub open spec fn uri_safe_byte(b: u8) -> bool {
    profile_allows(EncodeProfile::Uri, b) || b == PERCENT || b == PLUS
}

/// Whether a string is already percent-safe for use as a URI: every
/// byte may stand raw there. Such a string holds no space, quote,
/// backslash, angle bracket or control byte.
pub open spec fn spec_is_uri_encoded(s: Seq<u8>) -> bool {
    forall|i: int| 0 <= i < s.len() ==> uri_safe_byte(s[i])
}

/// Whether a byte survives encoding unescaped under the `Component`
/// profile.
pub fn is_safe(ch: u8) -> (r: bool)
    ensures
        r == safe_byte(ch),
{
    (UPPER_A <= ch && ch <= UPPER_Z) || (LOWER_A <= ch && ch <= LOWER_Z) || (DIGIT_0 <= ch && ch
        <= DIGIT_9) || ch == DASH || ch == UNDERSCORE || ch == DOT || ch == TILDE || ch == BANG
        || ch == APOSTROPHE || ch == LPAREN || ch == RPAREN || ch == STAR
}

fn is_allowed(p: EncodeProfile, b: u8) -> (r: bool)
    ensures
        r == profile_allows(p, b),
{
    match p {
        EncodeProfile::Component => is_safe(b),
        EncodeProfile::PathPreserving => is_safe(b) || b == SLASH,
        EncodeProfile::Uri => is_safe(b) || b == SLASH || b == COLON || b == QUESTION || b == HASH
            || b == AT_SIGN || b == AMPERSAND || b == EQUALS || b == DOLLAR || b == COMMA || b
            == SEMICOLON,
    }
}

fn hex_digit_of(n: u8) -> (r: u8)
    requires
        n < 16,
    ensures
        r == hex_digit(n),
{
    if n < 10 {
        DIGIT_0 + n
    } else {
        UPPER_A + (n - 10)
    }
}

/// Encodes a byte sequence under a profile, as raw ASCII bytes.
pub fn encode_bytes(src: &[u8], p: EncodeProfile) -> (r: Vec<u8>)
    ensures
        r@ == spec_encode(src@, p),
        all_ascii(r@),
{
    let n = src.len();
    let mut out: Vec<u8> = Vec::new();
    let mut i: usize = 0;
    while i < n
        invariant
            n == src@.len(),
            i <= n,
            out@ == spec_encode(src@.take(i as int), p),
            all_ascii(out@),
        decreases n - i,
    {
        let b = src[i];
        if b == SPACE {
            out.push(PLUS);
        } else if is_allowed(p, b) {
            out.push(b);
        } else {
            out.push(PERCENT);
            out.push(hex_digit_of(b / 16));
            out.push(hex_digit_of(b % 16));
        }
        proof {
            assert(src@.take(i + 1) =~= src@.take(i as int).push(src@[i as int]));
            lemma_encode_snoc(src@.take(i as int), src@[i as int], p);
        }
        i = i + 1;
    }
    proof {
        assert(src@.take(n as int) =~= src@);
    }
    out
}

/// Encodes a byte sequence, escaping `/` unless `slash_allowed`.
pub fn encode_base(src: &[u8], slash_allowed: bool) -> (r: String)
    ensures
        r@ == chars_of(
            spec_encode(
                src@,
                if slash_allowed {
                    EncodeProfile::PathPreserving
                } else {
                    EncodeProfile::Component
                },
            ),
        ),
{
    let p = if slash_allowed {
        EncodeProfile::PathPreserving
    } else {
        EncodeProfile::Component
    };
    ascii_to_string(encode_bytes(src, p))
}

/// Encodes a URL component: every byte outside the unreserved set is
/// escaped, space becomes `+`.
pub fn encode(src: &[u8]) -> (r: String)
    ensures
        r@ == chars_of(spec_encode(src@, EncodeProfile::Component)),
{
    encode_base(src, false)
}

/// Re-encodes a destination for use as a full URI: reserved delimiters
/// survive, everything else is escaped.
pub fn encode_uri(src: &[u8]) -> (r: String)
    ensures
        r@ == chars_of(spec_encode(src@, EncodeProfile::Uri)),
{
    ascii_to_string(encode_bytes(src, EncodeProfile::Uri))
}

fn hex_val_of(b: u8) -> (r: u8)
    requires
        is_hex_digit(b),
    ensures
        r == hex_value(b),
        r < 16,
{
    if DIGIT_0 <= b && b <= DIGIT_9 {
        b - DIGIT_0
    } else if UPPER_A <= b && b <= UPPER_F {
        b - UPPER_A + 10
    } else {
        b - LOWER_A + 10
    }
}

fn is_hex(b: u8) -> (r: bool)
    ensures
        r == is_hex_digit(b),
{
    (DIGIT_0 <= b && b <= DIGIT_9) || (UPPER_A <= b && b <= UPPER_F) || (LOWER_A <= b && b
        <= LOWER_F)
}

/// Decodes URL percent-encoding, leniently: `+` becomes space and a
/// malformed or truncated escape passes the literal `%` through.
pub fn decode(src: &str) -> (r: Vec<u8>)
    ensures
        r@ == spec_decode(src.spec_bytes()),
{
    let s: &[u8] = src.as_bytes();
    let n = s.len();
    let mut out: Vec<u8> = Vec::new();
    let mut i: usize = 0;
    proof {
        assert(s@.skip(0) =~= s@);
        assert(Seq::<u8>::empty() + spec_decode(s@) =~= spec_decode(s@));
    }
    while i < n
        invariant
            s@ == src.spec_bytes(),
            n == s@.len(),
            i <= n,
            spec_decode(s@) == out@ + spec_decode(s@.skip(i as int)),
        decreases n - i,
    {
        let b = s[i];
        if b == PLUS {
            out.push(SPACE);
            proof {
                assert(s@.skip(i as int).skip(1) =~= s@.skip(i + 1));
            }
            i = i + 1;
        } else if b != PERCENT {
            out.push(b);
            proof {
                assert(s@.skip(i as int).skip(1) =~= s@.skip(i + 1));
            }
            i = i + 1;
        } else if n - i >= 3 && is_hex(s[i + 1]) && is_hex(s[i + 2]) {
            let hi = hex_val_of(s[i + 1]);
            let lo = hex_val_of(s[i + 2]);
            out.push(hi * 16 + lo);
            proof {
                assert(s@.skip(i as int).skip(3) =~= s@.skip(i + 3));
            }
            i = i + 3;
        } else {
            out.push(PERCENT);
            proof {
                assert(s@.skip(i as int).skip(1) =~= s@.skip(i + 1));
            }
            i = i + 1;
        }
    }
    proof {
        assert(s@.skip(n as int) =~= Seq::<u8>::empty());
        assert(out@ + Seq::<u8>::empty() =~= out@);
    }
    out
}

/// Whether a string is already percent-safe for use as a URI.
pub fn is_uri_encoded(src: &str) -> (r: bool)
    ensures
        r == spec_is_uri_encoded(src.spec_bytes()),
{
    let s: &[u8] = src.as_bytes();
    let n = s.len();
    let mut i: usize = 0;
    while i < n
        invariant
            s@ == src.spec_bytes(),
            n == s@.len(),
            i <= n,
            forall|j: int| 0 <= j < i ==> uri_safe_byte(s@[j]),
        decreases n - i,
    {
        let b = s[i];
        if !(is_allowed(EncodeProfile::Uri, b) || b == PERCENT || b == PLUS) {
            return false;
        }
        i = i + 1;
    }
    true
}

/// Appending one byte to the input appends that byte's encoding to the
/// output.
proof fn lemma_encode_snoc(s: Seq<u8>, b: u8, p: EncodeProfile)
    ensures
        spec_encode(s.push(b), p) == spec_encode(s, p) + spec_encode_byte(b, p),
    decreases s.len(),
{
    if s.len() == 0 {
        assert(s.push(b)[0] == b);
        assert(s.push(b).skip(1) =~= Seq::<u8>::empty());
        assert(spec_encode(s.push(b), p) == spec_encode_byte(b, p) + spec_encode(
            Seq::<u8>::empty(),
            p,
        ));
        assert(spec_encode(s.push(b), p) =~= spec_encode_byte(b, p));
        assert(spec_encode(s, p) + spec_encode_byte(b, p) =~= spec_encode_byte(b, p));
    } else {
        assert(s.push(b).skip(1) =~= s.skip(1).push(b));
        lemma_encode_snoc(s.skip(1), b, p);
        assert(spec_encode(s.push(b), p) =~= spec_encode(s, p) + spec_encode_byte(b, p));
    }
}

/// Round trip: decoding an encoded byte sequence gives back the
/// original, under every profile. The converse is not claimed: decode
/// canonicalizes and is not injective.
pub proof fn lemma_decode_of_encode(s: Seq<u8>, p: EncodeProfile)
    ensures
        spec_decode(spec_encode(s, p)) == s,
    decreases s.len(),
{
    if s.len() == 0 {
    } else {
        let b = s[0];
        let e0 = spec_encode_byte(b, p);
        let rest = spec_encode(s.skip(1), p);
        lemma_decode_of_encode(s.skip(1), p);
        assert(spec_encode(s, p) == e0 + rest);
        if b == SPACE {
            assert((e0 + rest)[0] == PLUS);
            assert((e0 + rest).skip(1) =~= rest);
            assert(spec_decode(e0 + rest) == seq![SPACE] + spec_decode(rest));
        } else if profile_allows(p, b) {
            assert(b != PLUS && b != PERCENT);
            assert((e0 + rest)[0] == b);
            assert((e0 + rest).skip(1) =~= rest);
            assert(spec_decode(e0 + rest) == seq![b] + spec_decode(rest));
        } else {
            let hi = (b / 16) as u8;
            let lo = (b % 16) as u8;
            assert((e0 + rest)[0] == PERCENT);
            assert((e0 + rest)[1] == hex_digit(hi));
            assert((e0 + rest)[2] == hex_digit(lo));
            assert(is_hex_digit(hex_digit(hi)) && is_hex_digit(hex_digit(lo)));
            assert(hex_value(hex_digit(hi)) == hi && hex_value(hex_digit(lo)) == lo);
            assert(hi * 16 + lo == b);
            assert((e0 + rest).skip(3) =~= rest);
            assert(spec_decode(e0 + rest) == seq![b] + spec_decode(rest));
        }
        assert(seq![b] + s.skip(1) =~= s);
    }
}

/// The path-preserving profile leaves `/` unescaped, while the default
/// component profile escapes it as `%2F`.
pub proof fn lemma_slash_by_profile()
    ensures
        spec_encode_byte(SLASH, EncodeProfile::PathPreserving) =~= seq![SLASH],
        spec_encode_byte(SLASH, EncodeProfile::Component) =~= seq![PERCENT, 50u8, UPPER_F],
{
}

/// Every byte an encode emits is ASCII.
pub proof fn lemma_encode_ascii(s: Seq<u8>, p: EncodeProfile)
    ensures
        all_ascii(spec_encode(s, p)),
    decreases s.len(),
{
    if s.len() == 0 {
    } else {
        let e0 = spec_encode_byte(s[0], p);
        let rest = spec_encode(s.skip(1), p);
        lemma_encode_ascii(s.skip(1), p);
        assert(spec_encode(s, p) == e0 + rest);
        assert forall|i: int| 0 <= i < (e0 + rest).len() implies (e0 + rest)[i] < 128 by {
            if i < e0.len() {
                assert((e0 + rest)[i] == e0[i]);
            } else {
                assert((e0 + rest)[i] == rest[i - e0.len()]);
            }
        }
    }
}

/// Everything a `Uri` encode emits may stand raw in a URI: re-encoded
/// destinations are already percent-safe.
pub proof fn lemma_encode_uri_safe(s: Seq<u8>)
    ensures
        spec_is_uri_encoded(spec_encode(s, EncodeProfile::Uri)),
    decreases s.len(),
{
    if s.len() == 0 {
    } else {
        let b = s[0];
        let e0 = spec_encode_byte(b, EncodeProfile::Uri);
        let rest = spec_encode(s.skip(1), EncodeProfile::Uri);
        lemma_encode_uri_safe(s.skip(1));
        assert(spec_encode(s, EncodeProfile::Uri) == e0 + rest);
        assert forall|i: int| 0 <= i < (e0 + rest).len() implies uri_safe_byte((e0 + rest)[i]) by {
            if i < e0.len() {
                assert((e0 + rest)[i] == e0[i]);
            } else {
                assert((e0 + rest)[i] == rest[i - e0.len()]);
            }
        }
    }
}

} // verus!
