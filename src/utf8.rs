//! UTF-8 validation of payload bytes.
use vstd::prelude::*;
use vstd::string::StringSliceAdditionalSpecFns;
use vstd::utf8::{
    codepoint_width_2, codepoint_width_3, codepoint_width_4, decode_utf8, length_of_first_scalar,
    pop_first_scalar, valid_first_scalar, valid_utf8,
};

verus! {

/// Length of the well-formed scalar encoding that `s` starts with, or `0`
/// when it does not start with one.
pub open spec fn scalar_len(s: Seq<u8>) -> nat {
    if s.len() > 0 && valid_first_scalar(s) {
        length_of_first_scalar(s) as nat
    } else {
        0
    }
}

/// Length of the longest prefix of `s` that is well-formed UTF-8, found by
/// decoding scalars from the front: the offset of the first invalid unit.
pub open spec fn valid_prefix_len(s: Seq<u8>) -> nat
    decreases s.len(),
{
    if s.len() > 0 && valid_first_scalar(s) {
        length_of_first_scalar(s) as nat + valid_prefix_len(pop_first_scalar(s))
    } else {
        0
    }
}

/// A well-formed sequence is exactly one whose valid prefix is all of it.
pub proof fn lemma_valid_prefix_len(s: Seq<u8>)
    ensures
        valid_prefix_len(s) <= s.len(),
        valid_utf8(s) <==> valid_prefix_len(s) == s.len(),
    decreases s.len(),
{
    if s.len() > 0 && valid_first_scalar(s) {
        lemma_valid_prefix_len(pop_first_scalar(s));
    }
}

/// The error of a failed UTF-8 validation.
#[derive(Clone, Copy, PartialEq, Eq, Structural, Debug)]
pub struct Utf8Error {
    valid_up_to: usize,
}

impl Utf8Error {
    /// Offset of the first invalid unit.
    pub closed spec fn spec_valid_up_to(&self) -> nat {
        self.valid_up_to as nat
    }

    /// The offset of the first byte that does not start a well-formed
    /// scalar encoding; the bytes before it are valid UTF-8.
    pub fn valid_up_to(&self) -> (r: usize)
        ensures
            r == self.spec_valid_up_to(),
    {
        self.valid_up_to
    }

    pub(crate) fn new(valid_up_to: usize) -> (r: Utf8Error)
        ensures
            r.spec_valid_up_to() == valid_up_to,
    {
        Utf8Error { valid_up_to }
    }
}

fn is_continuation(b: u8) -> (r: bool)
    ensures
        r == (0x80 <= b <= 0xbf),
{
    0x80 <= b && b <= 0xbf
}

/// Length of the well-formed scalar encoding at offset `i` of `b`, or `0`.
pub fn scalar_len_at(b: &[u8], i: usize) -> (r: usize)
    requires
        i < b@.len(),
    ensures
        r == scalar_len(b@.subrange(i as int, b@.len() as int)),
        r <= 4,
{
    let ghost s = b@.subrange(i as int, b@.len() as int);
    let rest = b.len() - i;
    let b0 = b[i];
    if b0 <= 0x7f {
        assert((b0 & 0x7f) as u32 <= 0x7f) by (bit_vector);
        1
    } else if 0xc0 <= b0 && b0 <= 0xdf {
        if rest >= 2 && is_continuation(b[i + 1]) {
            let b1 = b[i + 1];
            let cp: u32 = (((b0 & 0x1f) as u32) << 6) | ((b1 & 0x3f) as u32);
            assert(cp == codepoint_width_2(s[0], s[1]));
            assert(((((b0 & 0x1f) as u32) << 6) | ((b1 & 0x3f) as u32)) <= 0x7ff) by (bit_vector);
            if 0x80 <= cp {
                2
            } else {
                0
            }
        } else {
            0
        }
    } else if 0xe0 <= b0 && b0 <= 0xef {
        if rest >= 3 && is_continuation(b[i + 1]) && is_continuation(b[i + 2]) {
            let b1 = b[i + 1];
            let b2 = b[i + 2];
            let cp: u32 = (((b0 & 0x0f) as u32) << 12) | (((b1 & 0x3f) as u32) << 6) | ((b2
                & 0x3f) as u32);
            assert(cp == codepoint_width_3(s[0], s[1], s[2]));
            if 0x800 <= cp && !(0xd800 <= cp && cp <= 0xdfff) {
                3
            } else {
                0
            }
        } else {
            0
        }
    } else if 0xf0 <= b0 && b0 <= 0xf7 {
        if rest >= 4 && is_continuation(b[i + 1]) && is_continuation(b[i + 2]) && is_continuation(
            b[i + 3],
        ) {
            let b1 = b[i + 1];
            let b2 = b[i + 2];
            let b3 = b[i + 3];
            let cp: u32 = (((b0 & 0x07) as u32) << 18) | (((b1 & 0x3f) as u32) << 12) | (((b2
                & 0x3f) as u32) << 6) | ((b3 & 0x3f) as u32);
            assert(cp == codepoint_width_4(s[0], s[1], s[2], s[3]));
            if 0x10000 <= cp && cp <= 0x10ffff {
                4
            } else {
                0
            }
        } else {
            0
        }
    } else {
        0
    }
}

/// Offset of the first invalid unit of `b`, or its length when all of it is
/// well-formed UTF-8.
pub fn utf8_valid_up_to(b: &[u8]) -> (r: usize)
    ensures
        r == valid_prefix_len(b@),
        valid_utf8(b@) <==> r == b@.len(),
{
    proof {
        lemma_valid_prefix_len(b@);
    }
    let n = b.len();
    let mut i: usize = 0;
    assert(b@.subrange(0, n as int) =~= b@);
    while i < n
        invariant
            n == b@.len(),
            i <= n,
            valid_prefix_len(b@) == i + valid_prefix_len(b@.subrange(i as int, n as int)),
        decreases n - i,
    {
        let ghost s = b@.subrange(i as int, n as int);
        let k = scalar_len_at(b, i);
        if k == 0 {
            assert(valid_prefix_len(s) == 0);
            proof {
                lemma_valid_prefix_len(b@);
            }
            return i;
        }
        assert(pop_first_scalar(s) =~= b@.subrange(i + k, n as int));
        i = i + k;
    }
    i
}

/// Relies on `std::str::from_utf8`: it succeeds exactly on well-formed
/// UTF-8, and the text it returns is made of the same bytes.
#[verifier::external_body]
fn str_from_utf8(b: &[u8]) -> (r: Option<&str>)
    ensures
        r is Some <==> valid_utf8(b@),
        r matches Some(s) ==> s.spec_bytes() == b@,
{
    std::str::from_utf8(b).ok()
}

/// Text of the bytes with each ill-formed sequence replaced by U+FFFD.
pub uninterp spec fn lossy_text(b: Seq<u8>) -> Seq<char>;

/// Relies on `String::from_utf8_lossy`: the text depends on the bytes
/// alone, and well-formed input comes back decoded unchanged.
#[verifier::external_body]
fn string_from_utf8_lossy(b: &[u8]) -> (r: String)
    ensures
        r@ == lossy_text(b@),
        valid_utf8(b@) ==> r@ == decode_utf8(b@),
{
    String::from_utf8_lossy(b).into_owned()
}

/// Validates `b` as UTF-8: the text on success, the offset of the first
/// invalid unit otherwise.
pub fn validate(b: &[u8]) -> (r: Result<&str, Utf8Error>)
    ensures
        r is Ok <==> valid_utf8(b@),
        r matches Ok(s) ==> s.spec_bytes() == b@ && s@ == decode_utf8(b@),
        r matches Err(e) ==> e.spec_valid_up_to() == valid_prefix_len(b@) && e.spec_valid_up_to()
            < b@.len(),
{
    match str_from_utf8(b) {
        Some(s) => {
            proof {
                vstd::utf8::encode_utf8_decode_utf8(s@);
            }
            Ok(s)
        },
        None => {
            let k = utf8_valid_up_to(b);
            proof {
                lemma_valid_prefix_len(b@);
            }
            Err(Utf8Error::new(k))
        },
    }
}

/// Text of `b`, replacing each ill-formed sequence by U+FFFD; well-formed
/// input is decoded unchanged.
pub fn lossy(b: &[u8]) -> (r: String)
    ensures
        r@ == lossy_text(b@),
        valid_utf8(b@) ==> r@ == decode_utf8(b@),
{
    string_from_utf8_lossy(b)
}

} // verus!
