//! The borrowed view: a reference to a payload followed by its nul.
use vstd::prelude::*;
use vstd::string::StringSliceAdditionalSpecFns;
use vstd::utf8::{decode_utf8, valid_utf8};

use crate::layout::MAX_CAPACITY;
use crate::owned::SdsString;
use crate::utf8::{lossy, lossy_text, valid_prefix_len, validate, Utf8Error};

verus! {

/// Index of the first nul byte of `b`, if it holds one.
pub open spec fn first_nul(b: Seq<u8>) -> Option<int> {
    if exists|i: int| 0 <= i < b.len() && b[i] == 0 {
        Some(choose|i: int| 0 <= i < b.len() && b[i] == 0 && forall|j: int| 0 <= j < i ==> b[j] != 0)
    } else {
        None
    }
}

/// Lexicographic order of two byte sequences.
pub open spec fn lex_cmp(a: Seq<u8>, b: Seq<u8>) -> core::cmp::Ordering
    decreases a.len(),
{
    if a.len() == 0 {
        if b.len() == 0 {
            core::cmp::Ordering::Equal
        } else {
            core::cmp::Ordering::Less
        }
    } else if b.len() == 0 {
        core::cmp::Ordering::Greater
    } else if a[0] < b[0] {
        core::cmp::Ordering::Less
    } else if a[0] > b[0] {
        core::cmp::Ordering::Greater
    } else {
        lex_cmp(a.drop_first(), b.drop_first())
    }
}

/// No nul byte found in the input of [`SdsStr::from_bytes_until_nul`].
#[derive(Clone, Copy, PartialEq, Eq, Structural, Debug)]
pub struct FromBytesUntilNulError {
    len: usize,
}

impl FromBytesUntilNulError {
    pub closed spec fn spec_input_len(&self) -> nat {
        self.len as nat
    }

    /// Length of the input that held no nul.
    pub fn input_len(&self) -> (r: usize)
        ensures
            r == self.spec_input_len(),
    {
        self.len
    }
}

/// The input of [`SdsStr::from_bytes_with_nul`] did not end in a nul.
#[derive(Clone, Copy, PartialEq, Eq, Structural, Debug)]
pub struct FromBytesWithNulError {
    len: usize,
}

impl FromBytesWithNulError {
    pub closed spec fn spec_input_len(&self) -> nat {
        self.len as nat
    }

    /// Length of the input that did not end in a nul.
    pub fn input_len(&self) -> (r: usize)
        ensures
            r == self.spec_input_len(),
    {
        self.len
    }
}

/// A borrowed view of a buffer: payload bytes followed by a nul. It never
/// allocates nor frees, and any number of views may share one buffer.
#[derive(Clone, Copy, Debug)]
pub struct SdsStr<'a> {
    bytes: &'a [u8],
}

impl<'a> View for SdsStr<'a> {
    type V = Seq<u8>;

    /// The payload, without the trailing nul.
    closed spec fn view(&self) -> Seq<u8> {
        self.bytes@.drop_last()
    }
}

impl<'a> SdsStr<'a> {
    #[verifier::type_invariant]
    spec fn inv(&self) -> bool {
        &&& self.bytes@.len() >= 1
        &&& self.bytes@.last() == 0
    }

    /// Payload and nul, as they lie in memory.
    pub closed spec fn with_nul(&self) -> Seq<u8> {
        self.bytes@
    }

    proof fn lemma_with_nul(&self)
        requires
            self.inv(),
        ensures
            self.with_nul() == self@.push(0),
    {
        assert(self.bytes@ =~= self@.push(0));
    }

    /// A view of `payload_with_nul`, which must end in a nul.
    pub(crate) fn from_slice(payload_with_nul: &'a [u8]) -> (r: SdsStr<'a>)
        requires
            payload_with_nul@.len() >= 1,
            payload_with_nul@.last() == 0,
        ensures
            r.with_nul() == payload_with_nul@,
            r@ == payload_with_nul@.drop_last(),
    {
        SdsStr { bytes: payload_with_nul }
    }

    /// A view of `bytes` up to its first nul, which must be there; bytes
    /// after that nul are not part of the view.
    pub fn from_bytes_until_nul(bytes: &'a [u8]) -> (r: Result<SdsStr<'a>, FromBytesUntilNulError>)
        ensures
            r is Ok <==> first_nul(bytes@) is Some,
            r matches Ok(v) ==> v@ == bytes@.subrange(0, first_nul(bytes@)->Some_0),
            r matches Err(e) ==> e.spec_input_len() == bytes@.len(),
    {
        let n = bytes.len();
        let mut i: usize = 0;
        while i < n
            invariant
                n == bytes@.len(),
                i <= n,
                forall|j: int| 0 <= j < i ==> bytes@[j] != 0,
            decreases n - i,
        {
            if bytes[i] == 0 {
                let b = &bytes[0..i + 1];
                assert(b@.last() == bytes@[i as int]);
                let v = SdsStr { bytes: b };
                proof {
                    let p = choose|p: int| 0 <= p < bytes@.len() && bytes@[p] == 0 && forall|j: int| 0 <= j < p ==> bytes@[j] != 0;
                    assert(0 <= i < bytes@.len() && bytes@[i as int] == 0);
                    assert(p == i) by {
                        if p < i {
                        } else if p > i {
                            assert(bytes@[i as int] != 0);
                        }
                    }
                    assert(v@ =~= bytes@.subrange(0, i as int));
                }
                return Ok(v);
            }
            i = i + 1;
        }
        Err(FromBytesUntilNulError { len: n })
    }

    /// A view of `bytes`, whose last byte must be a nul. Nuls before it are
    /// part of the payload.
    pub fn from_bytes_with_nul(bytes: &'a [u8]) -> (r: Result<SdsStr<'a>, FromBytesWithNulError>)
        ensures
            r is Ok <==> (bytes@.len() >= 1 && bytes@.last() == 0),
            r matches Ok(v) ==> v.with_nul() == bytes@ && v@ == bytes@.drop_last(),
            r matches Err(e) ==> e.spec_input_len() == bytes@.len(),
    {
        let n = bytes.len();
        if n >= 1 && bytes[n - 1] == 0 {
            let v = SdsStr { bytes };
            Ok(v)
        } else {
            Err(FromBytesWithNulError { len: n })
        }
    }

    /// A view of `bytes`, whose last byte the caller attests is a nul.
    pub fn from_bytes_with_nul_unchecked(bytes: &'a [u8]) -> (r: SdsStr<'a>)
        requires
            bytes@.len() >= 1,
            bytes@.last() == 0,
        ensures
            r.with_nul() == bytes@,
            r@ == bytes@.drop_last(),
    {
        SdsStr { bytes }
    }

    /// Number of payload bytes, read without scanning.
    pub fn len(&self) -> (r: usize)
        ensures
            r == self@.len(),
    {
        proof {
            use_type_invariant(self);
        }
        self.bytes.len() - 1
    }

    /// Whether the payload is empty.
    pub fn is_empty(&self) -> (r: bool)
        ensures
            r == (self@.len() == 0),
    {
        self.len() == 0
    }

    /// The payload bytes, without the trailing nul.
    pub fn as_bytes(&self) -> (r: &'a [u8])
        ensures
            r@ == self@,
    {
        proof {
            use_type_invariant(self);
        }
        let n = self.bytes.len() - 1;
        &self.bytes[0..n]
    }

    /// The payload bytes followed by the trailing nul.
    pub fn as_bytes_with_nul(&self) -> (r: &'a [u8])
        ensures
            r@ == self@.push(0),
    {
        proof {
            use_type_invariant(self);
            self.lemma_with_nul();
        }
        self.bytes
    }

    /// The payload as text, when it is well-formed UTF-8; otherwise the
    /// offset of the first invalid unit.
    pub fn to_str(&self) -> (r: Result<&'a str, Utf8Error>)
        ensures
            r is Ok <==> valid_utf8(self@),
            r matches Ok(s) ==> s@ == decode_utf8(self@) && s.spec_bytes() == self@,
            r matches Err(e) ==> e.spec_valid_up_to() == valid_prefix_len(self@),
    {
        validate(self.as_bytes())
    }

    /// The payload as text, each ill-formed sequence replaced by U+FFFD.
    pub fn to_string_lossy(&self) -> (r: String)
        ensures
            r@ == lossy_text(self@),
            valid_utf8(self@) ==> r@ == decode_utf8(self@),
    {
        lossy(self.as_bytes())
    }

    /// A fresh owned string with the same payload.
    pub fn into_sds_string(self) -> (r: SdsString)
        requires
            self@.len() <= MAX_CAPACITY,
        ensures
            r@ == self@,
            r.spec_capacity() == self@.len(),
    {
        proof {
            use_type_invariant(&self);
            self.lemma_with_nul();
        }
        SdsString::new(self.as_bytes())
    }

    /// The view of the payload from byte `start` on; it ends at the same
    /// nul.
    pub fn slice_from(&self, start: usize) -> (r: SdsStr<'a>)
        requires
            start <= self@.len(),
        ensures
            r@ == self@.subrange(start as int, self@.len() as int),
    {
        proof {
            use_type_invariant(self);
            self.lemma_with_nul();
        }
        let n = self.bytes.len();
        let r = SdsStr { bytes: &self.bytes[start..n] };
        assert(r@ =~= self@.subrange(start as int, self@.len() as int));
        r
    }

    /// Compares the payloads byte for byte, as sequences.
    pub fn compare(&self, other: &SdsStr) -> (r: core::cmp::Ordering)
        ensures
            r == lex_cmp(self@, other@),
    {
        let a = self.as_bytes();
        let b = other.as_bytes();
        let mut i: usize = 0;
        assert(a@.subrange(0, a@.len() as int) =~= a@);
        assert(b@.subrange(0, b@.len() as int) =~= b@);
        while i < a.len() && i < b.len()
            invariant
                a@ == self@,
                b@ == other@,
                i <= a@.len(),
                i <= b@.len(),
                lex_cmp(self@, other@) == lex_cmp(a@.subrange(i as int, a@.len() as int), b@.subrange(i as int, b@.len() as int)),
            decreases a@.len() - i,
        {
            let ghost sa = a@.subrange(i as int, a@.len() as int);
            let ghost sb = b@.subrange(i as int, b@.len() as int);
            if a[i] < b[i] {
                return core::cmp::Ordering::Less;
            } else if a[i] > b[i] {
                return core::cmp::Ordering::Greater;
            }
            assert(sa.drop_first() =~= a@.subrange(i + 1, a@.len() as int));
            assert(sb.drop_first() =~= b@.subrange(i + 1, b@.len() as int));
            i = i + 1;
        }
        if a.len() == b.len() {
            core::cmp::Ordering::Equal
        } else if i == a.len() {
            core::cmp::Ordering::Less
        } else {
            core::cmp::Ordering::Greater
        }
    }
}

impl Default for SdsStr<'static> {
    /// The empty view, over one immutable nul shared by the whole process
    /// and never released.
    fn default() -> (r: SdsStr<'static>)
        ensures
            r@.len() == 0,
    {
        let b: &'static [u8] = &[0u8];
        assert(b@.len() == 1 && b@[0] == 0);
        let r = SdsStr { bytes: b };
        r
    }
}

/// Payload equality of two byte slices.
pub fn bytes_equal(a: &[u8], b: &[u8]) -> (r: bool)
    ensures
        r == (a@ == b@),
{
    if a.len() != b.len() {
        return false;
    }
    let mut i: usize = 0;
    while i < a.len()
        invariant
            a@.len() == b@.len(),
            i <= a@.len(),
            forall|j: int| 0 <= j < i ==> a@[j] == b@[j],
        decreases a@.len() - i,
    {
        if a[i] != b[i] {
            return false;
        }
        i = i + 1;
    }
    assert(a@ =~= b@);
    true
}

impl<'a> PartialEq for SdsStr<'a> {
    fn eq(&self, other: &SdsStr<'a>) -> (r: bool)
        ensures
            r == (self@ == other@),
    {
        bytes_equal(self.as_bytes(), other.as_bytes())
    }
}

impl<'a> vstd::std_specs::cmp::PartialEqSpecImpl for SdsStr<'a> {
    open spec fn obeys_eq_spec() -> bool {
        true
    }

    open spec fn eq_spec(&self, other: &SdsStr<'a>) -> bool {
        self@ == other@
    }
}

} // verus!

verus! {

impl<'a> PartialOrd for SdsStr<'a> {
    fn partial_cmp(&self, other: &SdsStr<'a>) -> (r: Option<core::cmp::Ordering>)
        ensures
            r == Some(lex_cmp(self@, other@)),
    {
        Some(self.compare(other))
    }
}

impl<'a> vstd::std_specs::cmp::PartialOrdSpecImpl for SdsStr<'a> {
    open spec fn obeys_partial_cmp_spec() -> bool {
        true
    }

    open spec fn partial_cmp_spec(&self, other: &SdsStr<'a>) -> Option<core::cmp::Ordering> {
        Some(lex_cmp(self@, other@))
    }
}

} // verus!
