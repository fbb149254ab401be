//! The owned string: the unique owner of one buffer.
use vstd::prelude::*;
use vstd::utf8::{decode_utf8, valid_utf8};

use crate::layout::{grown_capacity, MAX_CAPACITY};
use crate::raw::RawSds;
use crate::utf8::{valid_prefix_len, validate, Utf8Error};
use crate::view::{bytes_equal, first_nul, SdsStr};

verus! {

/// An owned, nul-terminated, binary-safe string. It owns its buffer alone
/// and releases it when dropped; the only way to duplicate it is a clone
/// that allocates a fresh buffer.
#[derive(Debug)]
pub struct SdsString {
    raw: RawSds,
}

impl View for SdsString {
    type V = Seq<u8>;

    /// The payload, without the trailing nul.
    closed spec fn view(&self) -> Seq<u8> {
        self.raw@
    }
}

impl SdsString {
    #[verifier::type_invariant]
    spec fn inv(&self) -> bool {
        self.raw.wf()
    }

    /// Capacity of the owned buffer.
    pub closed spec fn spec_capacity(&self) -> nat {
        self.raw.spec_capacity()
    }

    /// A new string holding a copy of `bytes` and a trailing nul. Interior
    /// nuls are kept as payload.
    pub fn new(bytes: &[u8]) -> (r: SdsString)
        requires
            bytes@.len() <= MAX_CAPACITY,
        ensures
            r@ == bytes@,
            r.spec_capacity() == bytes@.len(),
    {
        SdsString { raw: RawSds::new_len(bytes) }
    }

    /// Takes ownership of a buffer handed out by [`SdsString::into_raw`].
    pub fn from_raw(raw: RawSds) -> (r: SdsString)
        requires
            raw.wf(),
        ensures
            r@ == raw@,
            r.spec_capacity() == raw.spec_capacity(),
    {
        SdsString { raw }
    }

    /// Gives up ownership of the buffer; it is released only once it is
    /// taken back by [`SdsString::from_raw`].
    pub fn into_raw(self) -> (r: RawSds)
        ensures
            r.wf(),
            r@ == self@,
            r.spec_capacity() == self.spec_capacity(),
    {
        proof {
            use_type_invariant(&self);
        }
        self.raw
    }

    /// The payload as a `String` when it is well-formed UTF-8; otherwise
    /// the string itself comes back inside the error, with the offset of
    /// the first invalid unit.
    pub fn into_string(self) -> (r: Result<String, IntoStringError>)
        ensures
            r is Ok <==> valid_utf8(self@),
            r matches Ok(s) ==> s@ == decode_utf8(self@),
            r matches Err(e) ==> e.spec_inner()@ == self@ && e.spec_inner().spec_capacity()
                == self.spec_capacity() && e.spec_error().spec_valid_up_to() == valid_prefix_len(
                self@,
            ),
    {
        let error = match validate(self.as_bytes()) {
            Ok(s) => {
                return Ok(s.to_owned());
            },
            Err(e) => e,
        };
        Err(IntoStringError { inner: self, error })
    }

    /// Consumes the string and returns a copy of its payload.
    pub fn into_bytes(self) -> (r: Vec<u8>)
        ensures
            r@ == self@,
    {
        vstd::slice::slice_to_vec(self.as_bytes())
    }

    /// Consumes the string and returns a copy of its payload followed by
    /// the nul.
    pub fn into_bytes_with_nul(self) -> (r: Vec<u8>)
        ensures
            r@ == self@.push(0),
    {
        vstd::slice::slice_to_vec(self.as_bytes_with_nul())
    }

    /// The payload bytes, without the trailing nul.
    pub fn as_bytes(&self) -> (r: &[u8])
        ensures
            r@ == self@,
    {
        proof {
            use_type_invariant(self);
        }
        self.raw.as_bytes()
    }

    /// The payload bytes followed by the trailing nul.
    pub fn as_bytes_with_nul(&self) -> (r: &[u8])
        ensures
            r@ == self@.push(0),
    {
        proof {
            use_type_invariant(self);
        }
        self.raw.as_bytes_with_nul()
    }

    /// The bytes before the first nul: what code that stops at a nul sees.
    pub fn as_c_str(&self) -> (r: &[u8])
        ensures
            r@ == self@.push(0).subrange(0, first_nul(self@.push(0))->Some_0),
    {
        proof {
            use_type_invariant(self);
            self.raw.lemma_nul_terminated();
        }
        let all = self.as_bytes_with_nul();
        assert(all@[all@.len() - 1] == 0);
        assert(first_nul(all@) is Some);
        match SdsStr::from_bytes_until_nul(all) {
            Ok(v) => v.as_bytes(),
            Err(_) => all,
        }
    }

    /// A string from `v`, whose last byte must be its nul terminator;
    /// nuls before it are payload.
    pub fn from_vec_with_nul_unchecked(v: Vec<u8>) -> (r: SdsString)
        requires
            v@.len() >= 1,
            v@.last() == 0,
            v@.len() <= MAX_CAPACITY + 1,
        ensures
            r@ == v@.drop_last(),
    {
        let n = v.len() - 1;
        let s = v.as_slice();
        let r = SdsString::new(&s[0..n]);
        assert(v@.subrange(0, n as int) =~= v@.drop_last());
        r
    }

    /// A string from `v` when its last byte is a nul, which becomes the
    /// terminator; nuls before it are payload. Anything else is rejected.
    pub fn from_vec_with_nul(v: Vec<u8>) -> (r: Result<SdsString, ()>)
        requires
            v@.len() <= MAX_CAPACITY + 1,
        ensures
            r is Ok <==> (v@.len() >= 1 && v@.last() == 0),
            r matches Ok(s) ==> s@ == v@.drop_last(),
    {
        if v.len() >= 1 && v[v.len() - 1] == 0 {
            Ok(SdsString::from_vec_with_nul_unchecked(v))
        } else {
            Err(())
        }
    }

    /// A borrowed view of this string.
    pub fn as_sds_str(&self) -> (r: SdsStr<'_>)
        ensures
            r@ == self@,
    {
        proof {
            use_type_invariant(self);
        }
        proof {
            self.raw.lemma_nul_terminated();
        }
        let b = self.raw.as_bytes_with_nul();
        let r = SdsStr::from_slice(b);
        proof {
            assert(b@.drop_last() =~= self@);
        }
        r
    }

    /// Number of payload bytes.
    pub fn len(&self) -> (r: usize)
        ensures
            r == self@.len(),
    {
        proof {
            use_type_invariant(self);
        }
        self.raw.len()
    }

    /// Whether the payload is empty.
    pub fn is_empty(&self) -> (r: bool)
        ensures
            r == (self@.len() == 0),
    {
        self.len() == 0
    }

    /// Payload bytes available before a reallocation.
    pub fn capacity(&self) -> (r: usize)
        ensures
            r == self.spec_capacity(),
            self@.len() <= r,
    {
        proof {
            use_type_invariant(self);
            self.raw.lemma_nul_terminated();
        }
        self.raw.capacity()
    }

    /// Makes room for `extra` more bytes past the length, growing by the
    /// growth policy; length and payload are kept.
    pub fn reserve(&mut self, extra: usize)
        requires
            old(self)@.len() + extra <= MAX_CAPACITY,
        ensures
            final(self)@ == old(self)@,
            final(self).spec_capacity() == grown_capacity(
                old(self)@.len(),
                old(self).spec_capacity(),
                extra as nat,
            ),
            final(self).spec_capacity() >= old(self)@.len() + extra,
    {
        proof {
            use_type_invariant(&*self);
        }
        let mut raw = RawSds::empty();
        std::mem::swap(&mut raw, &mut self.raw);
        self.raw = raw.make_room_for(extra);
    }

    /// Shrinks the capacity down to the length; length and payload are
    /// kept.
    pub fn shrink_to_fit(&mut self)
        ensures
            final(self)@ == old(self)@,
            final(self).spec_capacity() == old(self)@.len(),
    {
        proof {
            use_type_invariant(&*self);
        }
        let mut raw = RawSds::empty();
        std::mem::swap(&mut raw, &mut self.raw);
        self.raw = raw.remove_free_space();
    }

    /// Appends `t`, growing by the growth policy when the room is not
    /// there.
    pub fn push_bytes(&mut self, t: &[u8])
        requires
            old(self)@.len() + t@.len() <= MAX_CAPACITY,
        ensures
            final(self)@ == old(self)@ + t@,
            final(self).spec_capacity() == grown_capacity(
                old(self)@.len(),
                old(self).spec_capacity(),
                t@.len(),
            ),
    {
        proof {
            use_type_invariant(&*self);
        }
        let mut raw = RawSds::empty();
        std::mem::swap(&mut raw, &mut self.raw);
        self.raw = raw.cat_len(t);
    }

    /// Empties the string; the capacity is kept.
    pub fn clear(&mut self)
        ensures
            final(self)@.len() == 0,
            final(self).spec_capacity() == old(self).spec_capacity(),
    {
        proof {
            use_type_invariant(&*self);
        }
        let mut raw = RawSds::empty();
        std::mem::swap(&mut raw, &mut self.raw);
        raw.clear();
        self.raw = raw;
    }

    /// Overwrites payload byte `i`; the length and the nul are kept.
    pub fn set_byte(&mut self, i: usize, v: u8)
        requires
            i < old(self)@.len(),
        ensures
            final(self)@ == old(self)@.update(i as int, v),
            final(self).spec_capacity() == old(self).spec_capacity(),
    {
        proof {
            use_type_invariant(&*self);
        }
        let mut raw = RawSds::empty();
        std::mem::swap(&mut raw, &mut self.raw);
        raw.set_byte(i, v);
        self.raw = raw;
    }
}

impl Clone for SdsString {
    /// A fresh buffer with the same payload and capacity.
    fn clone(&self) -> (r: SdsString)
        ensures
            r@ == self@,
            r.spec_capacity() == self.spec_capacity(),
    {
        proof {
            use_type_invariant(self);
        }
        SdsString { raw: self.raw.dup() }
    }
}

impl PartialEq for SdsString {
    fn eq(&self, other: &SdsString) -> (r: bool)
        ensures
            r == (self@ == other@),
    {
        bytes_equal(self.as_bytes(), other.as_bytes())
    }
}

impl vstd::std_specs::cmp::PartialEqSpecImpl for SdsString {
    open spec fn obeys_eq_spec() -> bool {
        true
    }

    open spec fn eq_spec(&self, other: &SdsString) -> bool {
        self@ == other@
    }
}

/// A failed conversion to text: keeps the original string and the offset
/// of the first invalid unit.
#[derive(Debug)]
pub struct IntoStringError {
    inner: SdsString,
    error: Utf8Error,
}

impl IntoStringError {
    /// The string whose conversion failed.
    pub closed spec fn spec_inner(&self) -> SdsString {
        self.inner
    }

    /// Where validation failed.
    pub closed spec fn spec_error(&self) -> Utf8Error {
        self.error
    }

    /// Gives back the string whose conversion failed.
    pub fn into_sdsstring(self) -> (r: SdsString)
        ensures
            r == self.spec_inner(),
    {
        self.inner
    }

    /// Where validation failed.
    pub fn utf8_error(&self) -> (r: Utf8Error)
        ensures
            r == self.spec_error(),
    {
        self.error
    }

    /// A short description of the failure.
    pub fn description(&self) -> (r: &'static str) {
        "SDS string contained non-utf8 bytes"
    }
}

} // verus!
