//! A plain owning handle over one buffer, for code that mostly passes
//! buffers across the ownership boundary.
use vstd::prelude::*;

use crate::raw::RawSds;
use crate::view::{first_nul, SdsStr};

verus! {

/// Owns one buffer and releases it when dropped, unless it was handed out
/// with [`Sds::into_raw`].
#[derive(Debug)]
pub struct Sds {
    raw: RawSds,
}

impl View for Sds {
    type V = Seq<u8>;

    /// The payload, without the trailing nul.
    closed spec fn view(&self) -> Seq<u8> {
        self.raw@
    }
}

impl Sds {
    #[verifier::type_invariant]
    spec fn inv(&self) -> bool {
        self.raw.wf()
    }

    /// Capacity of the owned buffer.
    pub closed spec fn spec_capacity(&self) -> nat {
        self.raw.spec_capacity()
    }

    /// A new empty buffer.
    pub fn new() -> (r: Sds)
        ensures
            r@.len() == 0,
            r.spec_capacity() == 0,
    {
        Sds { raw: RawSds::empty() }
    }

    /// The payload bytes, without the trailing nul.
    pub fn as_bytes(&self) -> (r: &[u8])
        ensures
            r@ == self@,
    {
        proof {
            use_type_invariant(self);
        }
        self.raw.as_bytes()
    }

    /// The payload bytes followed by the trailing nul.
    pub fn as_bytes_with_nul(&self) -> (r: &[u8])
        ensures
            r@ == self@.push(0),
    {
        proof {
            use_type_invariant(self);
        }
        self.raw.as_bytes_with_nul()
    }

    /// The bytes before the first nul: what code that stops at a nul sees.
    pub fn as_c_str(&self) -> (r: &[u8])
        ensures
            r@ == self@.push(0).subrange(0, first_nul(self@.push(0))->Some_0),
    {
        proof {
            use_type_invariant(self);
            self.raw.lemma_nul_terminated();
        }
        let all = self.as_bytes_with_nul();
        assert(all@[all@.len() - 1] == 0);
        match SdsStr::from_bytes_until_nul(all) {
            Ok(v) => v.as_bytes(),
            Err(_) => all,
        }
    }

    /// Takes back ownership of a buffer handed out by [`Sds::into_raw`].
    pub fn from_raw(raw: RawSds) -> (r: Sds)
        requires
            raw.wf(),
        ensures
            r@ == raw@,
            r.spec_capacity() == raw.spec_capacity(),
    {
        Sds { raw }
    }

    /// Hands the buffer out; from now on its holder must release it.
    pub fn into_raw(self) -> (r: RawSds)
        ensures
            r.wf(),
            r@ == self@,
            r.spec_capacity() == self.spec_capacity(),
    {
        proof {
            use_type_invariant(&self);
        }
        self.raw
    }

    /// Payload bytes available before a reallocation.
    pub fn capacity(&self) -> (r: usize)
        ensures
            r == self.spec_capacity(),
    {
        proof {
            use_type_invariant(self);
        }
        self.raw.capacity()
    }

    /// Empties the buffer in place; the capacity is kept.
    pub fn clear(&mut self)
        ensures
            final(self)@.len() == 0,
            final(self).spec_capacity() == old(self).spec_capacity(),
    {
        proof {
            use_type_invariant(&*self);
        }
        let mut raw = RawSds::empty();
        std::mem::swap(&mut raw, &mut self.raw);
        raw.clear();
        self.raw = raw;
    }
}

} // verus!
