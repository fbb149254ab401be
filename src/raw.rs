//! The buffer block and the primitives that allocate, read, grow, trim
//! and edit it.
use vstd::prelude::*;

use crate::layout::{
    class_for, class_max, class_of_tag, class_tag, field_width, grow_capacity, grown_capacity,
    header_len, header_size, le_bytes, le_value, lemma_le_bytes, lemma_le_value_injective, read_le,
    select_class, tag_of, width_of, write_le,
    SizeClass, MAX_CAPACITY, class_from_tag, lemma_class_tag_inverse,
};

verus! {

/// Class recorded in the tag byte of a block.
pub open spec fn block_class(b: Seq<u8>) -> SizeClass {
    class_of_tag(b[0]).unwrap()
}

/// Field width of a block's class.
pub open spec fn block_width(b: Seq<u8>) -> int {
    field_width(block_class(b)) as int
}

/// Offset of payload byte 0 within a block.
pub open spec fn block_header(b: Seq<u8>) -> int {
    header_size(block_class(b)) as int
}

/// Length stored in a block's header.
pub open spec fn block_len(b: Seq<u8>) -> nat {
    le_value(b.subrange(1, 1 + block_width(b)))
}

/// Capacity stored in a block's header.
pub open spec fn block_cap(b: Seq<u8>) -> nat {
    le_value(b.subrange(1 + block_width(b), 1 + 2 * block_width(b)))
}

/// The payload of a block, without the trailing nul.
pub open spec fn block_payload(b: Seq<u8>) -> Seq<u8> {
    b.subrange(block_header(b), block_header(b) + block_len(b))
}

/// The whole byte area after the header: capacity bytes and one more.
pub open spec fn block_area(b: Seq<u8>) -> Seq<u8> {
    b.subrange(block_header(b), b.len() as int)
}

/// A well-formed block: a known tag, the narrowest class for its capacity,
/// room for exactly capacity bytes and a nul, and a nul right after the
/// payload.
pub open spec fn block_wf(b: Seq<u8>) -> bool {
    &&& b.len() >= 1
    &&& class_of_tag(b[0]) is Some
    &&& block_len(b) <= block_cap(b) <= MAX_CAPACITY
    &&& block_class(b) == class_for(block_cap(b))
    &&& b.len() == block_header(b) + block_cap(b) + 1
    &&& b[block_header(b) + block_len(b)] == 0
}

/// The block that holds `payload` with capacity `cap`: tag, length and
/// capacity fields in the narrowest class for `cap`, the payload, then
/// zeros up to and including the byte after the last capacity byte.
pub open spec fn encode_block(payload: Seq<u8>, cap: nat) -> Seq<u8> {
    let c = class_for(cap);
    let w = field_width(c);
    seq![class_tag(c)] + le_bytes(payload.len(), w) + le_bytes(cap, w) + payload + Seq::new(
        (cap - payload.len() + 1) as nat,
        |i: int| 0u8,
    )
}

/// Round trip of the block encoding: a block built from `payload` is well
/// formed and reads back as exactly that payload, with the capacity it was
/// built with.
pub proof fn lemma_block_round_trip(payload: Seq<u8>, cap: nat)
    requires
        payload.len() <= cap <= MAX_CAPACITY,
    ensures
        block_wf(encode_block(payload, cap)),
        block_payload(encode_block(payload, cap)) == payload,
        block_len(encode_block(payload, cap)) == payload.len(),
        block_cap(encode_block(payload, cap)) == cap,
        block_class(encode_block(payload, cap)) == class_for(cap),
{
    let c = class_for(cap);
    let w = field_width(c) as int;
    let e = encode_block(payload, cap);
    let len = payload.len() as int;
    lemma_class_tag_inverse(c);
    crate::layout::lemma_class_for_narrowest(cap);
    crate::layout::lemma_pow256_monotonic(0, w as nat);
    lemma_le_bytes(payload.len(), w as nat);
    lemma_le_bytes(cap, w as nat);
    assert(e[0] == class_tag(c));
    assert(block_class(e) == c);
    assert(e.subrange(1, 1 + w) =~= le_bytes(payload.len(), w as nat));
    assert(e.subrange(1 + w, 1 + 2 * w) =~= le_bytes(cap, w as nat));
    let hdr = 1 + 2 * w;
    assert(e.subrange(hdr, hdr + len) =~= payload);
    assert(e[hdr + len] == 0);
}

/// One buffer block: header, payload, trailing nul and spare room.
///
/// This is the handle that crosses the ownership boundary: whoever holds a
/// `RawSds` owns its block, and dropping it releases the block.
#[derive(Debug)]
pub struct RawSds {
    block: Vec<u8>,
}

impl View for RawSds {
    type V = Seq<u8>;

    /// The payload bytes.
    closed spec fn view(&self) -> Seq<u8> {
        block_payload(self.block@)
    }
}

impl RawSds {
    /// The block's invariant holds.
    pub closed spec fn wf(&self) -> bool {
        block_wf(self.block@)
    }

    /// Capacity: payload bytes available before a reallocation.
    pub closed spec fn spec_capacity(&self) -> nat {
        block_cap(self.block@)
    }

    /// Size class of the header.
    pub closed spec fn spec_class(&self) -> SizeClass {
        block_class(self.block@)
    }

    /// The byte area after the header: `capacity + 1` bytes, payload first.
    pub closed spec fn area(&self) -> Seq<u8> {
        block_area(self.block@)
    }

    /// The whole block as it would be handed to foreign code.
    pub closed spec fn block_bytes(&self) -> Seq<u8> {
        self.block@
    }

    proof fn lemma_area(&self)
        requires
            self.wf(),
        ensures
            self.area().len() == self.spec_capacity() + 1,
            self.area().subrange(0, self@.len() as int) == self@,
            self.area()[self@.len() as int] == 0,
            self.spec_capacity() <= class_max(self.spec_class()),
    {
        crate::layout::lemma_le_value_bound(
            self.block@.subrange(1 + block_width(self.block@), 1 + 2 * block_width(self.block@)),
        );
        assert(self.area().subrange(0, self@.len() as int) =~= self@);
    }

    /// Allocates a block of capacity `cap` holding `payload`.
    fn allocate(payload: &[u8], cap: usize) -> (r: RawSds)
        requires
            payload@.len() <= cap <= MAX_CAPACITY,
        ensures
            r.wf(),
            r@ == payload@,
            r.spec_capacity() == cap,
            r.block_bytes() == encode_block(payload@, cap as nat),
    {
        let len = payload.len();
        let class = select_class(cap);
        let hdr = header_len(class);
        let w = width_of(class);
        let total = hdr + cap + 1;
        let mut b: Vec<u8> = Vec::with_capacity(total);
        let tag = tag_of(class);
        while b.len() < total
            invariant
                b@.len() <= total,
                total == hdr + cap + 1,
                hdr == header_size(class),
                len == payload@.len(),
                len <= cap,
                b@.len() > 0 ==> b@[0] == tag,
                forall|j: int| hdr <= j < b@.len() && j < hdr + len ==> b@[j] == payload@[j - hdr],
                forall|j: int| hdr + len <= j < b@.len() ==> b@[j] == 0,
            decreases total - b@.len(),
        {
            let k = b.len();
            let byte: u8 = if k == 0 {
                tag
            } else if k < hdr {
                0
            } else if k < hdr + len {
                payload[k - hdr]
            } else {
                0
            };
            b.push(byte);
        }
        proof {
            crate::layout::lemma_pow256_facts();
        }
        let ghost pushed = b@;
        write_le(&mut b, 1, w, len as u64);
        let ghost mid = b@;
        write_le(&mut b, 1 + w, w, cap as u64);
        proof {
            lemma_class_tag_inverse(class);
            assert(b@[0] == pushed[0]);
            assert(block_class(b@) == class);
            assert(b@.subrange(1, 1 + w) =~= mid.subrange(1, 1 + w));
            assert(block_len(b@) == len);
            assert(block_cap(b@) == cap);
            assert(b@[hdr + len] == pushed[hdr + len]);
            assert(block_payload(b@) =~= payload@) by {
                assert forall|j: int| 0 <= j < len implies #[trigger] block_payload(b@)[j] == payload@[j] by {
                    assert(b@[hdr + j] == pushed[hdr + j]);
                }
            }
            let e = encode_block(payload@, cap as nat);
            lemma_block_round_trip(payload@, cap as nat);
            crate::layout::lemma_pow256_monotonic(0, w as nat);
            lemma_le_bytes(len as nat, w as nat);
            lemma_le_bytes(cap as nat, w as nat);
            lemma_le_value_injective(b@.subrange(1, 1 + w), le_bytes(len as nat, w as nat));
            lemma_le_value_injective(b@.subrange(1 + w, 1 + 2 * w), le_bytes(cap as nat, w as nat));
            assert(e.subrange(1, 1 + w) =~= le_bytes(len as nat, w as nat));
            assert(e.subrange(1 + w, 1 + 2 * w) =~= le_bytes(cap as nat, w as nat));
            assert forall|j: int| 0 <= j < b@.len() implies #[trigger] b@[j] == e[j] by {
                if j == 0 {
                } else if j < 1 + w {
                    assert(b@.subrange(1, 1 + w)[j - 1] == e.subrange(1, 1 + w)[j - 1]);
                } else if j < hdr {
                    assert(b@.subrange(1 + w, 1 + 2 * w)[j - 1 - w] == e.subrange(1 + w, 1 + 2 * w)[j - 1 - w]);
                } else if j < hdr + len {
                    assert(b@[j] == pushed[j]);
                } else {
                    assert(b@[j] == pushed[j]);
                }
            }
            assert(b@ =~= e);
        }
        RawSds { block: b }
    }

    /// Allocates a new buffer holding a copy of `init`; its capacity is its
    /// length.
    pub fn new_len(init: &[u8]) -> (r: RawSds)
        requires
            init@.len() <= MAX_CAPACITY,
        ensures
            r.wf(),
            r@ == init@,
            r.spec_capacity() == init@.len(),
            r.spec_class() == class_for(init@.len()),
    {
        RawSds::allocate(init, init.len())
    }

    /// A new empty buffer.
    pub fn empty() -> (r: RawSds)
        ensures
            r.wf(),
            r@.len() == 0,
            r.spec_capacity() == 0,
    {
        let v: Vec<u8> = Vec::new();
        RawSds::allocate(v.as_slice(), 0)
    }

    fn class(&self) -> (r: SizeClass)
        requires
            self.wf(),
        ensures
            r == self.spec_class(),
    {
        match class_from_tag(self.block[0]) {
            Some(c) => c,
            None => SizeClass::W8,
        }
    }

    /// Reads the stored length from the header.
    pub fn len(&self) -> (r: usize)
        requires
            self.wf(),
        ensures
            r == self@.len(),
    {
        let w = width_of(self.class());
        read_le(&self.block, 1, w) as usize
    }

    /// Reads the stored capacity from the header.
    pub fn capacity(&self) -> (r: usize)
        requires
            self.wf(),
        ensures
            r == self.spec_capacity(),
    {
        let w = width_of(self.class());
        read_le(&self.block, 1 + w, w) as usize
    }

    /// Free room: capacity minus length.
    pub fn avail(&self) -> (r: usize)
        requires
            self.wf(),
        ensures
            r == self.spec_capacity() - self@.len(),
    {
        self.capacity() - self.len()
    }

    /// The payload bytes, without the trailing nul.
    pub fn as_bytes(&self) -> (r: &[u8])
        requires
            self.wf(),
        ensures
            r@ == self@,
    {
        let hdr = header_len(self.class());
        let len = self.len();
        let s = self.block.as_slice();
        &s[hdr..hdr + len]
    }

    /// The payload bytes followed by the trailing nul.
    pub fn as_bytes_with_nul(&self) -> (r: &[u8])
        requires
            self.wf(),
        ensures
            r@ == self@.push(0),
    {
        let hdr = header_len(self.class());
        let len = self.len();
        let s = self.block.as_slice();
        let r = &s[hdr..hdr + len + 1];
        assert(r@ =~= self@.push(0));
        r
    }

    /// Makes room for `extra` more bytes past the length. Length and payload
    /// are kept; the capacity follows the growth policy and is left as it is
    /// when the room is already there.
    pub fn make_room_for(self, extra: usize) -> (r: RawSds)
        requires
            self.wf(),
            self@.len() + extra <= MAX_CAPACITY,
        ensures
            r.wf(),
            r@ == self@,
            r.spec_capacity() == grown_capacity(self@.len(), self.spec_capacity(), extra as nat),
            r.spec_capacity() >= self@.len() + extra,
            r.spec_class() == class_for(r.spec_capacity()),
            self@.len() + extra <= self.spec_capacity() ==> r.block_bytes() == self.block_bytes(),
    {
        let len = self.len();
        let cap = self.capacity();
        if extra <= cap - len {
            return self;
        }
        let new_cap = grow_capacity(len, cap, extra);
        RawSds::allocate(self.as_bytes(), new_cap)
    }

    /// Shrinks the capacity down to the length, narrowing the size class
    /// where it can. Length and payload are kept.
    pub fn remove_free_space(self) -> (r: RawSds)
        requires
            self.wf(),
        ensures
            r.wf(),
            r@ == self@,
            r.spec_capacity() == self@.len(),
            r.spec_class() == class_for(self@.len()),
    {
        let len = self.len();
        if len == self.capacity() {
            return self;
        }
        RawSds::allocate(self.as_bytes(), len)
    }

    /// Sets the length to `new_len` and writes the nul after it. The bytes
    /// up to `new_len` are whatever the area held there.
    pub fn set_len(&mut self, new_len: usize)
        requires
            old(self).wf(),
            new_len <= old(self).spec_capacity(),
        ensures
            final(self).wf(),
            final(self)@ == old(self).area().subrange(0, new_len as int),
            final(self).spec_capacity() == old(self).spec_capacity(),
            final(self).spec_class() == old(self).spec_class(),
    {
        let class = self.class();
        let w = width_of(class);
        let hdr = header_len(class);
        proof {
            self.lemma_area();
        }
        let ghost before = self.block@;
        proof {
            crate::layout::lemma_pow256_monotonic(0, w as nat);
        }
        assert(self.spec_capacity() <= class_max(class));
        write_le(&mut self.block, 1, w, new_len as u64);
        let ghost mid = self.block@;
        self.block.set(hdr + new_len, 0);
        proof {
            assert(self.block@[0] == before[0]);
            assert(self.block@.subrange(1 + w, 1 + 2 * w) =~= before.subrange(1 + w, 1 + 2 * w));
            assert(self.block@.subrange(1, 1 + w) =~= mid.subrange(1, 1 + w));
            assert(block_len(self.block@) == new_len);
            assert forall|j: int| 0 <= j < new_len implies #[trigger] self@[j] == block_area(before)[j] by {
                assert(self.block@[hdr + j] == mid[hdr + j]);
            }
            assert(self@ =~= block_area(before).subrange(0, new_len as int));
        }
    }

    /// Empties the buffer in place; the capacity is kept.
    pub fn clear(&mut self)
        requires
            old(self).wf(),
        ensures
            final(self).wf(),
            final(self)@.len() == 0,
            final(self).spec_capacity() == old(self).spec_capacity(),
    {
        self.set_len(0);
    }

    /// Overwrites payload byte `i` with `v`; the length and the trailing nul
    /// are kept.
    pub fn set_byte(&mut self, i: usize, v: u8)
        requires
            old(self).wf(),
            i < old(self)@.len(),
        ensures
            final(self).wf(),
            final(self)@ == old(self)@.update(i as int, v),
            final(self).spec_capacity() == old(self).spec_capacity(),
    {
        let hdr = header_len(self.class());
        let ghost before = self.block@;
        self.block.set(hdr + i, v);
        proof {
            assert(self.block@.subrange(1, 1 + block_width(before)) =~= before.subrange(1, 1 + block_width(before)));
            assert(self.block@.subrange(1 + block_width(before), 1 + 2 * block_width(before)) =~= before.subrange(1 + block_width(before), 1 + 2 * block_width(before)));
            assert(self@ =~= block_payload(before).update(i as int, v));
        }
    }

    /// Appends `t` to the payload, growing the block by the growth policy
    /// when the room is not there.
    pub fn cat_len(self, t: &[u8]) -> (r: RawSds)
        requires
            self.wf(),
            self@.len() + t@.len() <= MAX_CAPACITY,
        ensures
            r.wf(),
            r@ == self@ + t@,
            r.spec_capacity() == grown_capacity(self@.len(), self.spec_capacity(), t@.len()),
    {
        let len = self.len();
        let n = t.len();
        let mut s = self.make_room_for(n);
        let ghost cap = s.spec_capacity();
        s.set_len(len + n);
        let mut i: usize = 0;
        while i < n
            invariant
                i <= n,
                n == t@.len(),
                s.wf(),
                s@.len() == len + n,
                s.spec_capacity() == cap,
                s@.subrange(0, len as int) == self@,
                forall|j: int| 0 <= j < i ==> s@[len + j] == t@[j],
            decreases n - i,
        {
            let ghost before = s@;
            s.set_byte(len + i, t[i]);
            assert(s@.subrange(0, len as int) =~= before.subrange(0, len as int));
            i = i + 1;
        }
        assert(s@ =~= self@ + t@);
        s
    }

    /// A fresh block with the same payload and capacity.
    pub fn dup(&self) -> (r: RawSds)
        requires
            self.wf(),
        ensures
            r.wf(),
            r@ == self@,
            r.spec_capacity() == self.spec_capacity(),
    {
        RawSds::allocate(self.as_bytes(), self.capacity())
    }

    /// Gives up the block as plain bytes, for foreign code to hold.
    pub fn into_block(self) -> (r: Vec<u8>)
        ensures
            r@ == self.block_bytes(),
    {
        self.block
    }

    /// Takes ownership of a block handed out by [`RawSds::into_block`].
    ///
    /// The block's well-formedness is a precondition that is not checked
    /// at run time: only a block that this family of primitives produced
    /// and that has not been reclaimed since may be passed here.
    pub fn from_block(block: Vec<u8>) -> (r: RawSds)
        requires
            block_wf(block@),
        ensures
            r.wf(),
            r.block_bytes() == block@,
    {
        RawSds { block }
    }

    /// The block bytes determine the buffer's payload, capacity and class.
    pub proof fn lemma_block_determines(a: &RawSds, b: &RawSds)
        requires
            a.block_bytes() == b.block_bytes(),
        ensures
            a@ == b@,
            a.spec_capacity() == b.spec_capacity(),
            a.spec_class() == b.spec_class(),
            a.wf() == b.wf(),
    {
    }

    /// The byte right after the payload is always a nul.
    pub proof fn lemma_nul_terminated(&self)
        requires
            self.wf(),
        ensures
            self.area()[self@.len() as int] == 0,
            self@.len() <= self.spec_capacity(),
            self.spec_capacity() <= MAX_CAPACITY,
            self.area().len() == self.spec_capacity() + 1,
    {
        self.lemma_area();
    }
}

} // verus!
