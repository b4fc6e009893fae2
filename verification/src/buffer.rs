//! A typed buffer: a contiguous memory region holding a fixed-width element
//! type, immutable once shared, with bounds-checked slicing and element
//! access and a restartable sequential reader.

use vstd::prelude::*;
use vstd::slice::slice_subrange;

use crate::bytebuf::{bytes_len, bytes_to_vec, bytes_view};

verus! {

/// A contiguous region of elements of a fixed-width type `T`.
///
/// A buffer owns its region exclusively while it is being built (`set` takes
/// `&mut self`, so the borrow checker rules out concurrent readers); once it
/// is shared behind a reference-counted handle, only the read-only
/// operations remain reachable.
pub struct Buffer<T> {
    data: Vec<T>,
}

impl<T> View for Buffer<T> {
    type V = Seq<T>;

    closed spec fn view(&self) -> Seq<T> {
        self.data@
    }
}

impl<T> Buffer<T> {
    /// A buffer holds at most `i32::MAX` elements, so that its element count
    /// is always representable in the signed 32-bit count handed to readers.
    pub open spec fn wf(&self) -> bool {
        self@.len() <= i32::MAX
    }

    /// The element count.
    pub fn len(&self) -> (r: i32)
        requires
            self.wf(),
        ensures
            r as int == self@.len(),
            r >= 0,
    {
        self.data.len() as i32
    }

    /// The whole region, borrowed: the raw extent that a wire or schema
    /// layer may record, valid only as long as the buffer lives.
    pub fn data(&self) -> (r: &[T])
        ensures
            r@ == self@,
    {
        self.data.as_slice()
    }

    /// A zero-copy view of the elements in `[start, end)`.
    pub fn slice(&self, start: usize, end: usize) -> (r: &[T])
        requires
            start <= end,
            (end as int) <= self@.len(),
        ensures
            r@ == self@.subrange(start as int, end as int),
    {
        slice_subrange(self.data.as_slice(), start, end)
    }

    /// Like `slice`, with the bounds contract checked at run time: `None`
    /// exactly on the start/end combinations that `slice` rejects.
    pub fn try_slice(&self, start: usize, end: usize) -> (r: Option<&[T]>)
        ensures
            match r {
                Some(s) => start <= end <= self@.len() && s@ == self@.subrange(
                    start as int,
                    end as int,
                ),
                None => start > end || (end as int) > self@.len(),
            },
    {
        if start <= end && end <= self.data.len() {
            Some(self.slice(start, end))
        } else {
            None
        }
    }

    /// The element at `index`, borrowed.
    pub fn get(&self, index: usize) -> (r: &T)
        requires
            (index as int) < self@.len(),
        ensures
            *r == self@[index as int],
    {
        &self.data[index]
    }

    /// Like `get`, with the bounds contract checked at run time: `None`
    /// exactly on the indices that `get` rejects.
    pub fn try_get(&self, index: usize) -> (r: Option<&T>)
        ensures
            match r {
                Some(e) => (index as int) < self@.len() && *e == self@[index as int],
                None => (index as int) >= self@.len(),
            },
    {
        if index < self.data.len() {
            Some(&self.data[index])
        } else {
            None
        }
    }

    /// Overwrite the element at `index`. Only reachable while the buffer is
    /// still exclusively owned (the build phase): `&mut self` cannot coexist
    /// with shared readers.
    pub fn set(&mut self, index: usize, value: T)
        requires
            (index as int) < old(self)@.len(),
        ensures
            final(self)@ == old(self)@.update(index as int, value),
            final(self).wf() == old(self).wf(),
    {
        self.data[index] = value;
    }

    /// A fresh cursor over the elements; each call restarts at index 0 and
    /// leaves the buffer untouched.
    pub fn iter<'a>(&'a self) -> (r: BufferIterator<'a, T>)
        ensures
            r.elements() == self@,
            r.pos() == 0,
    {
        BufferIterator { data: self.data.as_slice(), index: 0 }
    }

    /// Build a buffer from an owned sequence of values: the buffer takes
    /// over the freshly materialized region and owns it exclusively.
    pub fn from(v: Vec<T>) -> (r: Buffer<T>)
        requires
            v@.len() <= i32::MAX,
        ensures
            r.wf(),
            r@ == v@,
    {
        Buffer { data: v }
    }

    /// The total byte length of the region, for a schema/metadata layer to
    /// record; `None` only when `count * size_of::<T>()` cannot be
    /// represented.
    pub fn byte_len(&self) -> (r: Option<u64>)
        requires
            self.wf(),
        ensures
            match r {
                Some(n) => n as nat == self@.len() * vstd::layout::size_of::<T>(),
                None => self@.len() * vstd::layout::size_of::<T>() > u64::MAX,
            },
    {
        let n: u64 = self.data.len() as u64;
        let s: u64 = core::mem::size_of::<T>() as u64;
        n.checked_mul(s)
    }

    /// The stable extent descriptor of this buffer inside a larger
    /// serialized message, given the byte offset at which its region is
    /// placed; `None` only when the byte length exceeds `i64::MAX`.
    pub fn extent(&self, offset: i64) -> (r: Option<Extent>)
        requires
            self.wf(),
        ensures
            match r {
                Some(e) => e.offset == offset && e.length >= 0 && e.length as nat == self@.len()
                    * vstd::layout::size_of::<T>(),
                None => self@.len() * vstd::layout::size_of::<T>() > i64::MAX,
            },
    {
        match self.byte_len() {
            Some(n) => if n <= i64::MAX as u64 {
                Some(Extent { offset, length: n as i64 })
            } else {
                None
            },
            None => None,
        }
    }
}

impl Buffer<u8> {
    /// Adapt an externally supplied, already materialized byte block (e.g.
    /// a network payload) into an owned byte buffer: the bytes are copied
    /// into a fresh region, never aliased.
    pub fn from_bytes(b: bytes::Bytes) -> (r: Buffer<u8>)
        requires
            bytes_view(b).len() <= i32::MAX,
        ensures
            r.wf(),
            r@ == bytes_view(b),
    {
        let v: Vec<u8> = bytes_to_vec(&b);
        Buffer::from(v)
    }

    /// Like `from_bytes`, with the size bound checked at run time: `None`
    /// exactly when the block holds more than `i32::MAX` bytes.
    pub fn try_from_bytes(b: bytes::Bytes) -> (r: Option<Buffer<u8>>)
        ensures
            match r {
                Some(buf) => buf.wf() && buf@ == bytes_view(b) && bytes_view(b).len() <= i32::MAX,
                None => bytes_view(b).len() > i32::MAX,
            },
    {
        if bytes_len(&b) <= (i32::MAX as usize) {
            Some(Buffer::from_bytes(b))
        } else {
            None
        }
    }
}

/// Where a buffer's bytes stand inside a larger serialized message: the byte
/// offset and byte length that a schema/metadata layer records.
#[derive(Clone, Copy, Debug, PartialEq, Eq, Structural)]
pub struct Extent {
    pub offset: i64,
    pub length: i64,
}

/// A restartable sequential reader over a buffer: yields copies of the
/// elements in index order without affecting the buffer.
pub struct BufferIterator<'a, T> {
    data: &'a [T],
    index: usize,
}

impl<'a, T> BufferIterator<'a, T> {
    /// The elements the cursor ranges over.
    pub closed spec fn elements(&self) -> Seq<T> {
        self.data@
    }

    /// The index the cursor stands at.
    pub closed spec fn pos(&self) -> int {
        self.index as int
    }
}

impl<'a, T: Copy> BufferIterator<'a, T> {
    /// A copy of the next element, advancing the cursor; `None` exactly when
    /// the cursor has passed the last element.
    pub fn next(&mut self) -> (r: Option<T>)
        ensures
            final(self).elements() == old(self).elements(),
            old(self).pos() < old(self).elements().len() ==> {
                &&& r == Some(old(self).elements()[old(self).pos()])
                &&& final(self).pos() == old(self).pos() + 1
            },
            old(self).pos() >= old(self).elements().len() ==> {
                &&& r is None
                &&& final(self).pos() == old(self).pos()
            },
    {
        if self.index < self.data.len() {
            let v: T = *vstd::slice::slice_index_get(self.data, self.index);
            self.index = self.index + 1;
            Some(v)
        } else {
            None
        }
    }
}

/// Round trip: a buffer built from an owned sequence (`from` ensures
/// `b@ == v`) holds exactly as many elements as the sequence, and a fresh
/// cursor over it (`iter` ensures `it.elements() == b@` at position 0)
/// ranges over exactly the original elements, in order; `next` then yields
/// `it.elements()[k]` at each position `k`.
pub proof fn lemma_buffer_round_trip<T>(v: Seq<T>, b: &Buffer<T>, it: &BufferIterator<T>)
    requires
        b@ == v,
        it.elements() == b@,
        it.pos() == 0,
    ensures
        b@.len() == v.len(),
        it.elements().len() == v.len(),
        forall|k: int| 0 <= k < v.len() ==> it.elements()[k] == v[k],
{
}

/// Idempotent reads: taking a cursor borrows the buffer immutably, so it
/// cannot change the buffer, and any two cursors freshly taken over the
/// same frozen buffer range over identical contents from the same start.
pub proof fn lemma_iter_idempotent<T>(
    b: &Buffer<T>,
    it1: &BufferIterator<T>,
    it2: &BufferIterator<T>,
)
    requires
        it1.elements() == b@,
        it1.pos() == 0,
        it2.elements() == b@,
        it2.pos() == 0,
    ensures
        it1.elements() == it2.elements(),
        it1.pos() == it2.pos(),
{
}

} // verus!
