//! An offset list: a data buffer paired with an offsets buffer that
//! addresses variable-length elements (byte/character runs) as contiguous
//! ranges of the data buffer.

use std::rc::Rc;

use vstd::prelude::*;

use crate::buffer::Buffer;
use crate::bytebuf::{bytes_mut_extend, bytes_mut_freeze, bytes_mut_len, bytes_mut_view, bytes_mut_with_capacity};
use vstd::utf8::{decode_utf8, encode_utf8, encode_utf8_decode_utf8, encode_utf8_valid_utf8, valid_utf8};

verus! {

/// A sequence of variable-length elements encoded in two shared buffers:
/// `data` holds the elements back to back, and `offsets[i]..offsets[i+1]`
/// is the extent of element `i`. Both buffers may be shared
/// (reference-counted) by several list views.
pub struct List<T> {
    pub data: Rc<Buffer<T>>,
    pub offsets: Rc<Buffer<i32>>,
}

impl<T> List<T> {
    /// The offsets invariant: one more offset than there are elements, the
    /// first offset is 0, offsets never decrease, and the last offset is the
    /// length of the data buffer, so every element's extent is a valid
    /// sub-range of `data`.
    pub open spec fn wf(&self) -> bool {
        &&& (*self.data).wf()
        &&& (*self.offsets).wf()
        &&& self.offsets@.len() >= 1
        &&& self.offsets@[0] == 0
        &&& forall|i: int, j: int|
            0 <= i <= j < self.offsets@.len() ==> self.offsets@[i] <= self.offsets@[j]
        &&& self.offsets@.last() as int == self.data@.len()
    }

    /// The number of elements the list addresses.
    pub open spec fn spec_len(&self) -> int {
        self.offsets@.len() - 1
    }

    /// The bytes (elements of `data`) that make up element `i`.
    pub open spec fn element(&self, i: int) -> Seq<T>
        recommends
            0 <= i < self.spec_len(),
    {
        self.data@.subrange(self.offsets@[i] as int, self.offsets@[i + 1] as int)
    }

    /// The element count.
    pub fn len(&self) -> (r: i32)
        requires
            self.wf(),
        ensures
            r as int == self.spec_len(),
            r >= 0,
    {
        self.offsets.len() - 1
    }

    /// A zero-copy view of element `index`: the sub-range
    /// `[offsets[index], offsets[index+1])` of the data buffer.
    pub fn slice<'a>(&'a self, index: usize) -> (r: &'a [T])
        requires
            self.wf(),
            (index as int) < self.spec_len(),
        ensures
            r@ == self.element(index as int),
    {
        let start: i32 = *self.offsets.get(index);
        let end: i32 = *self.offsets.get(index + 1);
        self.data.slice(start as usize, end as usize)
    }

    /// Like `slice`, with the bounds contract checked at run time: `None`
    /// exactly on the indices that `slice` rejects.
    pub fn try_slice<'a>(&'a self, index: usize) -> (r: Option<&'a [T]>)
        requires
            self.wf(),
        ensures
            match r {
                Some(s) => (index as int) < self.spec_len() && s@ == self.element(index as int),
                None => (index as int) >= self.spec_len(),
            },
    {
        if index < (self.len() as usize) {
            Some(self.slice(index))
        } else {
            None
        }
    }
}

/// A sequence whose adjacent entries never decrease is sorted everywhere.
proof fn lemma_adjacent_implies_sorted(s: Seq<i32>, i: int, j: int)
    requires
        forall|k: int| 0 <= k < s.len() - 1 ==> #[trigger] s[k] <= s[k + 1],
        0 <= i <= j < s.len(),
    ensures
        s[i] <= s[j],
    decreases j - i,
{
    if i < j {
        lemma_adjacent_implies_sorted(s, i, j - 1);
    }
}

impl<T> List<T> {
    /// Check the offsets invariant at run time, as a guard against a
    /// structurally corrupted offsets buffer: `true` exactly when the two
    /// buffers form a well-formed list.
    pub fn validate(&self) -> (r: bool)
        requires
            (*self.data).wf(),
            (*self.offsets).wf(),
        ensures
            r == self.wf(),
    {
        let m: i32 = self.offsets.len();
        if m < 1 {
            return false;
        }
        if *self.offsets.get(0) != 0 {
            return false;
        }
        let mut i: usize = 1;
        while i < (m as usize)
            invariant
                (*self.data).wf(),
                (*self.offsets).wf(),
                m as int == self.offsets@.len(),
                1 <= i <= m as int,
                forall|k: int| 0 <= k < i - 1 ==> #[trigger] self.offsets@[k] <= self.offsets@[k
                    + 1],
            decreases m as int - i,
        {
            if *self.offsets.get(i) < *self.offsets.get(i - 1) {
                return false;
            }
            i = i + 1;
        }
        proof {
            assert forall|a: int, b: int|
                0 <= a <= b < self.offsets@.len() implies self.offsets@[a] <= self.offsets@[b] by {
                lemma_adjacent_implies_sorted(self.offsets@, a, b);
            }
        }
        if *self.offsets.get((m as usize) - 1) != self.data.len() {
            return false;
        }
        true
    }
}

/// The UTF-8 encodings of the given character sequences, back to back: the
/// contents of the data buffer that `from` builds.
pub open spec fn joined(ss: Seq<Seq<char>>) -> Seq<u8>
    decreases ss.len(),
{
    if ss.len() == 0 {
        Seq::<u8>::empty()
    } else {
        joined(ss.drop_last()) + encode_utf8(ss.last())
    }
}

/// Appending one more string appends exactly its encoding.
proof fn lemma_joined_push(ss: Seq<Seq<char>>, s: Seq<char>)
    ensures
        joined(ss.push(s)) == joined(ss) + encode_utf8(s),
{
    assert(ss.push(s).drop_last() =~= ss);
    assert(ss.push(s).last() == s);
}

/// One step of the prefix decomposition of `joined`.
proof fn lemma_joined_take_succ(ss: Seq<Seq<char>>, i: int)
    requires
        0 <= i < ss.len(),
    ensures
        joined(ss.take(i + 1)) == joined(ss.take(i)) + encode_utf8(ss[i]),
{
    assert(ss.take(i + 1) =~= ss.take(i).push(ss[i]));
    lemma_joined_push(ss.take(i), ss[i]);
}

/// `joined` splits at any point into the join of a prefix and a suffix.
proof fn lemma_joined_split(ss: Seq<Seq<char>>, k: int)
    requires
        0 <= k <= ss.len(),
    ensures
        joined(ss) == joined(ss.take(k)) + joined(ss.skip(k)),
    decreases ss.len(),
{
    if k == ss.len() {
        assert(ss.take(k) =~= ss);
        assert(ss.skip(k) =~= Seq::<Seq<char>>::empty());
        assert(joined(ss.take(k)) + joined(ss.skip(k)) =~= joined(ss));
    } else {
        let dl = ss.drop_last();
        lemma_joined_split(dl, k);
        assert(dl.take(k) =~= ss.take(k));
        assert(ss.skip(k) =~= dl.skip(k).push(ss.last()));
        lemma_joined_push(dl.skip(k), ss.last());
        assert(joined(ss.take(k)) + joined(ss.skip(k)) =~= (joined(ss.take(k)) + joined(
            dl.skip(k),
        )) + encode_utf8(ss.last()));
    }
}

/// Longer prefixes of the join are at least as long.
proof fn lemma_joined_take_len_monotonic(ss: Seq<Seq<char>>, i: int, j: int)
    requires
        0 <= i <= j <= ss.len(),
    ensures
        joined(ss.take(i)).len() <= joined(ss.take(j)).len(),
    decreases j - i,
{
    if i < j {
        lemma_joined_take_succ(ss, j - 1);
        lemma_joined_take_len_monotonic(ss, i, j - 1);
    }
}

/// Between the lengths of two adjacent prefixes of the join stands exactly
/// the encoding of the string in between.
proof fn lemma_joined_element(ss: Seq<Seq<char>>, i: int)
    requires
        0 <= i < ss.len(),
    ensures
        joined(ss.take(i)).len() + encode_utf8(ss[i]).len() == joined(ss.take(i + 1)).len(),
        joined(ss.take(i + 1)).len() <= joined(ss).len(),
        joined(ss).subrange(
            joined(ss.take(i)).len() as int,
            joined(ss.take(i + 1)).len() as int,
        ) == encode_utf8(ss[i]),
{
    lemma_joined_take_succ(ss, i);
    lemma_joined_split(ss, i + 1);
    assert(ss.take(ss.len() as int) =~= ss);
    lemma_joined_take_len_monotonic(ss, i + 1, ss.len() as int);
    let a = joined(ss.take(i)).len() as int;
    let b = encode_utf8(ss[i]).len() as int;
    assert(joined(ss).subrange(a, a + b) =~= encode_utf8(ss[i]));
}

impl List<u8> {
    /// Build a list from a sequence of text strings: the strings' UTF-8
    /// bytes are appended in order to a growable byte buffer, the running
    /// length is recorded after each string, and both are frozen into owned
    /// buffers. Element `i` of the result is exactly the encoding of string
    /// `i`.
    pub fn from(v: Vec<String>) -> (r: List<u8>)
        requires
            v@.len() < i32::MAX,
            joined(v.deep_view()).len() <= i32::MAX,
        ensures
            r.wf(),
            r.spec_len() == v@.len(),
            r.data@ == joined(v.deep_view()),
            forall|i: int| 0 <= i < v@.len() ==> r.element(i) == encode_utf8(v.deep_view()[i]),
    {
        let ghost vs: Seq<Seq<char>> = v.deep_view();
        let n: usize = v.len();
        let mut offsets: Vec<i32> = Vec::with_capacity(n + 1);
        // Reserving count * average-length up front is only a growth
        // heuristic; correctness does not depend on the chosen capacity.
        let cap: usize = match n.checked_mul(32) {
            Some(c) => c,
            None => n,
        };
        let mut buf: bytes::BytesMut = bytes_mut_with_capacity(cap);
        offsets.push(0i32);
        proof {
            assert(vs.take(0) =~= Seq::<Seq<char>>::empty());
        }
        for i in 0..n
            invariant
                n == v@.len(),
                vs == v.deep_view(),
                v@.len() < i32::MAX,
                joined(vs).len() <= i32::MAX,
                offsets@.len() == i + 1,
                forall|j: int| 0 <= j <= i ==> offsets@[j] as int == joined(vs.take(j)).len(),
                bytes_mut_view(buf) == joined(vs.take(i as int)),
        {
            let s: &String = &v[i];
            proof {
                assert(vs[i as int] == v@[i as int]@);
                lemma_joined_take_succ(vs, i as int);
                lemma_joined_take_len_monotonic(vs, i as int + 1, vs.len() as int);
                assert(vs.take(vs.len() as int) =~= vs);
            }
            bytes_mut_extend(&mut buf, s.as_str().as_bytes());
            let l: usize = bytes_mut_len(&buf);
            offsets.push(l as i32);
        }
        proof {
            assert(vs.take(n as int) =~= vs);
        }
        let data_bytes: bytes::Bytes = bytes_mut_freeze(buf);
        let data_buf: Buffer<u8> = Buffer::from_bytes(data_bytes);
        let off_buf: Buffer<i32> = Buffer::from(offsets);
        let r = List { data: Rc::new(data_buf), offsets: Rc::new(off_buf) };
        proof {
            assert forall|a: int, b: int| 0 <= a <= b < r.offsets@.len() implies r.offsets@[a]
                <= r.offsets@[b] by {
                lemma_joined_take_len_monotonic(vs, a, b);
            }
            assert forall|i: int| 0 <= i < v@.len() implies r.element(i) == encode_utf8(
                vs[i],
            ) by {
                lemma_joined_element(vs, i);
            }
        }
        r
    }

    /// Build a list from borrowed string slices, by owning each string
    /// first; mostly a convenience for small inputs.
    pub fn from_strs(v: Vec<&str>) -> (r: List<u8>)
        requires
            v@.len() < i32::MAX,
            joined(v.deep_view()).len() <= i32::MAX,
        ensures
            r.wf(),
            r.spec_len() == v@.len(),
            r.data@ == joined(v.deep_view()),
            forall|i: int| 0 <= i < v@.len() ==> r.element(i) == encode_utf8(v.deep_view()[i]),
    {
        let n: usize = v.len();
        let mut owned: Vec<String> = Vec::with_capacity(n);
        for i in 0..n
            invariant
                n == v@.len(),
                owned@.len() == i,
                forall|j: int| 0 <= j < i ==> owned@[j]@ == v@[j]@,
        {
            owned.push(v[i].to_owned());
        }
        proof {
            assert(owned.deep_view() =~= v.deep_view());
        }
        List::from(owned)
    }
}

/// Round trip: for a list built from strings (`from` ensures that element
/// `k` is the UTF-8 encoding of string `k`), every element is valid UTF-8
/// and decoding element `i` yields exactly string `i`.
pub proof fn lemma_list_round_trip(ss: Seq<Seq<char>>, l: &List<u8>, i: int)
    requires
        l.spec_len() == ss.len(),
        forall|k: int| 0 <= k < ss.len() ==> l.element(k) == encode_utf8(ss[k]),
        0 <= i < ss.len(),
    ensures
        valid_utf8(l.element(i)),
        decode_utf8(l.element(i)) == ss[i],
{
    encode_utf8_valid_utf8(ss[i]);
    encode_utf8_decode_utf8(ss[i]);
}

/// The offsets invariant spelled out: every constructed list has
/// `length() + 1` offsets, the first is 0, the last is the data buffer's
/// length, and the offsets are non-decreasing.
pub proof fn lemma_offsets_invariant<T>(l: &List<T>)
    requires
        l.wf(),
    ensures
        l.offsets@.len() == l.spec_len() + 1,
        l.offsets@[0] == 0,
        l.offsets@[l.spec_len()] as int == l.data@.len(),
        forall|i: int, j: int|
            0 <= i <= j < l.offsets@.len() ==> l.offsets@[i] <= l.offsets@[j],
        forall|i: int| 0 <= i < l.offsets@.len() ==> l.offsets@[i] >= 0,
{
    assert forall|i: int| 0 <= i < l.offsets@.len() implies l.offsets@[i] >= 0 by {
        assert(l.offsets@[0] <= l.offsets@[i]);
    }
}

} // verus!
