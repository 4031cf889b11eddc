//! A segmented byte buffer with a read cursor that can be saved, restored
//! and committed, so that a decoder may try to read a whole message and
//! step back when the message has not fully arrived yet.
use std::collections::VecDeque;
use vstd::prelude::*;

verus! {

/// Size up to which the last chunk is extended before a new chunk is started.
pub const CHUNK_TARGET: usize = 1024;

/// The bytes of all chunks, in order.
pub open spec fn flat(s: Seq<Vec<u8>>) -> Seq<u8>
    decreases s.len(),
{
    if s.len() == 0 {
        Seq::empty()
    } else {
        flat(s.drop_last()) + s.last()@
    }
}

/// Absolute offset of the position `(chunk, offset in chunk)`.
pub open spec fn offset_of(s: Seq<Vec<u8>>, p: (usize, usize)) -> int {
    flat(s.take(p.0 as int)).len() + p.1
}

/// A position that points into the chunk sequence (or at its start when empty).
pub open spec fn valid_pos(s: Seq<Vec<u8>>, p: (usize, usize)) -> bool {
    if s.len() == 0 {
        p.0 == 0 && p.1 == 0
    } else {
        p.0 < s.len() && p.1 <= s[p.0 as int]@.len()
    }
}

pub proof fn lemma_flat_split(s: Seq<Vec<u8>>, i: int)
    requires
        0 <= i <= s.len(),
    ensures
        flat(s) == flat(s.take(i)) + flat(s.skip(i)),
    decreases s.len(),
{
    if i == s.len() {
        assert(s.take(i) =~= s);
        assert(s.skip(i) =~= Seq::<Vec<u8>>::empty());
        assert(flat(s) + flat(Seq::<Vec<u8>>::empty()) =~= flat(s));
    } else {
        let d = s.drop_last();
        lemma_flat_split(d, i);
        assert(d.take(i) =~= s.take(i));
        assert(s.skip(i).drop_last() =~= d.skip(i));
        assert(s.skip(i).last() == s.last());
        assert(flat(s) =~= flat(s.take(i)) + flat(s.skip(i)));
    }
}

pub proof fn lemma_flat_take_next(s: Seq<Vec<u8>>, i: int)
    requires
        0 <= i < s.len(),
    ensures
        flat(s.take(i + 1)) == flat(s.take(i)) + s[i]@,
{
    assert(s.take(i + 1).drop_last() =~= s.take(i));
}

/// Where a position stands: the bytes of its chunk begin right after the
/// bytes of the chunks before it.
pub proof fn lemma_chunk_in_flat(s: Seq<Vec<u8>>, i: int, j: int)
    requires
        0 <= i < s.len(),
        0 <= j < s[i]@.len(),
    ensures
        flat(s)[flat(s.take(i)).len() + j] == s[i]@[j],
        flat(s.take(i)).len() + s[i]@.len() <= flat(s).len(),
{
    lemma_flat_split(s, i + 1);
    lemma_flat_take_next(s, i);
}

pub proof fn lemma_offset_bound(s: Seq<Vec<u8>>, p: (usize, usize))
    requires
        valid_pos(s, p),
    ensures
        0 <= offset_of(s, p) <= flat(s).len(),
{
    if s.len() > 0 {
        lemma_flat_split(s, p.0 + 1);
        lemma_flat_take_next(s, p.0 as int);
    } else {
        assert(s.take(0) =~= s);
    }
}

pub struct FrameBuffer {
    chunks: VecDeque<Vec<u8>>,
    pos: (usize, usize),
    mark: (usize, usize),
}

impl FrameBuffer {
    pub closed spec fn chunk_seq(&self) -> Seq<Vec<u8>> {
        self.chunks@
    }

    /// Index of the chunk the read cursor is in.
    pub closed spec fn cursor_chunk(&self) -> int {
        self.pos.0 as int
    }

    /// Every byte the buffer holds, read or not.
    pub closed spec fn content(&self) -> Seq<u8> {
        flat(self.chunks@)
    }

    /// Absolute offset of the read cursor in `content()`.
    pub closed spec fn cursor(&self) -> int {
        offset_of(self.chunks@, self.pos)
    }

    /// Absolute offset of the saved cursor in `content()`.
    pub closed spec fn saved(&self) -> int {
        offset_of(self.chunks@, self.mark)
    }

    /// The bytes that lie after the read cursor.
    pub open spec fn unread(&self) -> Seq<u8> {
        self.content().skip(self.cursor())
    }

    pub closed spec fn wf(&self) -> bool {
        &&& valid_pos(self.chunks@, self.pos)
        &&& valid_pos(self.chunks@, self.mark)
        &&& self.chunks@.len() < usize::MAX
    }

    pub proof fn lemma_wf_bounds(&self)
        requires
            self.wf(),
        ensures
            0 <= self.cursor() <= self.content().len(),
            0 <= self.saved() <= self.content().len(),
    {
        lemma_offset_bound(self.chunks@, self.pos);
        lemma_offset_bound(self.chunks@, self.mark);
    }

    pub fn new() -> (r: FrameBuffer)
        ensures
            r.wf(),
            r.content() == Seq::<u8>::empty(),
            r.cursor() == 0,
            r.saved() == 0,
    {
        let r = FrameBuffer { chunks: VecDeque::new(), pos: (0, 0), mark: (0, 0) };
        proof {
            assert(r.chunks@.take(0) =~= Seq::<Vec<u8>>::empty());
        }
        r
    }

    /// Saves the read cursor.
    pub fn checkpoint(&mut self)
        requires
            old(self).wf(),
        ensures
            final(self).wf(),
            final(self).content() == old(self).content(),
            final(self).cursor() == old(self).cursor(),
            final(self).saved() == old(self).cursor(),
    {
        self.mark = self.pos;
    }

    /// Moves the read cursor back to where it was saved.
    pub fn rollback(&mut self)
        requires
            old(self).wf(),
        ensures
            final(self).wf(),
            final(self).content() == old(self).content(),
            final(self).cursor() == old(self).saved(),
            final(self).saved() == old(self).saved(),
    {
        self.pos = self.mark;
    }

    /// Drops the chunks that lie wholly before the chunk of the read cursor.
    /// The unread bytes stay as they were; the saved cursor is set to the
    /// read cursor.
    pub fn commit(&mut self)
        requires
            old(self).wf(),
        ensures
            final(self).wf(),
            final(self).unread() == old(self).unread(),
            final(self).chunk_seq() == old(self).chunk_seq().skip(old(self).cursor_chunk()),
            final(self).saved() == final(self).cursor(),
            final(self).cursor_chunk() == 0,
            final(self).cursor() == old(self).cursor() - flat(
                old(self).chunk_seq().take(old(self).cursor_chunk()),
            ).len(),
    {
        let k = self.pos.0;
        let ghost s0 = self.chunks@;
        let ghost p0 = self.pos;
        let mut i: usize = 0;
        while i < k
            invariant
                0 <= i <= k,
                s0.len() == 0 ==> k == 0,
                s0.len() > 0 ==> k < s0.len(),
                self.chunks@ == s0.skip(i as int),
                self.pos == p0,
                valid_pos(s0, p0),
            decreases k - i,
        {
            self.chunks.pop_front();
            i = i + 1;
            proof {
                assert(self.chunks@ =~= s0.skip(i as int));
            }
        }
        self.pos = (0, self.pos.1);
        self.mark = self.pos;
        proof {
            let s1 = self.chunks@;
            assert(s1 =~= s0.skip(k as int));
            assert(s1.take(0) =~= Seq::<Vec<u8>>::empty());
            lemma_flat_split(s0, k as int);
            if s0.len() > 0 {
                assert(s1[0] == s0[k as int]);
            }
            let a = flat(s0.take(k as int));
            let b = flat(s1);
            lemma_offset_bound(s1, self.pos);
            assert((a + b).skip(a.len() + self.pos.1) =~= b.skip(self.pos.1 as int));
        }
    }

    /// Appends bytes. The last chunk is extended while it is below the
    /// target size (or when no further chunk can be counted); otherwise a
    /// new chunk is started.
    pub fn write(&mut self, bytes: &[u8])
        requires
            old(self).wf(),
        ensures
            final(self).wf(),
            final(self).content() == old(self).content() + bytes@,
            final(self).cursor() == old(self).cursor(),
            final(self).saved() == old(self).saved(),
            final(self).unread() == old(self).unread() + bytes@,
            bytes@.len() == 0 ==> final(self).chunk_seq() == old(self).chunk_seq(),
            ({
                let c = old(self).chunk_seq();
                let d = final(self).chunk_seq();
                bytes@.len() > 0 && c.len() > 0 && (c.last()@.len() < CHUNK_TARGET || c.len() >= usize::MAX - 1) ==> {
                    &&& d.len() == c.len()
                    &&& d.last()@ == c.last()@ + bytes@
                    &&& d.drop_last() == c.drop_last()
                }
            }),
            ({
                let c = old(self).chunk_seq();
                let d = final(self).chunk_seq();
                bytes@.len() > 0 && !(c.len() > 0 && (c.last()@.len() < CHUNK_TARGET || c.len() >= usize::MAX - 1)) ==> {
                    &&& d.len() == c.len() + 1
                    &&& d.last()@ == bytes@
                    &&& d.drop_last() == c
                }
            }),
    {
        let ghost s0 = self.chunks@;
        proof {
            self.lemma_wf_bounds();
        }
        if bytes.len() > 0 {
            let n = self.chunks.len();
            if n > 0 && (self.chunks[n - 1].len() < CHUNK_TARGET || n >= usize::MAX - 1) {
                let last = self.chunks.pop_back();
                match last {
                    Some(tail) => {
                        let mut tail = tail;
                        tail.extend_from_slice(bytes);
                        self.chunks.push_back(tail);
                    },
                    None => {},
                }
                proof {
                    let s1 = self.chunks@;
                    assert(s1.drop_last() =~= s0.drop_last());
                    assert(s1 =~= s0.update(n - 1, s1.last()));
                    assert forall|i: int| 0 <= i <= n - 1 implies s1.take(i) =~= s0.take(i) by {}
                    assert(flat(s1) =~= flat(s0) + bytes@);
                }
            } else {
                let mut v: Vec<u8> = Vec::new();
                v.extend_from_slice(bytes);
                self.chunks.push_back(v);
                proof {
                    let s1 = self.chunks@;
                    assert(s1.drop_last() =~= s0);
                    assert forall|i: int| 0 <= i <= n implies s1.take(i) =~= s0.take(i) by {}
                    assert(flat(s1) =~= flat(s0) + bytes@);
                }
            }
        }
        proof {
            let c = self.cursor();
            assert((flat(s0) + bytes@).skip(c) =~= flat(s0).skip(c) + bytes@);
        }
    }

    /// Copies up to `dst.len()` unread bytes into the front of `dst` and
    /// moves the read cursor past them; returns how many were copied.
    pub fn read(&mut self, dst: &mut Vec<u8>) -> (n: usize)
        requires
            old(self).wf(),
        ensures
            final(self).wf(),
            n as int == if old(dst)@.len() <= old(self).unread().len() {
                old(dst)@.len() as int
            } else {
                old(self).unread().len() as int
            },
            final(dst)@.len() == old(dst)@.len(),
            final(dst)@.take(n as int) == old(self).unread().take(n as int),
            final(dst)@.skip(n as int) == old(dst)@.skip(n as int),
            final(self).content() == old(self).content(),
            final(self).chunk_seq() == old(self).chunk_seq(),
            final(self).cursor() == old(self).cursor() + n,
            final(self).saved() == old(self).saved(),
            final(self).unread() == old(self).unread().skip(n as int),
    {
        let ghost s = self.chunks@;
        let ghost c0 = self.cursor();
        let ghost d0 = dst@;
        proof {
            self.lemma_wf_bounds();
        }
        let mut have: usize = 0;
        if self.chunks.len() == 0 {
            proof {
                assert(dst@.take(0) =~= self.unread().take(0));
                assert(dst@.skip(0) =~= dst@);
                assert(self.unread().skip(0) =~= self.unread());
            }
            return 0;
        }
        while have < dst.len()
            invariant
                self.chunks@ == s,
                s.len() > 0,
                self.wf(),
                self.mark == old(self).mark,
                c0 == offset_of(s, old(self).pos),
                c0 <= flat(s).len(),
                self.cursor() == c0 + have,
                self.cursor() <= flat(s).len(),
                have <= dst@.len(),
                dst@.len() == d0.len(),
                forall|i: int| 0 <= i < have ==> dst@[i] == flat(s)[c0 + i],
                forall|i: int| have <= i < d0.len() ==> dst@[i] == d0[i],
            ensures
                have < dst@.len() ==> self.cursor() == flat(s).len(),
            decreases dst@.len() - have, s.len() - self.pos.0,
        {
            let ci = self.pos.0;
            let off = self.pos.1;
            let clen = self.chunks[ci].len();
            if off < clen {
                let b = self.chunks[ci][off];
                proof {
                    lemma_chunk_in_flat(s, ci as int, off as int);
                }
                dst.set(have, b);
                self.pos = (ci, off + 1);
                have = have + 1;
            } else if ci + 1 < self.chunks.len() {
                proof {
                    lemma_flat_take_next(s, ci as int);
                }
                self.pos = (ci + 1, 0);
            } else {
                proof {
                    lemma_flat_take_next(s, ci as int);
                    assert(s.take(ci + 1) =~= s);
                }
                break;
            }
        }
        proof {
            let u = flat(s).skip(c0);
            if have < d0.len() {
                assert(self.cursor() == flat(s).len());
            }
            assert(dst@.take(have as int) =~= u.take(have as int));
            assert(dst@.skip(have as int) =~= d0.skip(have as int));
            assert(flat(s).skip(c0 + have) =~= u.skip(have as int));
        }
        have
    }

    /// Concatenates every byte the buffer holds, read or not.
    pub fn drain_to_vec(self) -> (r: Vec<u8>)
        requires
            self.wf(),
        ensures
            r@ == self.content(),
    {
        let mut chunks = self.chunks;
        let ghost s = chunks@;
        let mut merged: Vec<u8> = Vec::new();
        let mut i: usize = 0;
        let n = chunks.len();
        while i < n
            invariant
                chunks@ == s,
                n == s.len(),
                i <= n,
                merged@ == flat(s.take(i as int)),
            decreases n - i,
        {
            proof {
                lemma_flat_take_next(s, i as int);
            }
            merged.extend_from_slice(chunks[i].as_slice());
            i = i + 1;
        }
        proof {
            assert(s.take(n as int) =~= s);
        }
        merged
    }
}

} // verus!
