//! The copy of a sparse file: only the segments that hold data are read and
//! written, in chunks, and a chunk of zeros may be left out of the copy.

use vstd::prelude::*;
use vstd::slice::slice_subrange;

verus! {

/// The size of the buffer that chunks are read into.
pub const CHUNK_SIZE: usize = 4096;

/// Whether a segment of a file holds data or is a hole.
#[derive(Clone, Copy, Debug, PartialEq, Eq, Structural)]
pub enum SegmentType {
    Hole,
    Data,
}

/// A run of bytes of a file, from `start` to `end`, both included.
#[derive(Clone, Copy, Debug, PartialEq, Eq, Structural)]
pub struct Segment {
    pub segment_type: SegmentType,
    pub start: u64,
    pub end: u64,
}

/// How many bytes of the segment are to be copied: all of a data segment,
/// none of a hole.
pub open spec fn seg_len(s: Segment) -> nat {
    if s.segment_type == SegmentType::Data && s.end >= s.start {
        (s.end - s.start + 1) as nat
    } else {
        0
    }
}

/// Whether the byte at `p` lies in a data segment.
pub open spec fn in_data(segments: Seq<Segment>, p: int) -> bool {
    exists|i: int|
        0 <= i < segments.len() && (#[trigger] segments[i]).segment_type == SegmentType::Data
            && segments[i].start <= p <= segments[i].end
}

/// Whether every byte is zero.
pub open spec fn all_zero(bytes: Seq<u8>) -> bool {
    forall|i: int| 0 <= i < bytes.len() ==> bytes[i] == 0
}

/// The first segment at or behind `index` of which something is left to
/// copy, where `copied` bytes of the segment at `index` are dealt with; the
/// number of segments where there is none.
pub open spec fn settled(segments: Seq<Segment>, index: nat, copied: nat) -> nat
    decreases segments.len() - index,
{
    if index >= segments.len() {
        segments.len()
    } else if copied < seg_len(segments[index as int]) {
        index
    } else {
        settled(segments, index + 1, 0)
    }
}

/// What the copy asks for next.
#[derive(Clone, Copy, Debug, PartialEq, Eq, Structural)]
pub enum CopyAction {
    /// Move both files to `offset`, then read up to `len` bytes of the source.
    Seek { offset: u64, len: usize },
    /// Read up to `len` more bytes of the source.
    Read { len: usize },
    /// Nothing is left to copy.
    Done,
}

/// What is to be done with a chunk that was read.
#[derive(Clone, Copy, Debug, PartialEq, Eq, Structural)]
pub enum ChunkAction {
    /// Write the chunk to the destination.
    Write,
    /// Move the destination forward by the length of the chunk, writing
    /// nothing.
    Skip,
    /// Nothing was read: the segment has ended.
    End,
}

/// The copy of one file, as far as it has got.
#[derive(Clone, Debug, PartialEq, Eq)]
pub struct SparseCopy {
    segments: Vec<Segment>,
    punch_hole: bool,
    index: usize,
    copied: u64,
    placed: bool,
}

/// How much may be read at once where `copied` bytes of the segment are
/// dealt with: what is left of it, and no more than a buffer holds.
pub open spec fn chunk_len(s: Segment, copied: nat) -> nat {
    if seg_len(s) - copied >= CHUNK_SIZE {
        CHUNK_SIZE as nat
    } else {
        (seg_len(s) - copied) as nat
    }
}

impl SparseCopy {
    pub closed spec fn segments(&self) -> Seq<Segment> {
        self.segments@
    }

    pub closed spec fn punch_hole(&self) -> bool {
        self.punch_hole
    }

    /// The segment the copy stands in.
    pub closed spec fn index(&self) -> nat {
        self.index as nat
    }

    /// How many bytes of that segment are dealt with.
    pub closed spec fn copied(&self) -> nat {
        self.copied as nat
    }

    /// Whether both files stand behind the bytes dealt with.
    pub closed spec fn placed(&self) -> bool {
        self.placed
    }

    /// A copy that has not begun.
    pub fn new(segments: Vec<Segment>, punch_hole: bool) -> (r: Self)
        ensures
            r.segments() == segments@,
            r.punch_hole() == punch_hole,
            r.index() == 0,
            r.copied() == 0,
            !r.placed(),
    {
        SparseCopy { segments, punch_hole, index: 0, copied: 0, placed: false }
    }

    /// What the copy asks for next. Holes and segments that are dealt with
    /// are passed over. In a segment that was not entered yet both files are
    /// moved to its start first.
    pub fn next(&mut self) -> (action: CopyAction)
        ensures
            final(self).segments() == old(self).segments(),
            final(self).punch_hole() == old(self).punch_hole(),
            final(self).index() == settled(
                old(self).segments(),
                old(self).index(),
                old(self).copied(),
            ),
            final(self).index() <= final(self).segments().len(),
            final(self).index() == old(self).index() ==> final(self).copied() == old(self).copied(),
            final(self).index() != old(self).index() ==> final(self).copied() == 0,
            final(self).index() == final(self).segments().len() ==> action == CopyAction::Done
                && final(self).placed() == (old(self).placed() && final(self).index() == old(
                self).index()),
            final(self).index() < final(self).segments().len() ==> {
                let s = final(self).segments()[final(self).index() as int];
                let len = chunk_len(s, final(self).copied());
                &&& final(self).copied() < seg_len(s)
                &&& final(self).placed()
                &&& 0 < len <= CHUNK_SIZE
                &&& if old(self).placed() && final(self).index() == old(self).index() {
                    action == (CopyAction::Read { len: len as usize })
                } else {
                    action == (CopyAction::Seek {
                        offset: (s.start + final(self).copied()) as u64,
                        len: len as usize,
                    })
                }
            },
    {
        while self.index < self.segments.len()
            invariant
                self.segments() == old(self).segments(),
                self.punch_hole() == old(self).punch_hole(),
                old(self).index() <= self.index(),
                self.index() <= self.segments().len() || self.index() == old(self).index(),
                settled(self.segments(), self.index(), self.copied()) == settled(
                    old(self).segments(),
                    old(self).index(),
                    old(self).copied(),
                ),
                self.index() == old(self).index() ==> self.copied() == old(self).copied()
                    && self.placed() == old(self).placed(),
                self.index() != old(self).index() ==> self.copied() == 0 && !self.placed(),
            decreases self.segments.len() - self.index,
        {
            let s = self.segments[self.index];
            if s.segment_type == SegmentType::Data && s.end >= s.start && self.copied <= s.end
                - s.start {
                let left = s.end - s.start - self.copied;
                let len: usize = if left >= 4095 {
                    CHUNK_SIZE
                } else {
                    (left + 1) as usize
                };
                if self.placed {
                    return CopyAction::Read { len };
                }
                self.placed = true;
                return CopyAction::Seek { offset: s.start + self.copied, len };
            }
            self.index = self.index + 1;
            self.copied = 0;
            self.placed = false;
        }
        if self.index > self.segments.len() {
            self.index = self.segments.len();
            self.copied = 0;
            self.placed = false;
        }
        CopyAction::Done
    }

    /// Takes note of the chunk that was read after the last request, and says
    /// what to do with it. An empty chunk ends the segment. A chunk of zeros
    /// is left out of the copy where holes are to be punched; any other is
    /// written.
    pub fn chunk(&mut self, chunk: &[u8]) -> (action: ChunkAction)
        ensures
            final(self).segments() == old(self).segments(),
            final(self).punch_hole() == old(self).punch_hole(),
            old(self).index() >= old(self).segments().len() ==> action == ChunkAction::End
                && final(self).index() == old(self).index() && final(self).copied() == old(
                self).copied() && final(self).placed() == old(self).placed(),
            old(self).index() < old(self).segments().len() && chunk@.len() == 0 ==> action
                == ChunkAction::End && final(self).index() == old(self).index() + 1
                && final(self).copied() == 0 && !final(self).placed(),
            old(self).index() < old(self).segments().len() && chunk@.len() > 0 ==> {
                &&& action == if old(self).punch_hole() && all_zero(chunk@) {
                    ChunkAction::Skip
                } else {
                    ChunkAction::Write
                }
                &&& final(self).index() == old(self).index()
                &&& final(self).placed() == old(self).placed()
                &&& final(self).copied() == if old(self).copied() + chunk@.len() <= u64::MAX {
                    old(self).copied() + chunk@.len()
                } else {
                    u64::MAX as nat
                }
            },
    {
        if self.index >= self.segments.len() {
            return ChunkAction::End;
        }
        if chunk.len() == 0 {
            self.index = self.index + 1;
            self.copied = 0;
            self.placed = false;
            return ChunkAction::End;
        }
        let n = chunk.len() as u64;
        self.copied = if n > u64::MAX - self.copied {
            u64::MAX
        } else {
            self.copied + n
        };
        if self.punch_hole && is_all_zero(chunk) {
            ChunkAction::Skip
        } else {
            ChunkAction::Write
        }
    }
}

/// Whether every byte of the chunk is zero.
pub fn is_all_zero(chunk: &[u8]) -> (r: bool)
    ensures
        r == all_zero(chunk@),
{
    let mut i: usize = 0;
    while i < chunk.len()
        invariant
            i <= chunk.len(),
            forall|j: int| 0 <= j < i ==> chunk@[j] == 0,
        decreases chunk.len() - i,
    {
        if chunk[i] != 0 {
            return false;
        }
        i = i + 1;
    }
    true
}

/// What `settled` finds: the segments it passes over have nothing left to
/// copy, and of the one it stops at something is left.
pub proof fn lemma_settled(segments: Seq<Segment>, index: nat, copied: nat)
    requires
        index <= segments.len(),
    ensures
        index <= settled(segments, index, copied) <= segments.len(),
        settled(segments, index, copied) > index ==> copied >= seg_len(segments[index as int]),
        forall|j: int|
            index < j < settled(segments, index, copied) ==> seg_len(#[trigger] segments[j]) == 0,
        settled(segments, index, copied) < segments.len() ==> (if settled(segments, index, copied)
            == index {
            copied
        } else {
            0
        }) < seg_len(segments[settled(segments, index, copied) as int]),
    decreases segments.len() - index,
{
    if index < segments.len() && copied >= seg_len(segments[index as int]) {
        lemma_settled(segments, index + 1, 0);
    }
}

/// Copies `src` as a file would be copied whose data lies in `segments`:
/// the copy is as long as `src`, holds the bytes of `src` wherever a data
/// segment lies and zeros elsewhere. So where `src` is zero outside its data
/// segments, as a file is in its holes, the copy equals `src`, whether or not
/// chunks of zeros are left out.
pub fn copy_sparse_file(src: &Vec<u8>, segments: Vec<Segment>, punch_hole: bool) -> (dst: Vec<u8>)
    ensures
        dst@.len() == src@.len(),
        forall|p: int|
            0 <= p < src@.len() ==> dst@[p] == if in_data(segments@, p) {
                src@[p]
            } else {
                0u8
            },
        (forall|p: int| 0 <= p < src@.len() && !in_data(segments@, p) ==> src@[p] == 0) ==> dst@
            == src@,
{
    let reads: Vec<usize> = Vec::new();
    copy_sparse_with_reads(src, segments, punch_hole, &reads)
}

/// Copies as `copy_sparse_file` does, with reads that may come short: the
/// reads return, one after the other and over again, as many bytes as
/// `reads` says, but at least one and no more than were asked for and are
/// left of `src`. The copy is the same whatever the reads return.
pub fn copy_sparse_with_reads(
    src: &Vec<u8>,
    segments: Vec<Segment>,
    punch_hole: bool,
    reads: &Vec<usize>,
) -> (dst: Vec<u8>)
    ensures
        dst@.len() == src@.len(),
        forall|p: int|
            0 <= p < src@.len() ==> dst@[p] == if in_data(segments@, p) {
                src@[p]
            } else {
                0u8
            },
        (forall|p: int| 0 <= p < src@.len() && !in_data(segments@, p) ==> src@[p] == 0) ==> dst@
            == src@,
{
    let total = src.len();
    let ghost segs = segments@;
    let mut dst: Vec<u8> = Vec::new();
    while dst.len() < total
        invariant
            dst@.len() <= total,
            forall|p: int| 0 <= p < dst@.len() ==> dst@[p] == 0,
        decreases total - dst.len(),
    {
        dst.push(0);
    }
    let mut copy = SparseCopy::new(segments, punch_hole);
    let mut pos: usize = 0;
    let mut beyond: bool = false;
    let mut turn: usize = 0;
    loop
        invariant
            total == src@.len(),
            dst@.len() == src@.len(),
            copy.segments() == segs,
            copy.punch_hole() == punch_hole,
            copy.index() <= segs.len(),
            copy.index() < segs.len() ==> copy.copied() <= seg_len(segs[copy.index() as int]),
            copy.index() < segs.len() && copy.placed() ==> !beyond && pos == segs[copy.index() as int].start
                + copy.copied(),
            forall|p: int| 0 <= p < total && !in_data(segs, p) ==> dst@[p] == 0,
            forall|p: int| 0 <= p < total ==> dst@[p] == src@[p] || dst@[p] == 0,
            forall|j: int, p: int|
                0 <= j < copy.index() && 0 <= p < total && (#[trigger] segs[j]).segment_type
                    == SegmentType::Data && segs[j].start <= p <= segs[j].end ==> #[trigger] dst@[p]
                    == src@[p],
            copy.index() < segs.len() ==> forall|p: int|
                0 <= p < total && segs[copy.index() as int].start <= p < segs[copy.index() as int].start
                    + copy.copied() ==> #[trigger] dst@[p] == src@[p],
        ensures
            copy.index() == segs.len(),
        decreases
                segs.len() - copy.index(),
                (if copy.index() < segs.len() {
                    seg_len(segs[copy.index() as int]) - copy.copied()
                } else {
                    0
                }),
    {
        let ghost before_index = copy.index();
        let ghost before_copied = copy.copied();
        proof {
            lemma_settled(segs, before_index, before_copied);
        }
        let action = copy.next();
        proof {
            assert forall|j: int, p: int|
                0 <= j < copy.index() && 0 <= p < total && (#[trigger] segs[j]).segment_type
                    == SegmentType::Data && segs[j].start <= p <= segs[j].end implies #[trigger] dst@[p]
                == src@[p] by {
                if j > before_index {
                    assert(seg_len(segs[j]) == 0);
                } else if j == before_index {
                    assert(before_copied >= seg_len(segs[j]));
                }
            }
        }
        let len: usize = match action {
            CopyAction::Done => {
                break ;
            },
            CopyAction::Seek { offset, len } => {
                if offset > usize::MAX as u64 {
                    beyond = true;
                    pos = 0;
                } else {
                    beyond = false;
                    pos = offset as usize;
                }
                len
            },
            CopyAction::Read { len } => len,
        };
        let ghost s = segs[copy.index() as int];
        let ghost here = s.start + copy.copied();
        proof {
            assert(!beyond ==> pos == here);
            assert(beyond ==> here > usize::MAX);
        }
        let avail: usize = if !beyond && pos < total {
            total - pos
        } else {
            0
        };
        let most: usize = if len < avail {
            len
        } else {
            avail
        };
        let wanted: usize = if reads.len() > 0 {
            reads[turn % reads.len()]
        } else {
            most
        };
        turn = if turn < usize::MAX {
            turn + 1
        } else {
            0
        };
        let n: usize = if wanted >= most {
            most
        } else if wanted == 0 && most > 0 {
            1
        } else {
            wanted
        };
        let start: usize = if n > 0 {
            pos
        } else {
            0
        };
        let chunk = slice_subrange(src.as_slice(), start, start + n);
        let verdict = copy.chunk(chunk);
        match verdict {
            ChunkAction::Write => {
                let ghost old_dst = dst@;
                let mut k: usize = 0;
                while k < n
                    invariant
                        k <= n,
                        n > 0,
                        start == pos,
                        pos + n <= total,
                        total == src@.len(),
                        dst@.len() == src@.len(),
                        old_dst.len() == src@.len(),
                        forall|p: int| pos <= p < pos + k ==> dst@[p] == src@[p],
                        forall|p: int|
                            0 <= p < total && !(pos <= p < pos + k) ==> dst@[p] == old_dst[p],
                    decreases n - k,
                {
                    dst.set(pos + k, src[pos + k]);
                    k = k + 1;
                }
                proof {
                    assert forall|p: int| 0 <= p < total && !in_data(segs, p) implies dst@[p]
                        == 0 by {
                        if pos <= p < pos + n {
                            assert(segs[copy.index() as int].segment_type == SegmentType::Data);
                            assert(in_data(segs, p));
                        }
                    }
                }
                pos = pos + n;
            },
            ChunkAction::Skip => {
                proof {
                    assert forall|p: int| pos <= p < pos + n implies dst@[p] == src@[p] by {
                        assert(chunk@[p - pos] == 0);
                        assert(chunk@[p - pos] == src@[p]);
                    }
                }
                pos = pos + n;
            },
            ChunkAction::End => {
                proof {
                    assert(avail == 0);
                    assert forall|j: int, p: int|
                        0 <= j < copy.index() && 0 <= p < total && (#[trigger] segs[j]).segment_type
                            == SegmentType::Data && segs[j].start <= p <= segs[j].end implies #[trigger] dst@[p]
                        == src@[p] by {
                        if j == copy.index() - 1 {
                            assert(p < here);
                        }
                    }
                }
            },
        }
    }
    proof {
        assert forall|p: int| 0 <= p < src@.len() implies dst@[p] == if in_data(segs, p) {
            src@[p]
        } else {
            0u8
        } by {
            if in_data(segs, p) {
                let i = choose|i: int|
                    0 <= i < segs.len() && (#[trigger] segs[i]).segment_type == SegmentType::Data
                        && segs[i].start <= p <= segs[i].end;
                assert(dst@[p] == src@[p]);
            }
        }
        if forall|p: int| 0 <= p < src@.len() && !in_data(segs, p) ==> src@[p] == 0 {
            assert(dst@ =~= src@);
        }
    }
    dst
}

} // verus!
