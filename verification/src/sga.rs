use vstd::prelude::*;

verus! {

/// The bytes of segments `k..` of a segment list, in order.
pub open spec fn suffix_flat(segs: Seq<Seq<u8>>, k: int) -> Seq<u8>
    decreases segs.len() - k,
{
    if k < 0 || k >= segs.len() {
        Seq::empty()
    } else {
        segs[k] + suffix_flat(segs, k + 1)
    }
}

/// Total byte count of segments `k..`.
pub proof fn lemma_suffix_flat_len(segs: Seq<Seq<u8>>, k: int)
    ensures
        suffix_flat(segs, k).len() == if k < 0 || k >= segs.len() {
            0int
        } else {
            segs[k].len() + suffix_flat(segs, k + 1).len() as int
        },
    decreases segs.len() - k,
{
}

/// Every suffix flattening is no longer than the whole flattening.
pub proof fn lemma_suffix_le_whole(segs: Seq<Seq<u8>>, k: int)
    requires
        k >= 0,
    ensures
        suffix_flat(segs, k).len() <= suffix_flat(segs, 0).len(),
    decreases k,
{
    if k > 0 {
        lemma_suffix_le_whole(segs, k - 1);
        if k - 1 < segs.len() {
            assert(suffix_flat(segs, k - 1) == segs[k - 1] + suffix_flat(segs, k));
        } else {
            assert(suffix_flat(segs, k) == Seq::<u8>::empty());
        }
    }
}

/// A scatter-gather buffer: the multi-segment byte payload a push hands to
/// the engine and a pop receives from it, modelled as owned segments.
pub struct SgArray {
    pub segs: Vec<Vec<u8>>,
}

impl SgArray {
    /// The segments as mathematical sequences.
    pub open spec fn view_segs(self) -> Seq<Seq<u8>> {
        self.segs.deep_view()
    }

    /// All payload bytes in order.
    pub open spec fn flat(self) -> Seq<u8> {
        suffix_flat(self.view_segs(), 0)
    }

    /// Allocates a buffer of `size` zeroed bytes in a single segment.
    pub fn new(size: usize) -> (r: SgArray)
        ensures
            r.flat() == Seq::new(size as nat, |i: int| 0u8),
            r.segs.len() == 1,
    {
        let seg: Vec<u8> = vec![0u8; size];
        let mut segs: Vec<Vec<u8>> = Vec::new();
        segs.push(seg);
        let r = SgArray { segs };
        proof {
            assert(r.view_segs().len() == 1);
            assert(r.view_segs()[0] == Seq::new(size as nat, |i: int| 0u8));
            assert(r.flat() == r.view_segs()[0] + suffix_flat(r.view_segs(), 1));
            assert(suffix_flat(r.view_segs(), 1) =~= Seq::<u8>::empty());
            assert(r.flat() =~= Seq::new(size as nat, |i: int| 0u8));
        }
        r
    }

    /// Wraps segments received from the engine (the payload of a pop).
    pub fn from_segments(segs: Vec<Vec<u8>>) -> (r: SgArray)
        ensures
            r.view_segs() == segs.deep_view(),
            r.segs == segs,
    {
        SgArray { segs }
    }

    /// Total number of payload bytes.
    pub fn len(&self) -> (r: usize)
        requires
            self.flat().len() <= usize::MAX,
        ensures
            r == self.flat().len(),
    {
        let mut total: usize = 0;
        let mut i: usize = 0;
        while i < self.segs.len()
            invariant
                0 <= i <= self.segs.len(),
                self.flat().len() <= usize::MAX,
                total == self.flat().len() - suffix_flat(self.view_segs(), i as int).len(),
            decreases self.segs.len() - i,
        {
            proof {
                lemma_suffix_flat_len(self.view_segs(), i as int);
                lemma_suffix_le_whole(self.view_segs(), i as int);
                assert(self.view_segs()[i as int] == self.segs[i as int]@);
            }
            total = total + self.segs[i].len();
            i = i + 1;
        }
        proof {
            assert(suffix_flat(self.view_segs(), i as int) =~= Seq::<u8>::empty());
        }
        total
    }

    /// Copies `src` into a fresh single-segment buffer, as a write does with
    /// the caller's bytes.
    pub fn from_slice(src: &Vec<u8>) -> (r: SgArray)
        ensures
            r.flat() == src@,
            r.segs.len() == 1,
    {
        let mut seg: Vec<u8> = Vec::new();
        let mut i: usize = 0;
        while i < src.len()
            invariant
                0 <= i <= src.len(),
                seg@ == src@.take(i as int),
            decreases src.len() - i,
        {
            seg.push(src[i]);
            i = i + 1;
            proof {
                assert(seg@ =~= src@.take(i as int));
            }
        }
        let mut segs: Vec<Vec<u8>> = Vec::new();
        segs.push(seg);
        let r = SgArray { segs };
        proof {
            assert(src@.take(src.len() as int) =~= src@);
            assert(r.view_segs().len() == 1);
            assert(r.view_segs()[0] == src@);
            assert(r.flat() == r.view_segs()[0] + suffix_flat(r.view_segs(), 1));
            assert(suffix_flat(r.view_segs(), 1) =~= Seq::<u8>::empty());
            assert(r.flat() =~= src@);
        }
        r
    }

    /// Gathers a list of byte runs (the caller's iovecs) into a fresh
    /// buffer, as a writev does.
    pub fn from_slices(srcs: &Vec<Vec<u8>>) -> (r: SgArray)
        requires
            suffix_flat(srcs.deep_view(), 0).len() <= usize::MAX,
        ensures
            r.flat() == suffix_flat(srcs.deep_view(), 0),
    {
        let flat = gather(srcs);
        SgArray::from_slice(&flat)
    }

    /// Overwrites the payload with the leading bytes of `src`, keeping the
    /// segment structure; the source must cover the whole buffer.
    pub fn fill(&mut self, src: &Vec<u8>)
        requires
            old(self).flat().len() <= src@.len(),
        ensures
            final(self).segs.len() == old(self).segs.len(),
            forall|k: int|
                0 <= k < final(self).view_segs().len() ==> #[trigger] final(self).view_segs()[k].len()
                    == old(self).view_segs()[k].len(),
            final(self).flat() == src@.take(old(self).flat().len() as int),
    {
        let ghost old_segs = old(self).view_segs();
        let ghost total = old(self).flat().len() as int;
        let srclen = src.len();
        proof {
            lemma_suffix_le_whole(old_segs, 0);
        }
        let mut offset: usize = 0;
        let mut i: usize = 0;
        while i < self.segs.len()
            invariant
                self.segs.len() == old_segs.len(),
                old_segs == old(self).view_segs(),
                total == suffix_flat(old_segs, 0).len(),
                total <= src@.len(),
                src@.len() == srclen,
                0 <= i <= self.segs.len(),
                offset == seg_start(old_segs, i as int),
                0 <= offset <= total,
                forall|k: int| i <= k < self.segs.len() ==> #[trigger] self.view_segs()[k] == old_segs[k],
                forall|k: int|
                    0 <= k < i ==> #[trigger] self.view_segs()[k] == src@.subrange(
                        seg_start(old_segs, k),
                        seg_start(old_segs, k) + old_segs[k].len(),
                    ),
            decreases self.segs.len() - i,
        {
            proof {
                lemma_suffix_flat_len(old_segs, i as int);
                lemma_suffix_le_whole(old_segs, i as int);
                lemma_suffix_le_whole(old_segs, i + 1);
                assert(self.view_segs()[i as int] == old_segs[i as int]);
                assert(self.segs[i as int]@ == old_segs[i as int]);
                assert(offset + old_segs[i as int].len() <= total);
            }
            let seg_len = self.segs[i].len();
            let mut seg: Vec<u8> = Vec::new();
            let mut t: usize = 0;
            while t < seg_len
                invariant
                    0 <= t <= seg_len,
                    offset + seg_len <= total <= src@.len(),
                    src@.len() == srclen,
                    seg@ == src@.subrange(offset as int, offset + t),
                decreases seg_len - t,
            {
                seg.push(src[offset + t]);
                t = t + 1;
                proof {
                    assert(seg@ =~= src@.subrange(offset as int, offset + t));
                }
            }
            let ghost segs0 = self.segs@;
            let ghost view0 = self.view_segs();
            let r = &mut self.segs[i];
            *r = seg;
            offset = offset + seg_len;
            i = i + 1;
            proof {
                lemma_suffix_flat_len(old_segs, i - 1);
                assert(self.view_segs()[i - 1] == self.segs@[i - 1]@);
                assert(self.view_segs()[i - 1] =~= src@.subrange(
                    seg_start(old_segs, i - 1),
                    seg_start(old_segs, i - 1) + old_segs[i - 1].len(),
                ));
                assert forall|k: int| i <= k < self.segs.len() implies #[trigger] self.view_segs()[k]
                    == old_segs[k] by {
                    assert(self.segs@[k] == segs0[k]);
                    assert(self.view_segs()[k] == self.segs@[k]@);
                    assert(view0[k] == segs0[k]@);
                }
                assert forall|k: int|
                    0 <= k < i - 1 implies #[trigger] self.view_segs()[k] == src@.subrange(
                    seg_start(old_segs, k),
                    seg_start(old_segs, k) + old_segs[k].len(),
                ) by {
                    assert(self.segs@[k] == segs0[k]);
                    assert(self.view_segs()[k] == self.segs@[k]@);
                    assert(view0[k] == segs0[k]@);
                }
            }
        }
        proof {
            lemma_filled_suffix(self.view_segs(), old_segs, src@, 0);
            assert(src@.subrange(0, total) =~= src@.take(total));
            assert forall|k: int| 0 <= k < self.view_segs().len() implies #[trigger] self
                .view_segs()[k].len() == old_segs[k].len() by {
                lemma_suffix_flat_len(old_segs, k);
                lemma_suffix_le_whole(old_segs, k);
                lemma_suffix_le_whole(old_segs, k + 1);
                assert(self.view_segs()[k] == src@.subrange(
                    seg_start(old_segs, k),
                    seg_start(old_segs, k) + old_segs[k].len(),
                ));
            }
        }
    }

    /// Gathers the caller's iovecs and writes them over the payload, as a
    /// writev does with an already-allocated buffer.
    pub fn fill_from_slices(&mut self, srcs: &Vec<Vec<u8>>)
        requires
            suffix_flat(srcs.deep_view(), 0).len() <= usize::MAX,
            old(self).flat().len() <= suffix_flat(srcs.deep_view(), 0).len(),
        ensures
            final(self).segs.len() == old(self).segs.len(),
            forall|k: int|
                0 <= k < final(self).view_segs().len() ==> #[trigger] final(self).view_segs()[k].len()
                    == old(self).view_segs()[k].len(),
            final(self).flat() == suffix_flat(srcs.deep_view(), 0).take(
                old(self).flat().len() as int,
            ),
    {
        let flat = gather(srcs);
        self.fill(&flat);
    }

    pub fn segments(&self) -> (r: &Vec<Vec<u8>>)
        ensures
            r == &self.segs,
    {
        &self.segs
    }

    /// Starts a byte cursor over the buffer, for draining a pop payload.
    pub fn into_iter(self) -> (r: SgArrayByteIter)
        ensures
            r.wf(),
            r.sga == self,
            r.seg_off == 0,
            r.byte_off == 0,
            r.remaining() == self.flat(),
    {
        SgArrayByteIter::new(self)
    }
}

/// Concatenates byte runs into one flat run, in order.
pub fn gather(srcs: &Vec<Vec<u8>>) -> (r: Vec<u8>)
    requires
        suffix_flat(srcs.deep_view(), 0).len() <= usize::MAX,
    ensures
        r@ == suffix_flat(srcs.deep_view(), 0),
{
    let ghost whole = suffix_flat(srcs.deep_view(), 0);
    let mut out: Vec<u8> = Vec::new();
    let mut i: usize = 0;
    while i < srcs.len()
        invariant
            0 <= i <= srcs.len(),
            whole == suffix_flat(srcs.deep_view(), 0),
            whole.len() <= usize::MAX,
            out@ + suffix_flat(srcs.deep_view(), i as int) == whole,
        decreases srcs.len() - i,
    {
        let ghost pre = out@;
        let mut j: usize = 0;
        proof {
            lemma_suffix_flat_len(srcs.deep_view(), i as int);
            lemma_suffix_le_whole(srcs.deep_view(), i as int);
            assert(srcs.deep_view()[i as int] == srcs[i as int]@);
            assert(pre.take(0) =~= Seq::<u8>::empty());
            assert(pre + srcs.deep_view()[i as int].take(0) =~= pre);
        }
        while j < srcs[i].len()
            invariant
                0 <= i < srcs.len(),
                0 <= j <= srcs[i as int].len(),
                srcs.deep_view()[i as int] == srcs[i as int]@,
                out@ == pre + srcs.deep_view()[i as int].take(j as int),
                pre + suffix_flat(srcs.deep_view(), i as int) == whole,
                suffix_flat(srcs.deep_view(), i as int).len() >= srcs[i as int]@.len(),
                whole.len() <= usize::MAX,
                whole == suffix_flat(srcs.deep_view(), 0),
            decreases srcs[i as int].len() - j,
        {
            out.push(srcs[i][j]);
            j = j + 1;
            proof {
                assert(out@ =~= pre + srcs.deep_view()[i as int].take(j as int));
            }
        }
        i = i + 1;
        proof {
            let dv = srcs.deep_view();
            assert(dv[i - 1].take(dv[i - 1].len() as int) =~= dv[i - 1]);
            assert(suffix_flat(dv, i - 1) == dv[i - 1] + suffix_flat(dv, i as int));
            assert(out@ + suffix_flat(dv, i as int) =~= whole);
        }
    }
    proof {
        assert(suffix_flat(srcs.deep_view(), i as int) =~= Seq::<u8>::empty());
        assert(out@ =~= whole);
    }
    out
}


/// Where segment `k`'s bytes start inside the flat payload.
pub open spec fn seg_start(segs: Seq<Seq<u8>>, k: int) -> int {
    suffix_flat(segs, 0).len() - suffix_flat(segs, k).len()
}

/// Replacing every segment by the matching window of `src` makes the flat
/// payload the matching prefix of `src`.
proof fn lemma_filled_suffix(cur: Seq<Seq<u8>>, old_segs: Seq<Seq<u8>>, src: Seq<u8>, k: int)
    requires
        cur.len() == old_segs.len(),
        forall|m: int|
            0 <= m < cur.len() ==> #[trigger] cur[m] == src.subrange(
                seg_start(old_segs, m),
                seg_start(old_segs, m) + old_segs[m].len(),
            ),
        suffix_flat(old_segs, 0).len() <= src.len(),
        0 <= k <= cur.len(),
    ensures
        suffix_flat(cur, k) == src.subrange(
            seg_start(old_segs, k),
            suffix_flat(old_segs, 0).len() as int,
        ),
    decreases cur.len() - k,
{
    let total = suffix_flat(old_segs, 0).len() as int;
    lemma_suffix_le_whole(old_segs, k);
    if k == cur.len() {
        assert(suffix_flat(old_segs, k).len() == 0);
        assert(suffix_flat(cur, k) =~= src.subrange(total, total));
    } else {
        lemma_filled_suffix(cur, old_segs, src, k + 1);
        lemma_suffix_flat_len(old_segs, k);
        lemma_suffix_le_whole(old_segs, k + 1);
        assert(seg_start(old_segs, k) + old_segs[k].len() == seg_start(old_segs, k + 1));
        assert(suffix_flat(cur, k) == cur[k] + suffix_flat(cur, k + 1));
        assert(src.subrange(seg_start(old_segs, k), seg_start(old_segs, k) + old_segs[k].len())
            + src.subrange(seg_start(old_segs, k + 1), total) =~= src.subrange(
            seg_start(old_segs, k),
            total,
        ));
    }
}


/// Total of the first `k` run lengths of an iovec list.
pub open spec fn spec_len_sum(lens: Seq<usize>, k: int) -> int
    decreases k,
{
    if k <= 0 {
        0
    } else {
        spec_len_sum(lens, k - 1) + lens[k - 1]
    }
}

/// The partial length sums are non-negative and monotone.
pub proof fn lemma_len_sum_nonneg(lens: Seq<usize>, k: int)
    ensures
        spec_len_sum(lens, k) >= 0,
    decreases k,
{
    if k > 0 {
        lemma_len_sum_nonneg(lens, k - 1);
    }
}

pub proof fn lemma_len_sum_mono(lens: Seq<usize>, a: int, b: int)
    requires
        0 <= a <= b,
    ensures
        spec_len_sum(lens, a) <= spec_len_sum(lens, b),
    decreases b,
{
    if b > a {
        lemma_len_sum_mono(lens, a, b - 1);
    }
}

/// The exact cursor position after copying up to `n` bytes out: within the
/// current segment when it holds more than `n` unread bytes, advanced past
/// each segment it drains (and past exhausted segments on the way), and
/// stopped right after the byte that filled the request.
pub open spec fn spec_after_copy(it: SgArrayByteIter, n: int) -> SgArrayByteIter
    decreases n, it.sga.segs.len() - it.seg_off,
{
    if n <= 0 || it.seg_off >= it.sga.segs.len() {
        it
    } else {
        let seg_len = it.sga.view_segs()[it.seg_off as int].len() as int;
        let left = if it.byte_off <= seg_len {
            seg_len - it.byte_off
        } else {
            0
        };
        if left <= 0 {
            spec_after_copy(
                SgArrayByteIter { seg_off: (it.seg_off + 1) as usize, byte_off: 0, ..it },
                n,
            )
        } else if n < left {
            SgArrayByteIter { byte_off: (it.byte_off + n) as usize, ..it }
        } else if n == left {
            SgArrayByteIter { seg_off: (it.seg_off + 1) as usize, byte_off: 0, ..it }
        } else {
            spec_after_copy(
                SgArrayByteIter { seg_off: (it.seg_off + 1) as usize, byte_off: 0, ..it },
                n - left,
            )
        }
    }
}

/// The exact cursor position after filling runs of the given lengths in
/// order, stopping once the cursor passes the end.
pub open spec fn spec_after_iovecs(it: SgArrayByteIter, lens: Seq<usize>) -> SgArrayByteIter
    decreases lens.len(),
{
    if lens.len() == 0 || it.seg_off >= it.sga.segs.len() {
        it
    } else {
        spec_after_iovecs(spec_after_copy(it, lens[0] as int), lens.skip(1))
    }
}

/// A byte cursor over a scatter-gather buffer: the pair of a segment offset
/// and a byte offset inside that segment, advancing as reads drain the
/// payload.
pub struct SgArrayByteIter {
    pub sga: SgArray,
    pub seg_off: usize,
    pub byte_off: usize,
}

impl SgArrayByteIter {
    pub open spec fn wf(self) -> bool {
        &&& self.seg_off <= self.sga.segs.len()
        &&& (self.seg_off < self.sga.segs.len() ==> self.byte_off
            <= self.sga.view_segs()[self.seg_off as int].len())
        &&& (self.seg_off >= self.sga.segs.len() ==> self.byte_off == 0)
    }

    /// The bytes not yet handed out.
    pub open spec fn remaining(self) -> Seq<u8> {
        if self.seg_off >= self.sga.segs.len() {
            Seq::empty()
        } else {
            self.sga.view_segs()[self.seg_off as int].skip(self.byte_off as int) + suffix_flat(
                self.sga.view_segs(),
                self.seg_off + 1,
            )
        }
    }

    pub fn new(sga: SgArray) -> (r: SgArrayByteIter)
        ensures
            r.wf(),
            r.sga == sga,
            r.seg_off == 0,
            r.byte_off == 0,
            r.remaining() == sga.flat(),
    {
        let r = SgArrayByteIter { sga, seg_off: 0, byte_off: 0 };
        proof {
            if r.sga.segs.len() > 0 {
                assert(r.sga.view_segs()[0].skip(0) =~= r.sga.view_segs()[0]);
                assert(r.remaining() =~= r.sga.flat());
            } else {
                assert(r.remaining() =~= r.sga.flat());
            }
        }
        r
    }

    /// Whether the cursor has moved past the last segment. (Trailing
    /// zero-length segments can leave this false with no byte remaining.)
    pub fn is_empty(&self) -> (r: bool)
        ensures
            r == (self.seg_off >= self.sga.segs.len()),
    {
        self.seg_off >= self.sga.segs.len()
    }

    /// Copies up to `max` of the remaining bytes out, advancing the cursor.
    /// Returns `None` when the cursor was already past the end; otherwise
    /// the next `min(max, remaining)` bytes. A short result (fewer than
    /// `max` bytes) means the cursor is now past the end.
    pub fn copy_bytes(&mut self, max: usize) -> (r: Option<Vec<u8>>)
        requires
            old(self).wf(),
        ensures
            final(self).wf(),
            final(self).sga == old(self).sga,
            *final(self) == spec_after_copy(*old(self), max as int),
            match r {
                Option::Some(v) => {
                    &&& old(self).seg_off < old(self).sga.segs.len()
                    &&& v@.len() == vstd::math::min(max as int, old(self).remaining().len() as int)
                    &&& v@ == old(self).remaining().take(v@.len() as int)
                    &&& final(self).remaining() == old(self).remaining().skip(v@.len() as int)
                    &&& (v@.len() < max ==> final(self).seg_off >= final(self).sga.segs.len())
                },
                Option::None => {
                    &&& old(self).seg_off >= old(self).sga.segs.len()
                    &&& *final(self) == *old(self)
                },
            },
    {
        if self.seg_off >= self.sga.segs.len() {
            proof {
                assert(spec_after_copy(*old(self), max as int) == *old(self));
            }
            return None;
        }
        let ghost rem0 = old(self).remaining();
        let mut out: Vec<u8> = Vec::new();
        proof {
            assert(rem0.skip(0) =~= rem0);
            assert(rem0.take(0) =~= Seq::<u8>::empty());
        }
        while out.len() < max && self.seg_off < self.sga.segs.len()
            invariant
                self.wf(),
                self.sga == old(self).sga,
                out.len() <= max,
                out.len() <= rem0.len(),
                out@ == rem0.take(out.len() as int),
                self.remaining() == rem0.skip(out.len() as int),
                spec_after_copy(*old(self), max as int) == spec_after_copy(
                    *self,
                    max - out.len(),
                ),
            decreases max - out.len(), self.sga.segs.len() - self.seg_off,
        {
            let ghost cur = *self;
            let ghost want0 = max - out.len();
            let seg_len = self.sga.segs[self.seg_off].len();
            if seg_len == self.byte_off {
                proof {
                    lemma_advance_segment(*self);
                }
                self.seg_off = self.seg_off + 1;
                self.byte_off = 0;
                proof {
                    assert(spec_after_copy(cur, want0 as int) == spec_after_copy(
                        *self,
                        want0 as int,
                    ));
                }
                continue ;
            }
            let left = seg_len - self.byte_off;
            let want = max - out.len();
            let copy_len = if left < want {
                left
            } else {
                want
            };
            let ghost base = out.len() as int;
            let ghost seg = self.sga.view_segs()[self.seg_off as int];
            let ghost b0 = self.byte_off as int;
            let ghost k0 = self.seg_off;
            proof {
                lemma_suffix_flat_len(self.sga.view_segs(), k0 + 1);
                assert(self.remaining().len() >= seg.len() - b0);
                assert(rem0.skip(base).len() == rem0.len() - base);
                assert(rem0.len() >= base + left);
            }
            let mut t: usize = 0;
            while t < copy_len
                invariant
                    0 <= base,
                    0 <= t <= copy_len,
                    0 < copy_len <= left,
                    left == seg_len - b0,
                    seg_len == seg.len(),
                    base + copy_len <= max,
                    self.wf(),
                    self.sga == old(self).sga,
                    self.seg_off == k0,
                    k0 < self.sga.segs.len(),
                    self.byte_off == b0,
                    seg == self.sga.view_segs()[k0 as int],
                    out.len() == base + t,
                    out@ == rem0.take(out.len() as int),
                    self.remaining() == rem0.skip(base),
                    rem0.len() >= base + left,
                decreases copy_len - t,
            {
                proof {
                    assert(self.remaining()[t as int] == seg[b0 + t]);
                    assert(0 <= base && base + left <= rem0.len() && 0 <= t < left);
                    assert(rem0.subrange(base, rem0.len() as int)[t as int] == rem0[base + t]);
                    assert(rem0.skip(base)[t as int] == rem0[base + t]);
                }
                let b = self.sga.segs[self.seg_off][self.byte_off + t];
                out.push(b);
                t = t + 1;
                proof {
                    assert(out@ =~= rem0.take(out.len() as int));
                }
            }
            self.byte_off = self.byte_off + copy_len;
            proof {
                lemma_skip_within(self.sga.view_segs(), k0 as int, b0, copy_len as int);
                assert(self.remaining() =~= rem0.skip(out.len() as int));
            }
            if self.byte_off >= seg_len {
                proof {
                    lemma_advance_segment(*self);
                }
                self.seg_off = self.seg_off + 1;
                self.byte_off = 0;
            }
            proof {
                // the cursor moved exactly as the specification's step does
                if copy_len < want0 {
                    assert(copy_len == left);
                    assert(spec_after_copy(cur, want0 as int) == spec_after_copy(
                        *self,
                        want0 - copy_len,
                    ));
                } else {
                    assert(spec_after_copy(cur, want0 as int) == *self);
                    assert(spec_after_copy(*self, 0) == *self);
                }
            }
        }
        proof {
            if out.len() < max {
                assert(self.seg_off >= self.sga.segs.len());
                assert(rem0.skip(out.len() as int).len() == 0);
                assert(rem0.len() == out.len());
            }
            assert(out@.len() == vstd::math::min(max as int, rem0.len() as int));
            if out.len() == max {
                assert(spec_after_copy(*self, 0) == *self);
            } else {
                assert(spec_after_copy(*self, max - out.len()) == *self);
            }
        }
        Some(out)
    }

    /// Copies bytes out into runs of the given lengths (the caller's iovec
    /// lengths), in order, stopping when the cursor passes the end. Returns
    /// `None` when the cursor was already past the end; otherwise exactly
    /// `min(sum of the lengths, bytes remaining)` bytes leave the cursor,
    /// each piece filling its run completely except possibly the last.
    pub fn copy_into_iovecs(&mut self, lens: &Vec<usize>) -> (r: Option<Vec<Vec<u8>>>)
        requires
            old(self).wf(),
        ensures
            final(self).wf(),
            final(self).sga == old(self).sga,
            *final(self) == spec_after_iovecs(*old(self), lens@),
            match r {
                Option::Some(vs) => {
                    &&& old(self).seg_off < old(self).sga.segs.len()
                    &&& vs.len() <= lens.len()
                    &&& suffix_flat(vs.deep_view(), 0).len() == vstd::math::min(
                        spec_len_sum(lens@, lens.len() as int),
                        old(self).remaining().len() as int,
                    )
                    &&& suffix_flat(vs.deep_view(), 0) == old(self).remaining().take(
                        suffix_flat(vs.deep_view(), 0).len() as int,
                    )
                    &&& final(self).remaining() == old(self).remaining().skip(
                        suffix_flat(vs.deep_view(), 0).len() as int,
                    )
                    &&& forall|m: int| 0 <= m < vs.len() ==> (#[trigger] vs@[m])@.len() <= lens[m]
                    &&& forall|m: int|
                        0 <= m < vs.len() - 1 ==> (#[trigger] vs@[m])@.len() == lens[m]
                },
                Option::None => {
                    &&& old(self).seg_off >= old(self).sga.segs.len()
                    &&& *final(self) == *old(self)
                },
            },
    {
        if self.is_empty() {
            proof {
                assert(spec_after_iovecs(*old(self), lens@) == *old(self));
            }
            return None;
        }
        let ghost rem0 = old(self).remaining();
        let mut vs: Vec<Vec<u8>> = Vec::new();
        let ghost copied: int = 0;
        let mut i: usize = 0;
        proof {
            assert(rem0.skip(0) =~= rem0);
            assert(rem0.take(0) =~= Seq::<u8>::empty());
            assert(suffix_flat(vs.deep_view(), 0) =~= Seq::<u8>::empty());
            assert(lens@.skip(0) =~= lens@);
        }
        while i < lens.len() && self.seg_off < self.sga.segs.len()
            invariant
                0 <= i <= lens.len(),
                vs.len() == i,
                self.wf(),
                self.sga == old(self).sga,
                0 <= copied <= rem0.len(),
                copied == vstd::math::min(spec_len_sum(lens@, i as int), rem0.len() as int),
                suffix_flat(vs.deep_view(), 0) == rem0.take(copied),
                suffix_flat(vs.deep_view(), 0).len() == copied,
                self.remaining() == rem0.skip(copied),
                forall|m: int| 0 <= m < vs.len() ==> (#[trigger] vs@[m])@.len() <= lens[m],
                forall|m: int| 0 <= m < vs.len() - 1 ==> (#[trigger] vs@[m])@.len() == lens[m],
                (vs.len() > 0 && vs@[vs.len() - 1]@.len() < lens[vs.len() - 1] ==> self.seg_off
                    >= self.sga.segs.len()),
                spec_after_iovecs(*old(self), lens@) == spec_after_iovecs(
                    *self,
                    lens@.skip(i as int),
                ),
            decreases lens.len() - i,
        {
            let n = lens[i];
            let ghost pre = vs.deep_view();
            let ghost vs0 = vs@;
            let ghost cur = *self;
            let piece = match self.copy_bytes(n) {
                Some(p) => p,
                None => vstd::pervasive::unreached(),
            };
            proof {
                assert(rem0.skip(copied).len() == rem0.len() - copied);
                copied = copied + piece@.len();
            }
            vs.push(piece);
            i = i + 1;
            proof {
                let ii = i as int;
                let last = vs[vs.len() - 1]@;
                assert(vs.deep_view() =~~= pre.push(last));
                lemma_flat_push(pre, vs.deep_view(), last);
                assert(rem0.skip(copied - last.len()).take(last.len() as int) =~= rem0.subrange(
                    copied - last.len(),
                    copied,
                ));
                assert(rem0.take(copied - last.len()) + rem0.subrange(
                    copied - last.len(),
                    copied,
                ) =~= rem0.take(copied));
                assert(suffix_flat(vs.deep_view(), 0) =~= rem0.take(copied));
                assert(rem0.skip(copied - last.len()).skip(last.len() as int) =~= rem0.skip(
                    copied,
                ));
                // the running total equals min(sum of processed runs, bytes)
                lemma_len_sum_nonneg(lens@, ii - 1);
                assert(spec_len_sum(lens@, ii) == spec_len_sum(lens@, ii - 1) + lens@[ii - 1]);
                // piece bounds and the all-but-last-full shape
                assert forall|m: int| 0 <= m < vs.len() implies (#[trigger] vs@[m])@.len()
                    <= lens[m] by {
                    if m < vs0.len() {
                        assert(vs@[m] == vs0[m]);
                    } else {
                        assert(vs@[m]@ == last);
                    }
                }
                assert forall|m: int| 0 <= m < vs.len() - 1 implies (#[trigger] vs@[m])@.len()
                    == lens[m] by {
                    assert(vs@[m] == vs0[m]);
                    if m < vs0.len() - 1 {
                    } else {
                        // the piece before this one was full, else the cursor
                        // had already passed the end and the loop had stopped
                        assert(cur.seg_off < cur.sga.segs.len());
                        assert(vs0[m]@.len() == lens[m]);
                    }
                }
                if last.len() < lens@[ii - 1] {
                    assert(self.seg_off >= self.sga.segs.len());
                }
                // the cursor moved exactly as the per-run specification does
                assert(lens@.skip(ii - 1).skip(1) =~= lens@.skip(ii));
                assert(lens@.skip(ii - 1)[0] == lens@[ii - 1]);
                assert(spec_after_iovecs(cur, lens@.skip(ii - 1)) == spec_after_iovecs(
                    spec_after_copy(cur, lens@[ii - 1] as int),
                    lens@.skip(ii),
                ));
            }
        }
        proof {
            if self.seg_off >= self.sga.segs.len() {
                assert(rem0.skip(copied).len() == 0);
                assert(copied == rem0.len());
                lemma_len_sum_mono(lens@, i as int, lens.len() as int);
                assert(copied == vstd::math::min(
                    spec_len_sum(lens@, lens.len() as int),
                    rem0.len() as int,
                ));
                assert(spec_after_iovecs(*self, lens@.skip(i as int)) == *self);
            } else {
                assert(i == lens.len());
                assert(lens@.skip(i as int).len() == 0);
                assert(spec_after_iovecs(*self, lens@.skip(i as int)) == *self);
            }
        }
        Some(vs)
    }
}

/// Advancing past an exhausted segment keeps the remaining bytes unchanged.
proof fn lemma_advance_segment(it: SgArrayByteIter)
    requires
        it.wf(),
        it.seg_off < it.sga.segs.len(),
        it.byte_off == it.sga.view_segs()[it.seg_off as int].len(),
    ensures
        it.remaining() =~= (SgArrayByteIter {
            seg_off: (it.seg_off + 1) as usize,
            byte_off: 0,
            ..it
        }).remaining(),
{
    let segs = it.sga.view_segs();
    let k = it.seg_off as int;
    assert(segs[k].skip(it.byte_off as int) =~= Seq::<u8>::empty());
    if it.seg_off + 1 < it.sga.segs.len() {
        assert(suffix_flat(segs, k + 1) == segs[k + 1] + suffix_flat(segs, k + 2));
        assert(segs[k + 1].skip(0) =~= segs[k + 1]);
    } else {
        assert(suffix_flat(segs, k + 1) =~= Seq::<u8>::empty());
    }
}

/// Consuming `c` bytes inside one segment is the same as skipping `c` bytes
/// of the remaining sequence.
proof fn lemma_skip_within(segs: Seq<Seq<u8>>, k: int, b: int, c: int)
    requires
        0 <= k < segs.len(),
        0 <= b,
        0 <= c,
        b + c <= segs[k].len(),
    ensures
        segs[k].skip(b + c) + suffix_flat(segs, k + 1) =~= (segs[k].skip(b) + suffix_flat(
            segs,
            k + 1,
        )).skip(c),
{
}

/// Appending one more piece appends its bytes to the flattening.
proof fn lemma_flat_push(pre: Seq<Seq<u8>>, post: Seq<Seq<u8>>, piece: Seq<u8>)
    requires
        post == pre.push(piece),
    ensures
        suffix_flat(post, 0) =~= suffix_flat(pre, 0) + piece,
{
    lemma_flat_push_at(pre, post, piece, 0);
}

proof fn lemma_flat_push_at(pre: Seq<Seq<u8>>, post: Seq<Seq<u8>>, piece: Seq<u8>, k: int)
    requires
        post == pre.push(piece),
        0 <= k <= pre.len(),
    ensures
        suffix_flat(post, k) =~= suffix_flat(pre, k) + piece,
    decreases pre.len() - k,
{
    if k == pre.len() {
        assert(suffix_flat(post, k) == post[k] + suffix_flat(post, k + 1));
        assert(suffix_flat(post, k + 1) =~= Seq::<u8>::empty());
        assert(suffix_flat(pre, k) =~= Seq::<u8>::empty());
        assert(post[k] == piece);
        assert(suffix_flat(post, k) =~= suffix_flat(pre, k) + piece);
    } else {
        lemma_flat_push_at(pre, post, piece, k + 1);
        assert(post[k] == pre[k]);
        assert(suffix_flat(post, k) == post[k] + suffix_flat(post, k + 1));
        assert(suffix_flat(pre, k) == pre[k] + suffix_flat(pre, k + 1));
    }
}

} // verus!
