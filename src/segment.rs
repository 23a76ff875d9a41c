use vstd::prelude::*;

verus! {

/// How a place's registered segment is laid out: `world` equal chunks, one
/// reserved for the messages of each source place.
#[derive(Copy, Clone, Debug, PartialEq, Eq, Structural)]
pub struct SegmentLayout {
    /// Length of the whole segment: a whole number of pages per chunk.
    pub seg_len: usize,
    /// Length of one chunk.
    pub chunk_size: usize,
    /// Number of chunks, one per place.
    pub world_size: usize,
}

/// The chunk length for a segment budget of `max_len` bytes: the largest
/// whole number of pages that `world` chunks can each have.
pub open spec fn chunk_len(max_len: nat, page: nat, world: nat) -> nat {
    (max_len / page / world) * page
}

/// Lays out a segment of at most `max_seg_len` bytes for `world_size`
/// places; `None` where a chunk would not exceed one page.
pub fn segment_layout(max_seg_len: usize, page_size: usize, world_size: usize) -> (r: Option<
    SegmentLayout,
>)
    requires
        page_size > 0,
        world_size > 0,
    ensures
        r.is_some() <==> chunk_len(max_seg_len as nat, page_size as nat, world_size as nat)
            > page_size,
        r.is_some() ==> {
            let l = r.unwrap();
            &&& l.chunk_size == chunk_len(max_seg_len as nat, page_size as nat, world_size as nat)
            &&& l.world_size == world_size
            &&& l.wf()
            &&& l.seg_len <= max_seg_len
        },
{
    let k: usize = max_seg_len / page_size / world_size;
    proof {
        let m = max_seg_len as int;
        let p = page_size as int;
        let w = world_size as int;
        let q = m / p;
        assert(q * p <= m) by (nonlinear_arith)
            requires
                p > 0,
                q == m / p,
                m >= 0,
        ;
        assert(k * w <= q) by (nonlinear_arith)
            requires
                w > 0,
                k == q / w,
                q >= 0,
        ;
        assert(k * p * w == (k * w) * p) by (nonlinear_arith);
        assert((k * w) * p <= q * p) by (nonlinear_arith)
            requires
                k * w <= q,
                p > 0,
        ;
        assert(k * p <= k * p * w) by (nonlinear_arith)
            requires
                w > 0,
                k >= 0,
                p > 0,
        ;
    }
    let chunk_size: usize = k * page_size;
    let seg_len: usize = chunk_size * world_size;
    if chunk_size > page_size {
        Some(SegmentLayout { seg_len, chunk_size, world_size })
    } else {
        None
    }
}

impl SegmentLayout {
    pub open spec fn wf(&self) -> bool {
        self.seg_len == self.chunk_size * self.world_size
    }

    /// Offset, within a peer's segment, of the chunk reserved for `rank`.
    pub fn chunk_start(&self, rank: usize) -> (r: usize)
        requires
            self.wf(),
            rank < self.world_size,
        ensures
            r == rank * self.chunk_size,
            r + self.chunk_size <= self.seg_len,
    {
        proof {
            let c = self.chunk_size as int;
            let w = self.world_size as int;
            let k = rank as int;
            assert(k * c + c <= w * c) by (nonlinear_arith)
                requires
                    k < w,
                    c >= 0,
            ;
            assert(w * c == c * w) by (nonlinear_arith);
        }
        rank * self.chunk_size
    }
}

} // verus!
