use vstd::prelude::*;

verus! {

/// Largest local counter a finish id can hold (48 bits).
pub const MAX_FINISH_COUNTER: u64 = 0xffff_ffff_ffff;

/// The finish id of the `counter`-th finish opened on `place`: the place in
/// the high 16 bits, the counter in the low 48.
pub open spec fn finish_id_of(place: u16, counter: u64) -> u64 {
    ((place as u64) << 48u64) | (counter & 0xffff_ffff_ffffu64)
}

/// The activity id of the `counter`-th activity spawned on `spawned_place`,
/// under finish `finish_id`, to run on `dst_place`: the finish id in the high
/// 64 bits, then 16 bits each of spawned and destination place, then the
/// 32-bit counter.
pub open spec fn activity_id_of(finish_id: u64, spawned_place: u16, dst_place: u16, counter: u32) -> u128 {
    ((finish_id as u128) << 64u128) | ((spawned_place as u128) << 48u128) | ((dst_place as u128)
        << 32u128) | (counter as u128)
}

pub proof fn lemma_activity_id_fields(f: u64, sp: u16, dp: u16, c: u32)
    ensures
        (activity_id_of(f, sp, dp, c) >> 64u128) as u64 == f,
        (activity_id_of(f, sp, dp, c) >> 48u128) as u16 == sp,
        (activity_id_of(f, sp, dp, c) >> 32u128) as u16 == dp,
        activity_id_of(f, sp, dp, c) as u32 == c,
{
    assert((((((f as u128) << 64u128) | ((sp as u128) << 48u128) | ((dp as u128) << 32u128) | (
    c as u128)) >> 64u128) as u64) == f) by (bit_vector);
    assert((((((f as u128) << 64u128) | ((sp as u128) << 48u128) | ((dp as u128) << 32u128) | (
    c as u128)) >> 48u128) as u16) == sp) by (bit_vector);
    assert((((((f as u128) << 64u128) | ((sp as u128) << 48u128) | ((dp as u128) << 32u128) | (
    c as u128)) >> 32u128) as u16) == dp) by (bit_vector);
    assert(((((f as u128) << 64u128) | ((sp as u128) << 48u128) | ((dp as u128) << 32u128) | (
    c as u128)) as u32) == c) by (bit_vector);
}

pub proof fn lemma_finish_id_fields(place: u16, counter: u64)
    requires
        counter <= MAX_FINISH_COUNTER,
    ensures
        (finish_id_of(place, counter) >> 48u64) as u16 == place,
        finish_id_of(place, counter) & 0xffff_ffff_ffffu64 == counter,
{
    assert((((((place as u64) << 48u64) | (counter & 0xffff_ffff_ffffu64)) >> 48u64) as u16)
        == place) by (bit_vector);
    assert(counter <= 0xffff_ffff_ffffu64 ==> (((place as u64) << 48u64) | (counter
        & 0xffff_ffff_ffffu64)) & 0xffff_ffff_ffffu64 == counter) by (bit_vector);
}

/// Activity ids are equal only when all their fields are: ids minted on
/// different places, or by different counter values, differ.
pub proof fn lemma_activity_ids_distinct(
    f1: u64,
    sp1: u16,
    dp1: u16,
    c1: u32,
    f2: u64,
    sp2: u16,
    dp2: u16,
    c2: u32,
)
    requires
        sp1 != sp2 || c1 != c2,
    ensures
        activity_id_of(f1, sp1, dp1, c1) != activity_id_of(f2, sp2, dp2, c2),
{
    lemma_activity_id_fields(f1, sp1, dp1, c1);
    lemma_activity_id_fields(f2, sp2, dp2, c2);
}

/// Largest counter an activity id can hold.
pub const MAX_ACTIVITY_COUNTER: u64 = 0xffff_ffff;

/// The ids that an allocator on `place`, at counter `start`, hands out for
/// the spawns `reqs`, `(finish_id, dst_place)` each, in order.
pub open spec fn minted(place: u16, start: nat, reqs: Seq<(u64, u16)>) -> Seq<u128> {
    Seq::new(reqs.len(), |i: int| activity_id_of(reqs[i].0, place, reqs[i].1, (start + i) as u32))
}

/// No two activities share an id: the ids that allocators hand out are
/// pairwise distinct, within one place (while its counter lasts) and across
/// places.
pub proof fn lemma_activity_ids_unique(
    p1: u16,
    start1: nat,
    reqs1: Seq<(u64, u16)>,
    p2: u16,
    start2: nat,
    reqs2: Seq<(u64, u16)>,
)
    requires
        start1 + reqs1.len() <= MAX_ACTIVITY_COUNTER + 1,
        start2 + reqs2.len() <= MAX_ACTIVITY_COUNTER + 1,
    ensures
        forall|i: int, j: int|
            0 <= i < reqs1.len() && 0 <= j < reqs1.len() && i != j ==> minted(p1, start1, reqs1)[i]
                != minted(p1, start1, reqs1)[j],
        p1 != p2 ==> forall|i: int, j: int|
            0 <= i < reqs1.len() && 0 <= j < reqs2.len() ==> minted(p1, start1, reqs1)[i]
                != minted(p2, start2, reqs2)[j],
{
    assert forall|i: int, j: int|
        0 <= i < reqs1.len() && 0 <= j < reqs1.len() && i != j implies minted(p1, start1, reqs1)[i]
        != minted(p1, start1, reqs1)[j] by {
        let ci = (start1 + i) as u32;
        let cj = (start1 + j) as u32;
        assert(ci != cj);
        lemma_activity_ids_distinct(reqs1[i].0, p1, reqs1[i].1, ci, reqs1[j].0, p1, reqs1[j].1, cj);
    }
    if p1 != p2 {
        assert forall|i: int, j: int| 0 <= i < reqs1.len() && 0 <= j < reqs2.len() implies minted(
            p1,
            start1,
            reqs1,
        )[i] != minted(p2, start2, reqs2)[j] by {
            lemma_activity_ids_distinct(
                reqs1[i].0,
                p1,
                reqs1[i].1,
                (start1 + i) as u32,
                reqs2[j].0,
                p2,
                reqs2[j].1,
                (start2 + j) as u32,
            );
        }
    }
}

/// The finish this activity belongs to.
pub fn activity_finish_id(aid: u128) -> (r: u64)
    ensures
        r == (aid >> 64u128) as u64,
        forall|f: u64, sp: u16, dp: u16, c: u32|
            aid == activity_id_of(f, sp, dp, c) ==> r == f,
{
    proof {
        assert forall|f: u64, sp: u16, dp: u16, c: u32| aid == activity_id_of(f, sp, dp, c) implies (
        aid >> 64u128) as u64 == f by {
            lemma_activity_id_fields(f, sp, dp, c);
        }
    }
    (aid >> 64u128) as u64
}

/// The place that spawned this activity, where its waiter is.
pub fn spawned_place(aid: u128) -> (r: u16)
    ensures
        r == (aid >> 48u128) as u16,
        forall|f: u64, sp: u16, dp: u16, c: u32|
            aid == activity_id_of(f, sp, dp, c) ==> r == sp,
{
    proof {
        assert forall|f: u64, sp: u16, dp: u16, c: u32| aid == activity_id_of(f, sp, dp, c) implies (
        aid >> 48u128) as u16 == sp by {
            lemma_activity_id_fields(f, sp, dp, c);
        }
    }
    (aid >> 48u128) as u16
}

/// The place that runs this activity.
pub fn dst_place(aid: u128) -> (r: u16)
    ensures
        r == (aid >> 32u128) as u16,
        forall|f: u64, sp: u16, dp: u16, c: u32|
            aid == activity_id_of(f, sp, dp, c) ==> r == dp,
{
    proof {
        assert forall|f: u64, sp: u16, dp: u16, c: u32| aid == activity_id_of(f, sp, dp, c) implies (
        aid >> 32u128) as u16 == dp by {
            lemma_activity_id_fields(f, sp, dp, c);
        }
    }
    (aid >> 32u128) as u16
}

/// The place that opened this finish, where its coordinator is.
pub fn finish_place(fid: u64) -> (r: u16)
    ensures
        r == (fid >> 48u64) as u16,
        forall|p: u16, c: u64| c <= MAX_FINISH_COUNTER && fid == finish_id_of(p, c) ==> r == p,
{
    proof {
        assert forall|p: u16, c: u64| c <= MAX_FINISH_COUNTER && fid == finish_id_of(p, c) implies (
        fid >> 48u64) as u16 == p by {
            lemma_finish_id_fields(p, c);
        }
    }
    (fid >> 48u64) as u16
}

/// Mints the finish and activity ids of one place from counters that only
/// grow.
pub struct IdAllocator {
    pub here: u16,
    pub next_finish: u64,
    pub next_activity: u64,
}

impl IdAllocator {
    /// An allocator for `here` that has handed out nothing.
    pub fn new(here: u16) -> (r: Self)
        ensures
            r.here == here,
            r.next_finish == 0,
            r.next_activity == 0,
    {
        IdAllocator { here, next_finish: 0, next_activity: 0 }
    }

    /// A finish id never handed out before by this allocator; `None` once the
    /// counter is exhausted.
    pub fn new_finish_id(&mut self) -> (r: Option<u64>)
        ensures
            final(self).here == old(self).here,
            final(self).next_activity == old(self).next_activity,
            old(self).next_finish <= MAX_FINISH_COUNTER ==> {
                &&& r == Some(finish_id_of(old(self).here, old(self).next_finish))
                &&& final(self).next_finish == old(self).next_finish + 1
            },
            old(self).next_finish > MAX_FINISH_COUNTER ==> r.is_none() && final(self).next_finish
                == old(self).next_finish,
    {
        if self.next_finish > MAX_FINISH_COUNTER {
            return None;
        }
        let c = self.next_finish;
        self.next_finish = c + 1;
        Some(((self.here as u64) << 48u64) | (c & 0xffff_ffff_ffffu64))
    }

    /// An activity id for a spawn under `finish_id` to `dst`, never handed
    /// out before by this allocator; `None` once the counter is exhausted.
    pub fn new_activity_id(&mut self, finish_id: u64, dst: u16) -> (r: Option<u128>)
        ensures
            final(self).here == old(self).here,
            final(self).next_finish == old(self).next_finish,
            old(self).next_activity <= MAX_ACTIVITY_COUNTER ==> {
                &&& r == Some(
                    activity_id_of(finish_id, old(self).here, dst, old(self).next_activity as u32),
                )
                &&& final(self).next_activity == old(self).next_activity + 1
            },
            old(self).next_activity > MAX_ACTIVITY_COUNTER ==> r.is_none()
                && final(self).next_activity == old(self).next_activity,
    {
        if self.next_activity > MAX_ACTIVITY_COUNTER {
            return None;
        }
        let c = self.next_activity;
        self.next_activity = c + 1;
        Some(
            ((finish_id as u128) << 64u128) | ((self.here as u128) << 48u128) | ((dst as u128)
                << 32u128) | ((c as u32) as u128),
        )
    }
}

} // verus!
