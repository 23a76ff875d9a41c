use vstd::prelude::*;
use crate::global_id::{activity_finish_id, finish_place, spawned_place};

verus! {

/// What the coordinator of a finish learns.
pub ghost enum FinishEvent {
    /// An activity was spawned on the coordinator's own place.
    Spawn,
    /// A result-to-parent envelope arrived: one activity completed, having
    /// spawned `subs` activities while it ran.
    Completed { subs: nat },
}

/// The outstanding count after event `e`; `None` where `e` reports a
/// completion while nothing is outstanding.
pub open spec fn finish_step(outstanding: nat, e: FinishEvent) -> Option<nat> {
    match e {
        FinishEvent::Spawn => Some(outstanding + 1),
        FinishEvent::Completed { subs } => if outstanding >= 1 {
            Some((outstanding - 1 + subs) as nat)
        } else {
            None
        },
    }
}

/// The outstanding count after the events `es`, in order, from `outstanding`.
pub open spec fn finish_run(outstanding: nat, es: Seq<FinishEvent>) -> Option<nat>
    decreases es.len(),
{
    if es.len() == 0 {
        Some(outstanding)
    } else {
        match finish_step(outstanding, es[0]) {
            Some(o) => finish_run(o, es.drop_first()),
            None => None,
        }
    }
}

/// Activities that the coordinator learned of: local spawns, and those
/// reported as spawned by completed activities.
pub open spec fn spawns_known(es: Seq<FinishEvent>) -> nat
    decreases es.len(),
{
    if es.len() == 0 {
        0
    } else {
        let n: nat = match es[0] {
            FinishEvent::Spawn => 1,
            FinishEvent::Completed { subs } => subs,
        };
        n + spawns_known(es.drop_first())
    }
}

/// Result-to-parent envelopes delivered.
pub open spec fn results_delivered(es: Seq<FinishEvent>) -> nat
    decreases es.len(),
{
    if es.len() == 0 {
        0
    } else {
        let n: nat = match es[0] {
            FinishEvent::Spawn => 0,
            FinishEvent::Completed { .. } => 1,
        };
        n + results_delivered(es.drop_first())
    }
}

proof fn lemma_finish_run_counts(o: nat, es: Seq<FinishEvent>)
    requires
        finish_run(o, es).is_some(),
    ensures
        finish_run(o, es).unwrap() + results_delivered(es) == o + spawns_known(es),
    decreases es.len(),
{
    if es.len() > 0 {
        let o2 = finish_step(o, es[0]).unwrap();
        lemma_finish_run_counts(o2, es.drop_first());
    }
}

/// Termination is sound: for a finish that started with nothing outstanding
/// and reached zero, every activity it learned of has delivered its result,
/// and no more results than that.
pub proof fn lemma_finish_sound(es: Seq<FinishEvent>)
    requires
        finish_run(0, es) == Some(0nat),
    ensures
        spawns_known(es) == results_delivered(es),
{
    lemma_finish_run_counts(0, es);
}

/// Why the coordinator refused an event.
#[derive(Copy, Clone, Debug, PartialEq, Eq, Structural)]
pub enum FinishError {
    /// A completion arrived while no activity was outstanding.
    Unexpected,
    /// The outstanding count would not fit in 64 bits.
    Overflow,
}

/// The coordinator's record of one finish, on the place that opened it.
pub struct FinishState {
    pub outstanding: u64,
}

impl FinishState {
    /// A finish just opened: nothing outstanding.
    pub fn new() -> (r: Self)
        ensures
            r.outstanding == 0,
    {
        FinishState { outstanding: 0 }
    }

    /// Records an activity spawned on the coordinator's place.
    pub fn on_local_spawn(&mut self) -> (r: Result<(), FinishError>)
        ensures
            old(self).outstanding < u64::MAX ==> r is Ok && Some(final(self).outstanding as nat)
                == finish_step(old(self).outstanding as nat, FinishEvent::Spawn),
            old(self).outstanding == u64::MAX ==> r == Err::<(), FinishError>(
                FinishError::Overflow,
            ) && final(self).outstanding == old(self).outstanding,
    {
        if self.outstanding == u64::MAX {
            return Err(FinishError::Overflow);
        }
        self.outstanding = self.outstanding + 1;
        Ok(())
    }

    /// Records a result-to-parent envelope of an activity that spawned
    /// `subs` activities while it ran.
    pub fn on_result(&mut self, subs: u64) -> (r: Result<(), FinishError>)
        ensures
            old(self).outstanding == 0 ==> r == Err::<(), FinishError>(FinishError::Unexpected)
                && final(self).outstanding == 0,
            old(self).outstanding > 0 && old(self).outstanding - 1 + subs > u64::MAX ==> r == Err::<
                (),
                FinishError,
            >(FinishError::Overflow) && final(self).outstanding == old(self).outstanding,
            old(self).outstanding > 0 && old(self).outstanding - 1 + subs <= u64::MAX ==> r is Ok
                && Some(final(self).outstanding as nat) == finish_step(
                old(self).outstanding as nat,
                FinishEvent::Completed { subs: subs as nat },
            ),
    {
        if self.outstanding == 0 {
            return Err(FinishError::Unexpected);
        }
        let rest = self.outstanding - 1;
        if subs > u64::MAX - rest {
            return Err(FinishError::Overflow);
        }
        self.outstanding = rest + subs;
        Ok(())
    }

    /// Every activity the finish learned of has completed.
    pub fn is_done(&self) -> (r: bool)
        ensures
            r == (self.outstanding == 0),
    {
        self.outstanding == 0
    }
}

/// The kind of a result envelope.
#[derive(Copy, Clone, Debug, PartialEq, Eq, Structural)]
pub enum ResultKind {
    /// The stripped result, with the sub-activity list, for the finish's
    /// coordinator.
    ToParent,
    /// The full result, for the place waiting on the activity.
    ToWaiter,
}

/// Where one result envelope goes.
#[derive(Copy, Clone, Debug, PartialEq, Eq, Structural)]
pub struct ResultRoute {
    pub kind: ResultKind,
    pub place: u16,
}

/// The result envelopes of a completed activity `aid`, in the order they are
/// sent: first to the finish's coordinator, then, when the spawner waits on
/// it, to the spawner's place.
pub fn completion_routes(aid: u128, waited: bool) -> (r: Vec<ResultRoute>)
    ensures
        r@.len() == if waited { 2int } else { 1int },
        r@[0] == (ResultRoute {
            kind: ResultKind::ToParent,
            place: (((aid >> 64u128) as u64) >> 48u64) as u16,
        }),
        waited ==> r@[1] == (ResultRoute {
            kind: ResultKind::ToWaiter,
            place: (aid >> 48u128) as u16,
        }),
{
    let mut r: Vec<ResultRoute> = Vec::new();
    r.push(ResultRoute { kind: ResultKind::ToParent, place: finish_place(activity_finish_id(aid)) });
    if waited {
        r.push(ResultRoute { kind: ResultKind::ToWaiter, place: spawned_place(aid) });
    }
    r
}

} // verus!
