use vstd::prelude::*;
use crate::fragment::{packets, packet_plan, plan_view};
use crate::rank::Rank;

verus! {

/// What the sender does with one message.
pub enum SendPlan {
    /// One medium request, complete on return.
    Medium,
    /// A long request per packet `(offset, nbytes)`, all aimed at the start of
    /// this place's chunk in the destination's segment; first, when
    /// `wait_reply` holds, block until the destination has acknowledged the
    /// previous fragmented message.
    Long { wait_reply: bool, packets: Vec<(usize, usize)> },
}

/// Why a message cannot be sent.
#[derive(Copy, Clone, Debug, PartialEq, Eq, Structural)]
pub enum SendError {
    /// The destination is not a place of the world.
    UnknownPlace,
    /// The message does not fit in one chunk of the destination's segment.
    Oversized,
}

/// Per-destination flow-control state of the single sender, with the
/// transport limits it decides by.
pub struct SenderState {
    /// Length of the chunk reserved for this place in each peer's segment.
    pub chunk_size: usize,
    /// Messages shorter than this go as one medium request.
    pub max_medium: usize,
    /// Largest payload of one long request.
    pub max_long: usize,
    /// `waiting_reply[dst]`: the last long message to `dst` was fragmented and
    /// its acknowledgement has not been waited for.
    pub waiting_reply: Vec<bool>,
}

pub ghost struct SenderView {
    pub chunk_size: nat,
    pub max_medium: nat,
    pub max_long: nat,
    pub waiting: Seq<bool>,
}

impl View for SenderState {
    type V = SenderView;

    open spec fn view(&self) -> SenderView {
        SenderView {
            chunk_size: self.chunk_size as nat,
            max_medium: self.max_medium as nat,
            max_long: self.max_long as nat,
            waiting: self.waiting_reply@,
        }
    }
}

/// `dst` names a place of the world.
pub open spec fn valid_dst(v: SenderView, dst: int) -> bool {
    0 <= dst < v.waiting.len()
}

/// A message of `len` bytes goes by long requests.
pub open spec fn is_long(v: SenderView, len: nat) -> bool {
    v.max_medium <= len < v.chunk_size
}

/// A message of `len` bytes goes by more than one long request.
pub open spec fn is_fragmented(v: SenderView, len: nat) -> bool {
    is_long(v, len) && len > v.max_long
}

/// The state after a message of `len` bytes to `dst`.
pub open spec fn send_step(v: SenderView, dst: int, len: nat) -> SenderView {
    if valid_dst(v, dst) && is_long(v, len) {
        SenderView { waiting: v.waiting.update(dst, len > v.max_long), ..v }
    } else {
        v
    }
}

/// The state after the messages `ops`, `(dst, len)` each, in order.
pub open spec fn run_sends(v: SenderView, ops: Seq<(int, nat)>) -> SenderView
    decreases ops.len(),
{
    if ops.len() == 0 {
        v
    } else {
        run_sends(send_step(v, ops[0].0, ops[0].1), ops.drop_first())
    }
}

/// A long send to `dst` in state `v` first waits for an acknowledgement.
pub open spec fn must_wait(v: SenderView, dst: int, len: nat) -> bool {
    valid_dst(v, dst) && is_long(v, len) && v.waiting[dst]
}

impl SenderState {
    pub open spec fn wf(&self) -> bool {
        self.max_long > 0
    }

    /// A sender for `world_size` places, waiting for no acknowledgement.
    pub fn new(world_size: usize, chunk_size: usize, max_medium: usize, max_long: usize) -> (r:
        Self)
        requires
            max_long > 0,
        ensures
            r.wf(),
            r@.chunk_size == chunk_size,
            r@.max_medium == max_medium,
            r@.max_long == max_long,
            r@.waiting == Seq::new(world_size as nat, |i: int| false),
    {
        let mut waiting_reply: Vec<bool> = Vec::new();
        let mut i: usize = 0;
        while i < world_size
            invariant
                i <= world_size,
                waiting_reply@ == Seq::new(i as nat, |k: int| false),
            decreases world_size - i,
        {
            waiting_reply.push(false);
            i = i + 1;
        }
        SenderState { chunk_size, max_medium, max_long, waiting_reply }
    }

    pub fn world_size(&self) -> (r: usize)
        ensures
            r == self@.waiting.len(),
    {
        self.waiting_reply.len()
    }

    pub fn waiting_reply(&self, dst: usize) -> (r: bool)
        requires
            dst < self@.waiting.len(),
        ensures
            r == self@.waiting[dst as int],
    {
        self.waiting_reply[dst]
    }

    /// Decides how a message of `len` bytes goes to `dst`, and records
    /// whether an acknowledgement of it will be owed.
    pub fn plan_send(&mut self, dst: Rank, len: usize) -> (r: Result<SendPlan, SendError>)
        requires
            old(self).wf(),
        ensures
            final(self).wf(),
            final(self)@ == send_step(old(self)@, dst.rank as int, len as nat),
            !valid_dst(old(self)@, dst.rank as int) ==> r == Err::<SendPlan, SendError>(
                SendError::UnknownPlace,
            ),
            valid_dst(old(self)@, dst.rank as int) && len < old(self).max_medium ==> r matches Ok(
                SendPlan::Medium,
            ),
            valid_dst(old(self)@, dst.rank as int) && len >= old(self).max_medium && len
                >= old(self).chunk_size ==> r == Err::<SendPlan, SendError>(SendError::Oversized),
            valid_dst(old(self)@, dst.rank as int) && is_long(old(self)@, len as nat) ==> (
            match r {
                Ok(SendPlan::Long { wait_reply, packets }) => {
                    &&& wait_reply == must_wait(old(self)@, dst.rank as int, len as nat)
                    &&& plan_view(packets@) == packet_plan(0, len as nat, old(self).max_long as nat)
                },
                _ => false,
            }),
    {
        let d = match dst.index() {
            Some(d) => d,
            None => {
                return Err(SendError::UnknownPlace);
            },
        };
        if d >= self.waiting_reply.len() {
            return Err(SendError::UnknownPlace);
        }
        if len < self.max_medium {
            return Ok(SendPlan::Medium);
        }
        if len >= self.chunk_size {
            return Err(SendError::Oversized);
        }
        let wait_reply = self.waiting_reply[d];
        self.waiting_reply.set(d, len > self.max_long);
        Ok(SendPlan::Long { wait_reply, packets: packets(len, self.max_long) })
    }
}

proof fn lemma_run_keeps_flag(v: SenderView, dst: int, ops: Seq<(int, nat)>)
    requires
        valid_dst(v, dst),
        v.waiting[dst],
        forall|i: int| 0 <= i < ops.len() ==> !(ops[i].0 == dst && is_long(v, ops[i].1)),
    ensures
        valid_dst(run_sends(v, ops), dst),
        run_sends(v, ops).waiting[dst],
        run_sends(v, ops).max_medium == v.max_medium,
        run_sends(v, ops).chunk_size == v.chunk_size,
    decreases ops.len(),
{
    if ops.len() > 0 {
        let w = send_step(v, ops[0].0, ops[0].1);
        assert(w.waiting[dst]);
        assert forall|i: int| 0 <= i < ops.drop_first().len() implies !(ops.drop_first()[i].0
            == dst && is_long(w, ops.drop_first()[i].1)) by {
            assert(ops.drop_first()[i] == ops[i + 1]);
        }
        lemma_run_keeps_flag(w, dst, ops.drop_first());
    }
}

/// After a fragmented message to `dst`, the next long message to `dst`
/// waits for an acknowledgement, whatever was sent elsewhere in between
/// (a message that is not long leaves the flag alone).
pub proof fn lemma_fragmented_send_blocks_next(
    v: SenderView,
    dst: int,
    len: nat,
    ops: Seq<(int, nat)>,
    next_len: nat,
)
    requires
        valid_dst(v, dst),
        is_fragmented(v, len),
        is_long(v, next_len),
        forall|i: int| 0 <= i < ops.len() ==> !(ops[i].0 == dst && is_long(v, ops[i].1)),
    ensures
        must_wait(run_sends(send_step(v, dst, len), ops), dst, next_len),
{
    let w = send_step(v, dst, len);
    lemma_run_keeps_flag(w, dst, ops);
}

} // verus!
