use vstd::prelude::*;
use crate::fragment::packet_plan;
use crate::rank::Rank;

verus! {

/// What became of one long packet at its receiver.
#[derive(Copy, Clone, Debug, PartialEq, Eq, Structural)]
pub enum Arrival {
    /// The packet is a whole message: deliver it, send no acknowledgement.
    Whole,
    /// The packet is part of a message that is not complete yet.
    Partial,
    /// The packet completed a fragmented message: acknowledge it to the
    /// sender, then deliver it.
    Complete,
}

/// A packet that breaks the fragmentation protocol.
#[derive(Copy, Clone, Debug, PartialEq, Eq, Structural)]
pub enum ReassemblyError {
    /// The packet reaches past the end of its message.
    OutOfBounds,
    /// A fragment that carries no byte.
    EmptyPacket,
    /// The packet starts before the bytes already reassembled.
    Stale,
    /// A packet at the same offset is already waiting.
    Duplicate,
    /// The source is not a place of the world.
    UnknownPlace,
}

/// Reassembly state for the fragmented messages of one source: the length of
/// the contiguous prefix received so far, and the packets `(offset, nbytes)`
/// received beyond it.
pub struct Reassembly {
    pub expecting: usize,
    pub pending: Vec<(usize, usize)>,
}

/// Some pending packet starts at `offset`.
pub open spec fn has_offset(p: Seq<(usize, usize)>, offset: int) -> bool {
    exists|i: int| 0 <= i < p.len() && p[i].0 == offset
}

/// Pending packets are non-empty, end within `usize`, and start at distinct
/// offsets.
pub open spec fn pending_wf(p: Seq<(usize, usize)>) -> bool {
    &&& forall|i: int| 0 <= i < p.len() ==> p[i].1 > 0 && p[i].0 + p[i].1 <= usize::MAX
    &&& forall|i: int, j: int| 0 <= i < p.len() && 0 <= j < p.len() && i != j ==> p[i].0 != p[j].0
}

/// Extends the prefix `e` with the pending packet that starts where it ends,
/// as long as there is one.
pub open spec fn drain(e: nat, p: Seq<(usize, usize)>) -> (nat, Seq<(usize, usize)>)
    decreases p.len(),
{
    if has_offset(p, e as int) {
        let i = choose|i: int| 0 <= i < p.len() && p[i].0 == e;
        drain(e + p[i].1 as nat, p.remove(i))
    } else {
        (e, p)
    }
}

proof fn lemma_remove_wf(p: Seq<(usize, usize)>, i: int)
    requires
        pending_wf(p),
        0 <= i < p.len(),
    ensures
        pending_wf(p.remove(i)),
{
    let q = p.remove(i);
    assert forall|a: int| 0 <= a < q.len() implies q[a] == p[if a < i { a } else { a + 1 }] by {}
    assert forall|a: int, b: int| 0 <= a < q.len() && 0 <= b < q.len() && a != b implies q[a].0
        != q[b].0 by {
        assert(q[a] == p[if a < i { a } else { a + 1 }]);
        assert(q[b] == p[if b < i { b } else { b + 1 }]);
    }
}

impl View for Reassembly {
    type V = (nat, Seq<(usize, usize)>);

    open spec fn view(&self) -> (nat, Seq<(usize, usize)>) {
        (self.expecting as nat, self.pending@)
    }
}

/// The outcome of a packet of `nbytes` bytes at `offset` of a message of
/// `total_len` bytes, and the reassembly state after it, from state `s`.
pub open spec fn receive_step(s: (nat, Seq<(usize, usize)>), total_len: nat, offset: nat, nbytes: nat) -> (
    Result<Arrival, ReassemblyError>,
    (nat, Seq<(usize, usize)>),
) {
    if offset + nbytes > total_len {
        (Err(ReassemblyError::OutOfBounds), s)
    } else if nbytes == total_len {
        (Ok(Arrival::Whole), s)
    } else if nbytes == 0 {
        (Err(ReassemblyError::EmptyPacket), s)
    } else if offset < s.0 {
        (Err(ReassemblyError::Stale), s)
    } else if has_offset(s.1, offset as int) {
        (Err(ReassemblyError::Duplicate), s)
    } else {
        let d = drain(s.0, s.1.push((offset as usize, nbytes as usize)));
        if d.0 == total_len {
            (Ok(Arrival::Complete), (0, Seq::empty()))
        } else {
            (Ok(Arrival::Partial), d)
        }
    }
}

/// The outcomes of the packets `pkts`, received in order from state `s`.
pub open spec fn receive_all(s: (nat, Seq<(usize, usize)>), total_len: nat, pkts: Seq<(nat, nat)>) -> Seq<
    Result<Arrival, ReassemblyError>,
>
    decreases pkts.len(),
{
    if pkts.len() == 0 {
        Seq::empty()
    } else {
        let (r, s2) = receive_step(s, total_len, pkts[0].0, pkts[0].1);
        seq![r] + receive_all(s2, total_len, pkts.drop_first())
    }
}

/// The reassembly state after the packets `pkts`, received in order from `s`.
pub open spec fn state_after_all(s: (nat, Seq<(usize, usize)>), total_len: nat, pkts: Seq<(nat, nat)>) -> (
    nat,
    Seq<(usize, usize)>,
)
    decreases pkts.len(),
{
    if pkts.len() == 0 {
        s
    } else {
        state_after_all(receive_step(s, total_len, pkts[0].0, pkts[0].1).1, total_len, pkts.drop_first())
    }
}

proof fn lemma_in_order_from(offset: nat, len: nat, packet_size: nat)
    requires
        0 < packet_size < len <= usize::MAX,
        offset < len,
    ensures
        ({
            let plan = packet_plan(offset, len, packet_size);
            let outs = receive_all((offset, Seq::empty()), len, plan);
            &&& plan.len() > 0
            &&& outs.len() == plan.len()
            &&& forall|i: int| 0 <= i < outs.len() - 1 ==> outs[i] == Ok::<Arrival, ReassemblyError>(Arrival::Partial)
            &&& outs[outs.len() - 1] == Ok::<Arrival, ReassemblyError>(Arrival::Complete)
            &&& state_after_all((offset, Seq::empty()), len, plan) == (0nat, Seq::<(usize, usize)>::empty())
        }),
    decreases len - offset,
{
    let n: nat = if len - offset < packet_size { (len - offset) as nat } else { packet_size };
    let plan = packet_plan(offset, len, packet_size);
    let rest = packet_plan(offset + n, len, packet_size);
    assert(plan == seq![(offset, n)] + rest);
    assert(plan[0] == (offset, n));
    assert(plan.drop_first() == rest);
    let p: Seq<(usize, usize)> = Seq::empty().push((offset as usize, n as usize));
    assert(p[0].0 == offset);
    assert(has_offset(p, offset as int));
    let i = choose|i: int| 0 <= i < p.len() && p[i].0 == offset;
    assert(i == 0);
    assert(p.remove(0) =~= Seq::empty());
    assert(!has_offset(Seq::<(usize, usize)>::empty(), (offset + n) as int));
    assert(p[0].1 as nat == n);
    assert(drain(offset + n, Seq::<(usize, usize)>::empty()) == (
        offset + n,
        Seq::<(usize, usize)>::empty(),
    ));
    assert(drain(offset, p) == drain(offset + n, p.remove(0)));
    assert(drain(offset, p) == (offset + n, Seq::<(usize, usize)>::empty()));
    let s0: (nat, Seq<(usize, usize)>) = (offset, Seq::empty());
    assert(!has_offset(s0.1, offset as int));
    assert(s0.1.push((offset as usize, n as usize)) == p);
    if offset + n == len {
        assert(rest.len() == 0);
        assert(receive_step(s0, len, offset, n) == (
            Ok::<Arrival, ReassemblyError>(Arrival::Complete),
            (0nat, Seq::<(usize, usize)>::empty()),
        ));
        assert(receive_all((0nat, Seq::empty()), len, rest) == Seq::<
            Result<Arrival, ReassemblyError>,
        >::empty());
        assert(state_after_all((0nat, Seq::empty()), len, rest) == (
            0nat,
            Seq::<(usize, usize)>::empty(),
        ));
        let outs = receive_all(s0, len, plan);
        assert(outs == seq![Ok::<Arrival, ReassemblyError>(Arrival::Complete)] + Seq::<
            Result<Arrival, ReassemblyError>,
        >::empty());
    } else {
        assert(receive_step(s0, len, offset, n) == (
            Ok::<Arrival, ReassemblyError>(Arrival::Partial),
            (offset + n, Seq::<(usize, usize)>::empty()),
        ));
        lemma_in_order_from(offset + n, len, packet_size);
        let tail = receive_all((offset + n, Seq::empty()), len, rest);
        let outs = receive_all(s0, len, plan);
        assert(outs == seq![Ok::<Arrival, ReassemblyError>(Arrival::Partial)] + tail);
        assert forall|k: int| 0 <= k < outs.len() - 1 implies outs[k] == Ok::<Arrival, ReassemblyError>(
            Arrival::Partial,
        ) by {
            if k > 0 {
                assert(outs[k] == tail[k - 1]);
            }
        }
        assert(outs[outs.len() - 1] == tail[tail.len() - 1]);
    }
}

/// A fragmented message whose packets arrive in order at a fresh reassembly
/// state completes exactly once, at its last packet, and leaves the state
/// fresh for the next message.
pub proof fn lemma_fragmented_message_completes_once(len: nat, packet_size: nat)
    requires
        0 < packet_size < len <= usize::MAX,
    ensures
        ({
            let plan = packet_plan(0, len, packet_size);
            let outs = receive_all((0, Seq::empty()), len, plan);
            &&& outs.len() == plan.len()
            &&& forall|i: int| 0 <= i < outs.len() - 1 ==> outs[i] == Ok::<Arrival, ReassemblyError>(Arrival::Partial)
            &&& outs[outs.len() - 1] == Ok::<Arrival, ReassemblyError>(Arrival::Complete)
            &&& state_after_all((0, Seq::empty()), len, plan) == (0nat, Seq::<(usize, usize)>::empty())
        }),
{
    lemma_in_order_from(0, len, packet_size);
}

impl Reassembly {
    pub open spec fn wf(&self) -> bool {
        pending_wf(self.pending@)
    }

    /// No message in progress.
    pub fn new() -> (r: Self)
        ensures
            r.wf(),
            r@ == (0nat, Seq::<(usize, usize)>::empty()),
    {
        Reassembly { expecting: 0, pending: Vec::new() }
    }

    fn find(&self, offset: usize) -> (r: Option<usize>)
        ensures
            r.is_none() <==> !has_offset(self.pending@, offset as int),
            r.is_some() ==> r.unwrap() < self.pending@.len() && self.pending@[r.unwrap() as int].0
                == offset,
    {
        let mut i: usize = 0;
        while i < self.pending.len()
            invariant
                i <= self.pending@.len(),
                forall|k: int| 0 <= k < i ==> self.pending@[k].0 != offset,
            decreases self.pending@.len() - i,
        {
            if self.pending[i].0 == offset {
                return Some(i);
            }
            i = i + 1;
        }
        None
    }

    /// Takes in a packet of `nbytes` bytes at `offset` of a message of
    /// `total_len` bytes.
    pub fn on_packet(&mut self, total_len: usize, offset: usize, nbytes: usize) -> (r: Result<
        Arrival,
        ReassemblyError,
    >)
        requires
            old(self).wf(),
        ensures
            final(self).wf(),
            (r, final(self)@) == receive_step(old(self)@, total_len as nat, offset as nat, nbytes as nat),
    {
        if offset > total_len || nbytes > total_len - offset {
            return Err(ReassemblyError::OutOfBounds);
        }
        if nbytes == total_len {
            return Ok(Arrival::Whole);
        }
        if nbytes == 0 {
            return Err(ReassemblyError::EmptyPacket);
        }
        if offset < self.expecting {
            return Err(ReassemblyError::Stale);
        }
        if self.find(offset).is_some() {
            return Err(ReassemblyError::Duplicate);
        }
        let ghost p0 = self.pending@;
        self.pending.push((offset, nbytes));
        let ghost target = drain(self.expecting as nat, self.pending@);
        assert(self.wf()) by {
            assert(self.pending@ == p0.push((offset, nbytes)));
            assert forall|i: int, j: int|
                0 <= i < self.pending@.len() && 0 <= j < self.pending@.len() && i != j implies
                self.pending@[i].0 != self.pending@[j].0 by {
                if i == p0.len() {
                    assert(self.pending@[j] == p0[j]);
                } else if j == p0.len() {
                    assert(self.pending@[i] == p0[i]);
                } else {
                    assert(self.pending@[i] == p0[i]);
                    assert(self.pending@[j] == p0[j]);
                }
            }
        }
        loop
            invariant
                self.wf(),
                drain(self.expecting as nat, self.pending@) == target,
            ensures
                self.wf(),
                target == (self.expecting as nat, self.pending@),
            decreases self.pending@.len(),
        {
            match self.find(self.expecting) {
                Some(i) => {
                    let ghost p = self.pending@;
                    let ghost e = self.expecting as nat;
                    proof {
                        let k = choose|k: int| 0 <= k < p.len() && p[k].0 == e;
                        assert(k == i as int);
                        lemma_remove_wf(p, i as int);
                    }
                    let (_, n) = self.pending.remove(i);
                    self.expecting = self.expecting + n;
                    assert(self.pending@ == p.remove(i as int));
                },
                None => {
                    assert(drain(self.expecting as nat, self.pending@) == (
                        self.expecting as nat,
                        self.pending@,
                    ));
                    break ;
                },
            }
        }
        if self.expecting == total_len {
            self.expecting = 0;
            self.pending = Vec::new();
            assert(self.pending@ == Seq::<(usize, usize)>::empty());
            Ok(Arrival::Complete)
        } else {
            Ok(Arrival::Partial)
        }
    }
}

} // verus!

verus! {

/// One reassembly state per source place.
pub struct FragmentChecker {
    pub sources: Vec<Reassembly>,
}

impl FragmentChecker {
    pub open spec fn wf(&self) -> bool {
        forall|i: int| 0 <= i < self.sources@.len() ==> #[trigger] self.sources@[i].wf()
    }

    /// A fresh state for each of `world_size` sources.
    pub fn new(world_size: usize) -> (r: Self)
        ensures
            r.wf(),
            r.sources@.len() == world_size,
            forall|i: int| 0 <= i < world_size ==> #[trigger] r.sources@[i]@ == (
                0nat,
                Seq::<(usize, usize)>::empty(),
            ),
    {
        let mut sources: Vec<Reassembly> = Vec::new();
        let mut i: usize = 0;
        while i < world_size
            invariant
                i <= world_size,
                sources@.len() == i,
                forall|k: int| 0 <= k < i ==> #[trigger] sources@[k].wf(),
                forall|k: int| 0 <= k < i ==> #[trigger] sources@[k]@ == (
                    0nat,
                    Seq::<(usize, usize)>::empty(),
                ),
            decreases world_size - i,
        {
            sources.push(Reassembly::new());
            i = i + 1;
        }
        FragmentChecker { sources }
    }

    /// Takes in a long packet from `src`; see `receive_step`.
    pub fn on_packet(&mut self, src: Rank, total_len: usize, offset: usize, nbytes: usize) -> (r:
        Result<Arrival, ReassemblyError>)
        requires
            old(self).wf(),
        ensures
            final(self).wf(),
            final(self).sources@.len() == old(self).sources@.len(),
            !(0 <= src.rank < old(self).sources@.len()) ==> r == Err::<Arrival, ReassemblyError>(
                ReassemblyError::UnknownPlace,
            ) && final(self).sources@ == old(self).sources@,
            0 <= src.rank < old(self).sources@.len() ==> {
                let s = src.rank as int;
                &&& (r, final(self).sources@[s]@) == receive_step(
                    old(self).sources@[s]@,
                    total_len as nat,
                    offset as nat,
                    nbytes as nat,
                )
                &&& forall|i: int|
                    0 <= i < old(self).sources@.len() && i != s ==> final(self).sources@[i]
                        == old(self).sources@[i]
            },
    {
        let d = match src.index() {
            Some(d) => d,
            None => {
                return Err(ReassemblyError::UnknownPlace);
            },
        };
        if d >= self.sources.len() {
            return Err(ReassemblyError::UnknownPlace);
        }
        assert(self.sources@[d as int].wf());
        let r = self.sources[d].on_packet(total_len, offset, nbytes);
        r
    }
}

} // verus!
