use vstd::prelude::*;

verus! {

/// The packets `(offset, nbytes)` that carry bytes `[offset, len)` of a
/// message, each at most `packet_size` bytes, in order of offset.
pub open spec fn packet_plan(offset: nat, len: nat, packet_size: nat) -> Seq<(nat, nat)>
    decreases len - offset,
{
    if offset >= len || packet_size == 0 {
        Seq::empty()
    } else {
        let n = if len - offset < packet_size { (len - offset) as nat } else { packet_size };
        seq![(offset, n)] + packet_plan(offset + n, len, packet_size)
    }
}

/// Packet `p` carries byte `b`.
pub open spec fn covers(p: (nat, nat), b: int) -> bool {
    p.0 <= b < p.0 + p.1
}

/// Some packet of `ps` carries byte `b`.
pub open spec fn carried(ps: Seq<(nat, nat)>, b: int) -> bool {
    exists|i: int| 0 <= i < ps.len() && covers(ps[i], b)
}

/// The packets partition `[0, len)`: each lies inside it, none is empty, and
/// each byte of it is carried by exactly one packet.
pub open spec fn partitions(ps: Seq<(nat, nat)>, len: nat) -> bool {
    &&& forall|i: int| 0 <= i < ps.len() ==> ps[i].1 > 0 && ps[i].0 + ps[i].1 <= len
    &&& forall|b: int| 0 <= b < len ==> #[trigger] carried(ps, b)
    &&& forall|i: int, j: int, b: int|
        0 <= i < ps.len() && 0 <= j < ps.len() && covers(ps[i], b) && covers(ps[j], b) ==> i == j
}

pub open spec fn plan_view(ps: Seq<(usize, usize)>) -> Seq<(nat, nat)> {
    ps.map_values(|p: (usize, usize)| (p.0 as nat, p.1 as nat))
}

proof fn lemma_plan_facts(offset: nat, len: nat, packet_size: nat)
    requires
        offset <= len,
        packet_size > 0,
    ensures
        ({
            let ps = packet_plan(offset, len, packet_size);
            &&& forall|i: int|
                0 <= i < ps.len() ==> offset <= ps[i].0 && ps[i].1 > 0 && ps[i].1 <= packet_size
                    && ps[i].0 + ps[i].1 <= len
            &&& forall|i: int, j: int|
                0 <= i < j < ps.len() ==> ps[i].0 + ps[i].1 <= ps[j].0
            &&& forall|b: int| offset <= b < len ==> #[trigger] carried(ps, b)
        }),
    decreases len - offset,
{
    let ps = packet_plan(offset, len, packet_size);
    if offset < len {
        let n: nat = if len - offset < packet_size { (len - offset) as nat } else { packet_size };
        lemma_plan_facts(offset + n, len, packet_size);
        let rest = packet_plan(offset + n, len, packet_size);
        assert(ps == seq![(offset, n)] + rest);
        assert forall|i: int, j: int| 0 <= i < j < ps.len() implies ps[i].0 + ps[i].1 <= ps[j].0 by {
            if i > 0 {
                assert(ps[i] == rest[i - 1]);
            }
            assert(ps[j] == rest[j - 1]);
        }
        assert forall|b: int| offset <= b < len implies #[trigger] carried(ps, b) by {
            if b < offset + n {
                assert(covers(ps[0], b));
            } else {
                assert(carried(rest, b));
                let k = choose|k: int| 0 <= k < rest.len() && covers(rest[k], b);
                assert(ps[k + 1] == rest[k]);
            }
        }
    }
}

/// The packets of a fragmented message partition `[0, len)` exactly once.
pub proof fn lemma_packets_partition(len: nat, packet_size: nat)
    requires
        packet_size > 0,
    ensures
        partitions(packet_plan(0, len, packet_size), len),
{
    let ps = packet_plan(0, len, packet_size);
    lemma_plan_facts(0, len, packet_size);
    assert forall|i: int, j: int, b: int|
        0 <= i < ps.len() && 0 <= j < ps.len() && covers(ps[i], b) && covers(ps[j], b) implies i
        == j by {
        if i < j {
            assert(ps[i].0 + ps[i].1 <= ps[j].0);
        } else if j < i {
            assert(ps[j].0 + ps[j].1 <= ps[i].0);
        }
    }
}

/// The packets of a message of `len` bytes sent `packet_size` bytes at a time.
pub fn packets(len: usize, packet_size: usize) -> (r: Vec<(usize, usize)>)
    requires
        packet_size > 0,
    ensures
        plan_view(r@) == packet_plan(0, len as nat, packet_size as nat),
{
    let mut r: Vec<(usize, usize)> = Vec::new();
    let mut offset: usize = 0;
    while offset < len
        invariant
            packet_size > 0,
            offset <= len,
            plan_view(r@) + packet_plan(offset as nat, len as nat, packet_size as nat)
                == packet_plan(0, len as nat, packet_size as nat),
        decreases len - offset,
    {
        let n: usize = if len - offset < packet_size { len - offset } else { packet_size };
        let ghost rest = packet_plan((offset + n) as nat, len as nat, packet_size as nat);
        let ghost before = plan_view(r@);
        r.push((offset, n));
        assert(plan_view(r@) == before.push((offset as nat, n as nat)));
        assert(packet_plan(offset as nat, len as nat, packet_size as nat) == seq![
            (offset as nat, n as nat),
        ] + rest);
        assert(plan_view(r@) + rest == before + (seq![(offset as nat, n as nat)] + rest));
        offset = offset + n;
    }
    assert(plan_view(r@) + Seq::<(nat, nat)>::empty() == plan_view(r@));
    r
}

} // verus!
