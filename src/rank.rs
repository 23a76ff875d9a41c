use vstd::prelude::*;

verus! {

/// A place in the fixed world, as the transport numbers it.
#[derive(Copy, Clone, Debug, PartialEq, Eq, Structural)]
pub struct Rank {
    pub rank: i32,
}

impl Rank {
    pub fn new(rank: i32) -> (r: Self)
        ensures
            r.rank == rank,
    {
        Rank { rank }
    }

    pub fn int_value(&self) -> (r: i32)
        ensures
            r == self.rank,
    {
        self.rank
    }

    /// The rank in the transport's unsigned rank type (bits kept as they are).
    pub fn gex_rank(&self) -> (r: u32)
        ensures
            r == self.rank as u32,
            self.rank >= 0 ==> r == self.rank,
    {
        self.rank as u32
    }

    /// The rank as an index into per-place tables; `None` for a negative rank.
    pub fn index(&self) -> (r: Option<usize>)
        ensures
            self.rank >= 0 <==> r.is_some(),
            r.is_some() ==> r.unwrap() == self.rank,
    {
        if self.rank >= 0 {
            Some(self.rank as usize)
        } else {
            None
        }
    }
}

} // verus!
