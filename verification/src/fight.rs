//! A fight: its participants and the order in which they act.
use vstd::prelude::*;

use crate::game::Entity;

verus! {

/// One fight: the entities in it, the initiative each has rolled, and the
/// round count.
#[derive(Debug)]
pub struct Fight {
    /// all entities acting in the fight
    pub entities: Vec<Entity>,
    /// order in which the entities in the fight can act
    pub iniative: Vec<isize>,
    pub round: isize,
}

/// Relies on `rand::random_range`: a value drawn by the thread-local
/// generator from the given range, here `0..12`.
#[verifier::external_body]
fn roll_initiative() -> (r: isize)
    ensures
        0 <= r < 12,
{
    rand::random_range(0i64..12i64) as isize
}

impl Fight {
    /// A fight among `entities`, in round zero, before any initiative is
    /// rolled.
    pub fn new(entities: Vec<Entity>) -> (r: Fight)
        ensures
            r.entities@ == entities@,
            r.iniative@ == Seq::<isize>::empty(),
            r.round == 0,
    {
        let r = Fight { entities, round: 0, iniative: Vec::new() };
        proof {
            assert(r.iniative@ =~= Seq::<isize>::empty());
        }
        r
    }

    /// Rolls one initiative value per entity; whatever the dice say, there
    /// is one value per entity and each lies in `0..12`.
    pub fn ini(&mut self)
        ensures
            final(self).iniative@.len() == final(self).entities@.len(),
            forall|k: int|
                0 <= k < final(self).iniative@.len() ==> 0 <= #[trigger] final(self).iniative@[k]
                    < 12,
            final(self).entities@ == old(self).entities@,
            final(self).round == old(self).round,
    {
        let mut inis: Vec<isize> = Vec::new();
        let n = self.entities.len();
        let mut k: usize = 0;
        while k < n
            invariant
                k <= n,
                inis@.len() == k,
                forall|x: int| 0 <= x < k ==> 0 <= #[trigger] inis@[x] < 12,
            decreases n - k,
        {
            inis.push(roll_initiative());
            k = k + 1;
        }
        self.iniative = inis;
    }

    /// Starts the next round.
    pub fn start(&mut self)
        requires
            old(self).round < isize::MAX,
        ensures
            final(self).round == old(self).round + 1,
            final(self).entities@ == old(self).entities@,
            final(self).iniative@ == old(self).iniative@,
    {
        self.round = self.round + 1;
    }
}

} // verus!
