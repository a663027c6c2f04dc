//! Disaster-cost primitive: the cost a player bears when a disaster occurs.

use vstd::prelude::*;

use crate::fixed::ints;
use crate::strategies::dup_vec;

verus! {

/// A constant per-player disaster cost.
#[derive(Clone, Debug)]
pub struct ConstantDisasterCost {
    pub d: Vec<i64>,
}

impl View for ConstantDisasterCost {
    type V = Seq<int>;

    open spec fn view(&self) -> Seq<int> {
        ints(self.d@)
    }
}

impl ConstantDisasterCost {
    /// Player count.
    pub fn n(&self) -> (r: usize)
        ensures
            r as int == self@.len(),
    {
        self.d.len()
    }

    /// An exact copy.
    pub fn dup(&self) -> (r: ConstantDisasterCost)
        ensures
            r@ == self@,
    {
        let r = ConstantDisasterCost { d: dup_vec(&self.d) };
        proof {
            assert(r@ =~= self@);
        }
        r
    }

    /// Cost to player `i` on disaster; independent of outputs.
    pub fn d_i(&self, i: usize, s: &Vec<i64>, p: &Vec<i64>) -> (r: i64)
        requires
            i < self@.len(),
        ensures
            r as int == self@[i as int],
    {
        let _ = s;
        let _ = p;
        self.d[i]
    }

    /// Costs of all players on disaster.
    pub fn d(&self, s: &Vec<i64>, p: &Vec<i64>) -> (r: Vec<i64>)
        ensures
            r@.len() == self@.len(),
            forall|i: int| 0 <= i < self@.len() ==> (#[trigger] r@[i]) as int == self@[i],
    {
        let _ = s;
        let _ = p;
        let r = dup_vec(&self.d);
        proof {
            assert forall|i: int| 0 <= i < self@.len() implies (#[trigger] r@[i]) as int
                == self@[i] by {
            }
        }
        r
    }
}

} // verus!
