//! What the calls of governance cost: the time and the proof size that each
//! was measured to take, and the reads and writes of the ledger on top.
use vstd::prelude::*;

verus! {

/// The cost of a call: time of computation in picoseconds, and the size of
/// the proof in bytes.
#[derive(Clone, Copy, Debug, PartialEq, Eq, Structural)]
pub struct Weight {
    pub ref_time: u64,
    pub proof_size: u64,
}

/// The time that one read and one write of the ledger take.
#[derive(Clone, Copy, Debug, PartialEq, Eq, Structural)]
pub struct RuntimeDbWeight {
    pub read: u64,
    pub write: u64,
}

/// `x` held at the largest `u64`.
pub open spec fn cap_u64(x: int) -> u64 {
    if x > u64::MAX {
        u64::MAX
    } else if x < 0 {
        0
    } else {
        x as u64
    }
}

/// The cost of a call that was measured at `ref_time` and `proof_size` and
/// makes `reads` reads and `writes` writes: each sum and product held at the
/// largest `u64`.
pub open spec fn call_weight(
    ref_time: u64,
    proof_size: u64,
    reads: u64,
    writes: u64,
    db: RuntimeDbWeight,
) -> Weight {
    Weight {
        ref_time: cap_u64(
            cap_u64(ref_time + cap_u64(db.read * reads)) + cap_u64(db.write * writes),
        ),
        proof_size,
    }
}

fn times(a: u64, b: u64) -> (r: u64)
    ensures
        r == cap_u64(a * b),
{
    let x: u128 = a as u128;
    let y: u128 = b as u128;
    assert(x * y <= 0xffff_ffff_ffff_ffff * 0xffff_ffff_ffff_ffff) by (nonlinear_arith)
        requires
            0 <= x <= 0xffff_ffff_ffff_ffff,
            0 <= y <= 0xffff_ffff_ffff_ffff,
    ;
    let wide: u128 = x * y;
    if wide > u64::MAX as u128 {
        u64::MAX
    } else {
        wide as u64
    }
}

impl Weight {
    pub fn from_parts(ref_time: u64, proof_size: u64) -> (r: Weight)
        ensures
            r == (Weight { ref_time, proof_size }),
    {
        Weight { ref_time, proof_size }
    }

    /// The sum of two costs, each part held at the largest `u64`.
    pub fn saturating_add(self, rhs: Weight) -> (r: Weight)
        ensures
            r == (Weight {
                ref_time: cap_u64(self.ref_time + rhs.ref_time),
                proof_size: cap_u64(self.proof_size + rhs.proof_size),
            }),
    {
        Weight {
            ref_time: self.ref_time.saturating_add(rhs.ref_time),
            proof_size: self.proof_size.saturating_add(rhs.proof_size),
        }
    }
}

impl RuntimeDbWeight {
    /// The cost of `r` reads.
    pub fn reads(self, r: u64) -> (w: Weight)
        ensures
            w == (Weight { ref_time: cap_u64(self.read * r), proof_size: 0 }),
    {
        Weight { ref_time: times(self.read, r), proof_size: 0 }
    }

    /// The cost of `w` writes.
    pub fn writes(self, w: u64) -> (r: Weight)
        ensures
            r == (Weight { ref_time: cap_u64(self.write * w), proof_size: 0 }),
    {
        Weight { ref_time: times(self.write, w), proof_size: 0 }
    }
}

/// The cost of each call of governance.
pub trait WeightInfo {
    fn add_global_params_proposal(&self) -> Weight;

    fn add_subnet_params_proposal(&self) -> Weight;

    fn add_global_custom_proposal(&self) -> Weight;

    fn add_subnet_custom_proposal(&self) -> Weight;

    fn add_transfer_dao_treasury_proposal(&self) -> Weight;

    fn vote_proposal(&self) -> Weight;

    fn remove_vote_proposal(&self) -> Weight;

    fn enable_vote_power_delegation(&self) -> Weight;

    fn disable_vote_power_delegation(&self) -> Weight;

    fn add_dao_application(&self) -> Weight;

    fn refuse_dao_application(&self) -> Weight;

    fn add_to_whitelist(&self) -> Weight;

    fn remove_from_whitelist(&self) -> Weight;
}

/// The costs as they were measured, on a ledger whose reads and writes cost
/// what `db_weight` says.
#[derive(Clone, Copy, Debug, PartialEq, Eq, Structural)]
pub struct SubstrateWeight {
    pub db_weight: RuntimeDbWeight,
}

impl SubstrateWeight {
    fn cost(&self, ref_time: u64, proof_size: u64, reads: u64, writes: u64) -> (r: Weight)
        ensures
            r == call_weight(ref_time, proof_size, reads, writes, self.db_weight),
    {
        Weight::from_parts(ref_time, proof_size).saturating_add(
            self.db_weight.reads(reads),
        ).saturating_add(self.db_weight.writes(writes))
    }
}

impl WeightInfo for SubstrateWeight {
    /// The cost of proposing new global parameters.
    fn add_global_params_proposal(&self) -> (r: Weight)
        ensures
            r == call_weight(41_437_000, 3569, 17, 2, self.db_weight),
    {
        self.cost(41_437_000, 3569, 17, 2)
    }

    /// The cost of proposing new parameters of a subnet.
    fn add_subnet_params_proposal(&self) -> (r: Weight)
        ensures
            r == call_weight(105_367_000, 18248, 41, 2, self.db_weight),
    {
        self.cost(105_367_000, 18248, 41, 2)
    }

    /// The cost of a custom global proposal.
    fn add_global_custom_proposal(&self) -> (r: Weight)
        ensures
            r == call_weight(19_907_000, 3569, 3, 2, self.db_weight),
    {
        self.cost(19_907_000, 3569, 3, 2)
    }

    /// The cost of a custom proposal of a subnet.
    fn add_subnet_custom_proposal(&self) -> (r: Weight)
        ensures
            r == call_weight(23_184_000, 3569, 3, 2, self.db_weight),
    {
        self.cost(23_184_000, 3569, 3, 2)
    }

    /// The cost of proposing a transfer from the treasury.
    fn add_transfer_dao_treasury_proposal(&self) -> (r: Weight)
        ensures
            r == call_weight(24_515_000, 6148, 5, 2, self.db_weight),
    {
        self.cost(24_515_000, 6148, 5, 2)
    }

    /// The cost of a vote on a proposal.
    fn vote_proposal(&self) -> (r: Weight)
        ensures
            r == call_weight(27_301_000, 6911, 4, 1, self.db_weight),
    {
        self.cost(27_301_000, 6911, 4, 1)
    }

    /// The cost of taking a vote back.
    fn remove_vote_proposal(&self) -> (r: Weight)
        ensures
            r == call_weight(10_430_000, 3464, 1, 1, self.db_weight),
    {
        self.cost(10_430_000, 3464, 1, 1)
    }

    /// The cost of letting others vote with one's stake.
    fn enable_vote_power_delegation(&self) -> (r: Weight)
        ensures
            r == call_weight(3_457_000, 1484, 1, 1, self.db_weight),
    {
        self.cost(3_457_000, 1484, 1, 1)
    }

    /// The cost of no longer letting others vote with one's stake.
    fn disable_vote_power_delegation(&self) -> (r: Weight)
        ensures
            r == call_weight(3_567_000, 1484, 1, 1, self.db_weight),
    {
        self.cost(3_567_000, 1484, 1, 1)
    }

    /// The cost of an application to the whitelist.
    fn add_dao_application(&self) -> (r: Weight)
        ensures
            r == call_weight(19_246_000, 3812, 3, 2, self.db_weight),
    {
        self.cost(19_246_000, 3812, 3, 2)
    }

    /// The cost of refusing an application.
    fn refuse_dao_application(&self) -> (r: Weight)
        ensures
            r == call_weight(7_715_000, 3812, 2, 1, self.db_weight),
    {
        self.cost(7_715_000, 3812, 2, 1)
    }

    /// The cost of putting an account on the whitelist.
    fn add_to_whitelist(&self) -> (r: Weight)
        ensures
            r == call_weight(25_698_000, 6634, 5, 3, self.db_weight),
    {
        self.cost(25_698_000, 6634, 5, 3)
    }

    /// The cost of taking an account off the whitelist.
    fn remove_from_whitelist(&self) -> (r: Weight)
        ensures
            r == call_weight(8_095_000, 3498, 2, 1, self.db_weight),
    {
        self.cost(8_095_000, 3498, 2, 1)
    }
}

} // verus!
