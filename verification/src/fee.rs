//! The fee of a transaction, by the number of its inputs and outputs.

use vstd::prelude::*;

verus! {

/// What a transaction has to pay: a base amount, and an amount for each input
/// and each output.
#[derive(Clone, Copy, Debug, PartialEq, Eq, Structural)]
pub struct FeeSchedule {
    pub base: u64,
    pub per_input: u64,
    pub per_output: u64,
}

impl FeeSchedule {
    /// The fee of a transaction with `inputs` inputs and `outputs` outputs.
    pub open spec fn spec_fee(self, inputs: nat, outputs: nat) -> nat {
        self.base as nat + self.per_input as nat * inputs + self.per_output as nat * outputs
    }

    /// The fee of a transaction with `inputs` inputs and `outputs` outputs,
    /// or `None` where it is more than `u64` can hold.
    pub fn required_fee(&self, inputs: usize, outputs: usize) -> (r: Option<u64>)
        ensures
            r == if self.spec_fee(inputs as nat, outputs as nat) <= u64::MAX {
                Some(self.spec_fee(inputs as nat, outputs as nat) as u64)
            } else {
                None
            },
    {
        proof {
            assert(self.per_input as nat * inputs as nat <= u64::MAX * u64::MAX) by (nonlinear_arith)
                requires
                    self.per_input <= u64::MAX,
                    inputs <= u64::MAX,
            ;
            assert(self.per_output as nat * outputs as nat <= u64::MAX * u64::MAX)
                by (nonlinear_arith)
                requires
                    self.per_output <= u64::MAX,
                    outputs <= u64::MAX,
            ;
        }
        let for_inputs: u128 = self.per_input as u128 * inputs as u128;
        let for_outputs: u128 = self.per_output as u128 * outputs as u128;
        if for_inputs > u64::MAX as u128 || for_outputs > u64::MAX as u128 {
            return None;
        }
        let fee: u128 = self.base as u128 + for_inputs + for_outputs;
        if fee > u64::MAX as u128 {
            None
        } else {
            Some(fee as u64)
        }
    }
}

} // verus!
