//! Building one transaction, stage by stage: choose the inputs, choose the
//! decoys, settle the fee, have the transaction signed.

use crate::database::Database;
use crate::decoys::{ledger_fills_rings, DecoySampler, SamplerView};
use crate::error::Error;
use crate::fee::FeeSchedule;
use crate::selection::{max_spendable, select_for, select_inputs};
use crate::types::{Key32, MonitorId};
use crate::monitor_store::has_monitor;
use crate::utxo_store::{owned_by, sum_values, total_value, UnspentTxOut};
use vstd::prelude::*;

verus! {

/// What a caller asks for: `amount` to `recipient`, paid from the outputs of
/// the monitor, with `fee` for the network.
#[derive(Clone, Copy, Debug, PartialEq, Eq, Structural)]
pub struct TxRequest {
    pub monitor_id: MonitorId,
    pub recipient: Key32,
    pub amount: u64,
    pub fee: u64,
}

/// What one transaction can take.
#[derive(Clone, Copy, Debug, PartialEq, Eq, Structural)]
pub struct BuildLimits {
    /// The largest number of inputs.
    pub max_inputs: usize,
    /// The number of decoys that hide each input.
    pub ring_size: usize,
}

/// A transaction that is planned: what it pays, what it spends, among which
/// decoys, and what comes back as change.
#[derive(Debug)]
pub struct TxProposal {
    pub request: TxRequest,
    /// The outputs that the transaction spends.
    pub inputs: Vec<UnspentTxOut>,
    /// The decoys, one ring for each input.
    pub rings: Vec<Vec<u64>>,
    /// What the inputs hold beyond amount and fee.
    pub change: u64,
    /// The recipient's routing hint, encrypted for the privacy relay, if
    /// there is one.
    pub routing_hint: Option<Vec<u8>>,
}

/// How the signing of a planned transaction ended.
#[derive(Debug)]
pub enum SignOutcome {
    /// The transaction is signed; the routing hint is attached if the
    /// recipient uses the privacy relay.
    Signed { routing_hint: Option<Vec<u8>> },
    /// The routing hint could not be made.
    FogFailed(String),
    /// The transaction could not be assembled.
    Failed(String),
}

/// The stages of a build.
#[derive(Clone, Copy, Debug, PartialEq, Eq, Structural)]
pub enum BuildStage {
    SelectInputs,
    SelectDecoys,
    ComputeFee,
    AssembleAndSign,
    Success,
    Failed,
}

/// A build, with what it has gathered at its stage.
#[derive(Debug)]
pub enum TxBuild {
    /// Nothing is chosen yet.
    SelectInputs { request: TxRequest, limits: BuildLimits },
    /// The inputs are chosen; the decoys are being collected.
    SelectDecoys { request: TxRequest, inputs: Vec<UnspentTxOut>, change: u64, sampler: DecoySampler },
    /// Inputs and decoys are chosen; the fee is to be settled.
    ComputeFee { request: TxRequest, inputs: Vec<UnspentTxOut>, change: u64, rings: Vec<Vec<u64>> },
    /// The transaction is planned and waits to be signed.
    AssembleAndSign { proposal: TxProposal },
    /// The transaction is signed.
    Success { proposal: TxProposal },
    /// The build failed.
    Failed { error: Error },
}

/// The output ids of `s`, in its order.
pub open spec fn output_ids(s: Seq<UnspentTxOut>) -> Seq<u64> {
    s.map_values(|u: UnspentTxOut| u.output_id)
}

/// Every output of `inputs` is still recorded in `utxos` as it was chosen.
pub open spec fn inputs_unspent(utxos: Seq<UnspentTxOut>, inputs: Seq<UnspentTxOut>) -> bool {
    forall|i: int| 0 <= i < inputs.len() ==> utxos.contains(#[trigger] inputs[i])
}

/// The number of outputs of a transaction: the payment, and the change if
/// there is any.
pub open spec fn num_outputs(change: u64) -> nat {
    if change > 0 {
        2
    } else {
        1
    }
}

/// The output ids of `inputs`, in their order.
fn ids_of(inputs: &Vec<UnspentTxOut>) -> (r: Vec<u64>)
    ensures
        r@ == output_ids(inputs@),
{
    let mut out: Vec<u64> = Vec::new();
    let mut i: usize = 0;
    while i < inputs.len()
        invariant
            i <= inputs.len(),
            out@ == output_ids(inputs@.take(i as int)),
        decreases inputs.len() - i,
    {
        out.push(inputs[i].output_id);
        proof {
            assert(out@ =~= output_ids(inputs@.take(i as int + 1)));
        }
        i += 1;
    }
    proof {
        assert(inputs@.take(i as int) =~= inputs@);
    }
    out
}

/// Tells whether every output of `inputs` is still recorded in `db` as it was
/// chosen.
pub fn all_unspent(db: &Database, inputs: &Vec<UnspentTxOut>) -> (r: bool)
    requires
        db.wf(),
    ensures
        r == inputs_unspent(db.utxos@, inputs@),
{
    let mut i: usize = 0;
    while i < inputs.len()
        invariant
            i <= inputs.len(),
            db.wf(),
            forall|j: int| 0 <= j < i ==> db.utxos@.contains(#[trigger] inputs@[j]),
        decreases inputs.len() - i,
    {
        let u = inputs[i];
        match db.utxos.get(u.output_id) {
            Ok(found) => {
                if found != u {
                    proof {
                        if db.utxos@.contains(u) {
                            let a = choose|a: int| 0 <= a < db.utxos@.len() && db.utxos@[a] == u;
                            let b = choose|b: int| 0 <= b < db.utxos@.len() && db.utxos@[b] == found;
                            assert(db.utxos@[a].output_id == db.utxos@[b].output_id);
                        }
                    }
                    return false;
                }
            },
            Err(_) => {
                proof {
                    if db.utxos@.contains(u) {
                        let a = choose|a: int| 0 <= a < db.utxos@.len() && db.utxos@[a] == u;
                        assert(db.utxos@[a].output_id == u.output_id);
                    }
                }
                return false;
            },
        }
        i += 1;
    }
    true
}

impl TxBuild {
    /// The stage of the build.
    pub open spec fn spec_stage(self) -> BuildStage {
        match self {
            TxBuild::SelectInputs { .. } => BuildStage::SelectInputs,
            TxBuild::SelectDecoys { .. } => BuildStage::SelectDecoys,
            TxBuild::ComputeFee { .. } => BuildStage::ComputeFee,
            TxBuild::AssembleAndSign { .. } => BuildStage::AssembleAndSign,
            TxBuild::Success { .. } => BuildStage::Success,
            TxBuild::Failed { .. } => BuildStage::Failed,
        }
    }

    /// What holds of every build: its sampler, if it has one, is well
    /// formed and collects one ring for each input.
    pub open spec fn wf(self) -> bool {
        self matches TxBuild::SelectDecoys { inputs, sampler, .. } ==> sampler.wf()
            && sampler@.num_rings == inputs@.len()
    }

    /// A build that has chosen nothing yet.
    pub fn start(request: TxRequest, limits: BuildLimits) -> (b: TxBuild)
        ensures
            b == (TxBuild::SelectInputs { request, limits }),
            b.wf(),
    {
        TxBuild::SelectInputs { request, limits }
    }

    /// Starts a build for the monitor that `request` names and chooses its
    /// inputs among all unspent outputs of that monitor, as `select_inputs`
    /// does. The build fails at once where the monitor is not registered.
    pub fn for_monitor(db: &Database, request: TxRequest, limits: BuildLimits, num_txos: u64) -> (next:
        TxBuild)
        requires
            db.wf(),
        ensures
            next.wf(),
            ({
                let utxos = db.utxos@.filter(owned_by(request.monitor_id));
                let target = request.amount + request.fee;
                let chosen = select_for(utxos, target, limits.max_inputs as nat);
                if !has_monitor(db.monitors@, request.monitor_id) {
                    next matches TxBuild::Failed { error } && error == Error::MonitorIdNotFound
                } else if total_value(utxos) < target {
                    next matches TxBuild::Failed { error } && error == Error::InsufficientFunds
                } else if max_spendable(utxos, limits.max_inputs as nat) < target {
                    next matches TxBuild::Failed { error } && error
                        == Error::InsufficientFundsFragmentedUtxos
                } else if total_value(chosen) - target > u64::MAX {
                    next matches TxBuild::Failed { error } && error is TxBuildError
                } else if !ledger_fills_rings(
                    num_txos,
                    output_ids(chosen),
                    limits.ring_size as nat,
                    chosen.len(),
                ) {
                    next matches TxBuild::Failed { error } && error == Error::InsufficientTxOuts
                } else {
                    &&& next matches TxBuild::SelectDecoys {
                        request: r,
                        inputs,
                        change,
                        sampler,
                    }
                    &&& r == request
                    &&& inputs@ == chosen
                    &&& change == total_value(chosen) - target
                    &&& sampler@ == SamplerView {
                        num_txos,
                        excluded: output_ids(chosen),
                        ring_size: limits.ring_size as nat,
                        num_rings: chosen.len(),
                        chosen: Seq::empty(),
                    }
                }
            }),
    {
        if !db.monitors.contains(request.monitor_id) {
            return TxBuild::Failed { error: Error::MonitorIdNotFound };
        }
        let utxos = db.utxos.list_for_monitor(request.monitor_id);
        TxBuild::start(request, limits).select_inputs(&utxos, num_txos)
    }

    /// The stage of the build.
    pub fn stage(&self) -> (s: BuildStage)
        ensures
            s == self.spec_stage(),
    {
        match self {
            TxBuild::SelectInputs { .. } => BuildStage::SelectInputs,
            TxBuild::SelectDecoys { .. } => BuildStage::SelectDecoys,
            TxBuild::ComputeFee { .. } => BuildStage::ComputeFee,
            TxBuild::AssembleAndSign { .. } => BuildStage::AssembleAndSign,
            TxBuild::Success { .. } => BuildStage::Success,
            TxBuild::Failed { .. } => BuildStage::Failed,
        }
    }

    /// Chooses the inputs from `utxos`, the monitor's unspent outputs, to
    /// pay amount and fee, and prepares the choice of decoys from a ledger of
    /// `num_txos` outputs. The build fails where the funds are insufficient
    /// or fragmented, where the change is more than one output can hold, and
    /// where the ledger cannot fill the rings. At any other stage the build
    /// stays as it is.
    pub fn select_inputs(self, utxos: &Vec<UnspentTxOut>, num_txos: u64) -> (next: TxBuild)
        requires
            self.wf(),
        ensures
            next.wf(),
            match self {
                TxBuild::SelectInputs { request, limits } => {
                    let target = request.amount + request.fee;
                    let chosen = select_for(utxos@, target, limits.max_inputs as nat);
                    if total_value(utxos@) < target {
                        next matches TxBuild::Failed { error } && error == Error::InsufficientFunds
                    } else if max_spendable(utxos@, limits.max_inputs as nat) < target {
                        next matches TxBuild::Failed { error } && error
                            == Error::InsufficientFundsFragmentedUtxos
                    } else if total_value(chosen) - target > u64::MAX {
                        next matches TxBuild::Failed { error } && error is TxBuildError
                    } else if !ledger_fills_rings(
                        num_txos,
                        output_ids(chosen),
                        limits.ring_size as nat,
                        chosen.len(),
                    ) {
                        next matches TxBuild::Failed { error } && error == Error::InsufficientTxOuts
                    } else {
                        &&& next matches TxBuild::SelectDecoys {
                            request: r,
                            inputs,
                            change,
                            sampler,
                        }
                        &&& r == request
                        &&& inputs@ == chosen
                        &&& change == total_value(chosen) - target
                        &&& sampler@ == SamplerView {
                            num_txos,
                            excluded: output_ids(chosen),
                            ring_size: limits.ring_size as nat,
                            num_rings: chosen.len(),
                            chosen: Seq::empty(),
                        }
                    }
                },
                _ => next == self,
            },
    {
        match self {
            TxBuild::SelectInputs { request, limits } => {
                let target: u128 = request.amount as u128 + request.fee as u128;
                let inputs = match select_inputs(utxos, target, limits.max_inputs) {
                    Ok(chosen) => chosen,
                    Err(error) => {
                        return TxBuild::Failed { error };
                    },
                };
                let change: u128 = sum_values(&inputs) - target;
                if change > u64::MAX as u128 {
                    return TxBuild::Failed {
                        error: Error::TxBuildError(
                            "the change is more than one output can hold".to_owned(),
                        ),
                    };
                }
                let excluded = ids_of(&inputs);
                match DecoySampler::new(num_txos, excluded, limits.ring_size, inputs.len()) {
                    Ok(sampler) => TxBuild::SelectDecoys {
                        request,
                        inputs,
                        change: change as u64,
                        sampler,
                    },
                    Err(error) => TxBuild::Failed { error },
                }
            },
            other => other,
        }
    }

    /// Offers the output `index` of the ledger as a decoy. It is taken where
    /// the rings are still open, the ledger holds it, it is no input of the
    /// transaction and not chosen yet. At any other stage than the choice of
    /// decoys the build stays as it is.
    pub fn offer_decoy(self, index: u64) -> (next: TxBuild)
        requires
            self.wf(),
        ensures
            next.wf(),
            match self {
                TxBuild::SelectDecoys { request, inputs, change, sampler } => {
                    &&& next matches TxBuild::SelectDecoys {
                        request: r,
                        inputs: i,
                        change: c,
                        sampler: s,
                    }
                    &&& r == request
                    &&& i == inputs
                    &&& c == change
                    &&& s@ == if sampler@.accepts(index) {
                        SamplerView { chosen: sampler@.chosen.push(index), ..sampler@ }
                    } else {
                        sampler@
                    }
                },
                _ => next == self,
            },
    {
        match self {
            TxBuild::SelectDecoys { request, inputs, change, sampler } => {
                let mut sampler = sampler;
                sampler.offer(index);
                TxBuild::SelectDecoys { request, inputs, change, sampler }
            },
            other => other,
        }
    }

    /// Tells whether the build is collecting decoys and still needs some.
    pub fn needs_decoys(&self) -> (r: bool)
        requires
            self.wf(),
        ensures
            r == (self matches TxBuild::SelectDecoys { sampler, .. } && !sampler@.complete()),
    {
        match self {
            TxBuild::SelectDecoys { sampler, .. } => !sampler.is_complete(),
            _ => false,
        }
    }

    /// Ends the choice of decoys once all rings are filled, and hands the
    /// rings on. While decoys are missing, and at any other stage, the build
    /// stays as it is.
    pub fn close_decoys(self) -> (next: TxBuild)
        requires
            self.wf(),
        ensures
            next.wf(),
            match self {
                TxBuild::SelectDecoys { request, inputs, change, sampler } => if sampler@.complete() {
                    &&& next matches TxBuild::ComputeFee {
                        request: r,
                        inputs: i,
                        change: c,
                        rings,
                    }
                    &&& r == request
                    &&& i == inputs
                    &&& c == change
                    &&& rings@.len() == inputs@.len()
                    &&& forall|a: int|
                        0 <= a < rings@.len() ==> (#[trigger] rings@[a])@
                            == sampler@.chosen.subrange(
                            a * sampler@.ring_size,
                            a * sampler@.ring_size + sampler@.ring_size,
                        )
                } else {
                    next == self
                },
                _ => next == self,
            },
    {
        match self {
            TxBuild::SelectDecoys { request, inputs, change, sampler } => {
                match sampler.rings() {
                    Some(rings) => TxBuild::ComputeFee { request, inputs, change, rings },
                    None => TxBuild::SelectDecoys { request, inputs, change, sampler },
                }
            },
            other => other,
        }
    }

    /// Settles the fee: the schedule's fee for the inputs and outputs of the
    /// transaction must not be more than the fee that the request offers.
    /// Where it is, or is more than `u64` can hold, the build fails. At any
    /// other stage the build stays as it is.
    pub fn compute_fee(self, schedule: &FeeSchedule) -> (next: TxBuild)
        requires
            self.wf(),
        ensures
            next.wf(),
            match self {
                TxBuild::ComputeFee { request, inputs, change, rings } => if schedule.spec_fee(
                    inputs@.len(),
                    num_outputs(change),
                ) <= request.fee {
                    &&& next matches TxBuild::AssembleAndSign { proposal }
                    &&& proposal.request == request
                    &&& proposal.inputs == inputs
                    &&& proposal.rings == rings
                    &&& proposal.change == change
                    &&& proposal.routing_hint is None
                } else {
                    next matches TxBuild::Failed { error } && error is TxBuildError
                },
                _ => next == self,
            },
    {
        match self {
            TxBuild::ComputeFee { request, inputs, change, rings } => {
                let outputs: usize = if change > 0 {
                    2
                } else {
                    1
                };
                match schedule.required_fee(inputs.len(), outputs) {
                    Some(fee) => {
                        if fee <= request.fee {
                            return TxBuild::AssembleAndSign {
                                proposal: TxProposal {
                                    request,
                                    inputs,
                                    rings,
                                    change,
                                    routing_hint: None,
                                },
                            };
                        }
                    },
                    None => {},
                }
                TxBuild::Failed {
                    error: Error::TxBuildError(
                        "the fee is below what the schedule asks".to_owned(),
                    ),
                }
            },
            other => other,
        }
    }

    /// Ends the build with what the signing gave. The build fails where an
    /// input is no longer recorded as unspent, whatever the signing gave;
    /// where the routing hint could not be made; and where the transaction
    /// could not be assembled. The stores are not touched. At any other stage
    /// the build stays as it is.
    pub fn finish(self, db: &Database, outcome: SignOutcome) -> (next: TxBuild)
        requires
            self.wf(),
            db.wf(),
        ensures
            next.wf(),
            match self {
                TxBuild::AssembleAndSign { proposal } => if !inputs_unspent(
                    db.utxos@,
                    proposal.inputs@,
                ) {
                    next matches TxBuild::Failed { error } && error is TxBuildError
                } else {
                    match outcome {
                        SignOutcome::Signed { routing_hint } => {
                            &&& next matches TxBuild::Success { proposal: signed }
                            &&& signed.request == proposal.request
                            &&& signed.inputs == proposal.inputs
                            &&& signed.rings == proposal.rings
                            &&& signed.change == proposal.change
                            &&& signed.routing_hint == routing_hint
                        },
                        SignOutcome::FogFailed(reason) => next matches TxBuild::Failed { error }
                            && error == Error::FogError(reason),
                        SignOutcome::Failed(reason) => next matches TxBuild::Failed { error }
                            && error == Error::TxBuildError(reason),
                    }
                },
                _ => next == self,
            },
    {
        match self {
            TxBuild::AssembleAndSign { proposal } => {
                if !all_unspent(db, &proposal.inputs) {
                    return TxBuild::Failed {
                        error: Error::TxBuildError(
                            "an input is no longer unspent".to_owned(),
                        ),
                    };
                }
                match outcome {
                    SignOutcome::Signed { routing_hint } => TxBuild::Success {
                        proposal: TxProposal {
                            request: proposal.request,
                            inputs: proposal.inputs,
                            rings: proposal.rings,
                            change: proposal.change,
                            routing_hint,
                        },
                    },
                    SignOutcome::FogFailed(reason) => TxBuild::Failed {
                        error: Error::FogError(reason),
                    },
                    SignOutcome::Failed(reason) => TxBuild::Failed {
                        error: Error::TxBuildError(reason),
                    },
                }
            },
            other => other,
        }
    }
}

} // verus!
