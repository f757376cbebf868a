//! Choosing the decoys of a transaction: for each input a ring of outputs of
//! the ledger among which the input hides.

use crate::error::Error;
use vstd::prelude::*;

verus! {

/// What a `DecoySampler` holds.
pub struct SamplerView {
    /// The number of outputs in the ledger.
    pub num_txos: u64,
    /// The outputs that may not serve as decoys.
    pub excluded: Seq<u64>,
    /// The number of decoys in a ring.
    pub ring_size: nat,
    /// The number of rings.
    pub num_rings: nat,
    /// The decoys chosen so far, in the order in which they were offered.
    pub chosen: Seq<u64>,
}

impl SamplerView {
    /// The number of decoys that fill all rings.
    pub open spec fn needed(self) -> nat {
        self.ring_size * self.num_rings
    }

    /// All rings are filled.
    pub open spec fn complete(self) -> bool {
        self.chosen.len() == self.needed()
    }

    /// The output `index` can be taken as the next decoy: rings are still
    /// open, the ledger holds the output, it is not excluded and not chosen
    /// yet.
    pub open spec fn accepts(self, index: u64) -> bool {
        &&& !self.complete()
        &&& index < self.num_txos
        &&& !self.excluded.contains(index)
        &&& !self.chosen.contains(index)
    }

    /// The decoys are outputs of the ledger, none is excluded, none stands
    /// twice, and there are no more than fill the rings.
    pub open spec fn wf(self) -> bool {
        &&& self.chosen.len() <= self.needed()
        &&& self.needed() <= self.num_txos
        &&& forall|i: int|
            0 <= i < self.chosen.len() ==> (#[trigger] self.chosen[i]) < self.num_txos
                && !self.excluded.contains(self.chosen[i])
        &&& forall|i: int, j: int|
            0 <= i < j < self.chosen.len() ==> #[trigger] self.chosen[i] != #[trigger] self.chosen[j]
    }
}

/// The ledger with `num_txos` outputs, `excluded` of which may not be used,
/// can fill `num_rings` rings of `ring_size` decoys.
pub open spec fn ledger_fills_rings(
    num_txos: u64,
    excluded: Seq<u64>,
    ring_size: nat,
    num_rings: nat,
) -> bool {
    excluded.len() <= num_txos && ring_size * num_rings <= num_txos - excluded.len()
}

/// Collects the decoys for the rings of a transaction from the outputs that
/// a caller offers, which it draws at random from the ledger.
#[derive(Debug)]
pub struct DecoySampler {
    num_txos: u64,
    excluded: Vec<u64>,
    ring_size: usize,
    num_rings: usize,
    chosen: Vec<u64>,
}

impl View for DecoySampler {
    type V = SamplerView;

    closed spec fn view(&self) -> SamplerView {
        SamplerView {
            num_txos: self.num_txos,
            excluded: self.excluded@,
            ring_size: self.ring_size as nat,
            num_rings: self.num_rings as nat,
            chosen: self.chosen@,
        }
    }
}

/// Tells whether `x` stands in `v`.
fn holds(v: &Vec<u64>, x: u64) -> (r: bool)
    ensures
        r == v@.contains(x),
{
    let mut i: usize = 0;
    while i < v.len()
        invariant
            i <= v.len(),
            forall|j: int| 0 <= j < i ==> v@[j] != x,
        decreases v.len() - i,
    {
        if v[i] == x {
            return true;
        }
        i += 1;
    }
    false
}

impl DecoySampler {
    /// What holds of every sampler: its decoys are outputs of the ledger,
    /// none is excluded, none stands twice, and there are no more than fill
    /// the rings.
    pub open spec fn wf(&self) -> bool {
        self@.wf()
    }

    /// The number of decoys that fill all rings.
    fn needed(&self) -> (n: u128)
        ensures
            n == self@.needed(),
    {
        proof {
            assert(self.ring_size as nat * self.num_rings as nat <= u64::MAX * u64::MAX)
                by (nonlinear_arith)
                requires
                    self.ring_size <= u64::MAX,
                    self.num_rings <= u64::MAX,
            ;
        }
        self.ring_size as u128 * self.num_rings as u128
    }

    /// A sampler for `num_rings` rings of `ring_size` decoys each, drawn from
    /// a ledger of `num_txos` outputs without those in `excluded`. The ledger
    /// must hold enough outputs besides the excluded ones.
    pub fn new(num_txos: u64, excluded: Vec<u64>, ring_size: usize, num_rings: usize) -> (r: Result<
        DecoySampler,
        Error,
    >)
        ensures
            match r {
                Ok(s) => {
                    &&& ledger_fills_rings(num_txos, excluded@, ring_size as nat, num_rings as nat)
                    &&& s.wf()
                    &&& s@ == SamplerView {
                        num_txos,
                        excluded: excluded@,
                        ring_size: ring_size as nat,
                        num_rings: num_rings as nat,
                        chosen: Seq::empty(),
                    }
                },
                Err(e) => e == Error::InsufficientTxOuts && !ledger_fills_rings(
                    num_txos,
                    excluded@,
                    ring_size as nat,
                    num_rings as nat,
                ),
            },
    {
        proof {
            assert(ring_size as nat * num_rings as nat <= u64::MAX * u64::MAX) by (nonlinear_arith)
                requires
                    ring_size <= u64::MAX,
                    num_rings <= u64::MAX,
            ;
        }
        let needed: u128 = ring_size as u128 * num_rings as u128;
        if excluded.len() as u128 > num_txos as u128 {
            return Err(Error::InsufficientTxOuts);
        }
        if needed > num_txos as u128 - excluded.len() as u128 {
            return Err(Error::InsufficientTxOuts);
        }
        Ok(
            DecoySampler {
                num_txos,
                excluded,
                ring_size,
                num_rings,
                chosen: Vec::new(),
            },
        )
    }

    /// Tells whether all rings are filled.
    pub fn is_complete(&self) -> (r: bool)
        requires
            self.wf(),
        ensures
            r == self@.complete(),
    {
        self.chosen.len() as u128 == self.needed()
    }

    /// The number of decoys chosen so far.
    pub fn len(&self) -> (n: usize)
        ensures
            n == self@.chosen.len(),
    {
        self.chosen.len()
    }

    /// Offers the output `index` as the next decoy and tells whether it was
    /// taken. An output that is not taken changes nothing.
    pub fn offer(&mut self, index: u64) -> (taken: bool)
        requires
            old(self).wf(),
        ensures
            final(self).wf(),
            taken == old(self)@.accepts(index),
            final(self)@ == if taken {
                SamplerView { chosen: old(self)@.chosen.push(index), ..old(self)@ }
            } else {
                old(self)@
            },
    {
        if self.chosen.len() as u128 == self.needed() || index >= self.num_txos || holds(
            &self.excluded,
            index,
        ) || holds(&self.chosen, index) {
            return false;
        }
        self.chosen.push(index);
        true
    }

    /// The rings, or `None` while they are not all filled. Ring `r` holds
    /// the decoys chosen at the places from `r * ring_size` on.
    pub fn rings(&self) -> (r: Option<Vec<Vec<u64>>>)
        requires
            self.wf(),
        ensures
            r is Some <==> self@.complete(),
            r matches Some(rings) ==> {
                &&& rings@.len() == self@.num_rings
                &&& forall|a: int|
                    0 <= a < rings@.len() ==> (#[trigger] rings@[a])@ == self@.chosen.subrange(
                        a * self@.ring_size,
                        a * self@.ring_size + self@.ring_size,
                    )
            },
    {
        if self.chosen.len() as u128 != self.needed() {
            return None;
        }
        let mut rings: Vec<Vec<u64>> = Vec::new();
        let mut a: usize = 0;
        let mut at: usize = 0;
        while a < self.num_rings
            invariant
                a <= self.num_rings,
                self.chosen@.len() == self.ring_size * self.num_rings,
                self.chosen@.len() <= usize::MAX,
                at == a * self.ring_size,
                rings@.len() == a,
                forall|x: int|
                    0 <= x < a ==> (#[trigger] rings@[x])@ == self.chosen@.subrange(
                        x * self.ring_size,
                        x * self.ring_size + self.ring_size,
                    ),
            decreases self.num_rings - a,
        {
            proof {
                assert((a + 1) * self.ring_size <= self.num_rings * self.ring_size)
                    by (nonlinear_arith)
                    requires
                        a + 1 <= self.num_rings,
                ;
                assert((a + 1) * self.ring_size == a * self.ring_size + self.ring_size)
                    by (nonlinear_arith);
                assert(self.ring_size * self.num_rings == self.num_rings * self.ring_size)
                    by (nonlinear_arith);
            }
            let mut ring: Vec<u64> = Vec::new();
            let mut c: usize = 0;
            while c < self.ring_size
                invariant
                    c <= self.ring_size,
                    at + self.ring_size <= self.chosen@.len(),
                    self.chosen@.len() <= usize::MAX,
                    ring@ == self.chosen@.subrange(at as int, at + c),
                decreases self.ring_size - c,
            {
                ring.push(self.chosen[at + c]);
                proof {
                    assert(ring@ =~= self.chosen@.subrange(at as int, at + c + 1));
                }
                c += 1;
            }
            rings.push(ring);
            at = at + self.ring_size;
            a += 1;
        }
        Some(rings)
    }
}

} // verus!
