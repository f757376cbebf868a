//! Choosing the outputs that a transaction spends.

use crate::error::Error;
use crate::utxo_store::{sum_values, total_value, UnspentTxOut};
use vstd::prelude::*;

verus! {

/// Where the largest amount of `s` stands; the first place, if it stands at
/// several.
pub open spec fn largest_index(s: Seq<UnspentTxOut>) -> int
    decreases s.len(),
{
    if s.len() <= 1 {
        0
    } else {
        let before = largest_index(s.drop_last());
        if s.last().value > s[before].value {
            s.len() - 1
        } else {
            before
        }
    }
}

/// The `k` largest outputs of `s`, largest first, or all of `s` in that
/// order if it has no more than `k`.
pub open spec fn take_largest(s: Seq<UnspentTxOut>, k: nat) -> Seq<UnspentTxOut>
    decreases k,
{
    if k == 0 || s.len() == 0 {
        Seq::empty()
    } else {
        let i = largest_index(s);
        seq![s[i]] + take_largest(s.remove(i), (k - 1) as nat)
    }
}

/// What is left of `s` when its `k` largest outputs are taken out.
pub open spec fn leave_largest(s: Seq<UnspentTxOut>, k: nat) -> Seq<UnspentTxOut>
    decreases k,
{
    if k == 0 || s.len() == 0 {
        s
    } else {
        leave_largest(s.remove(largest_index(s)), (k - 1) as nat)
    }
}

/// The most that one transaction with at most `k` inputs can spend of `s`.
pub open spec fn max_spendable(s: Seq<UnspentTxOut>, k: nat) -> nat {
    total_value(take_largest(s, k))
}

/// The outputs chosen from `s` to pay `target` with at most `k` inputs: the
/// largest first, one after the other, until the target is met or `k` are
/// chosen.
pub open spec fn select_for(s: Seq<UnspentTxOut>, target: int, k: nat) -> Seq<UnspentTxOut>
    decreases k,
{
    if target <= 0 || k == 0 || s.len() == 0 {
        Seq::empty()
    } else {
        let i = largest_index(s);
        seq![s[i]] + select_for(s.remove(i), target - s[i].value, (k - 1) as nat)
    }
}

/// The largest amount stands at a place of the sequence, and no amount
/// exceeds it.
pub proof fn lemma_largest_index(s: Seq<UnspentTxOut>)
    requires
        s.len() > 0,
    ensures
        0 <= largest_index(s) < s.len(),
        forall|j: int| 0 <= j < s.len() ==> (#[trigger] s[j]).value <= s[largest_index(s)].value,
    decreases s.len(),
{
    if s.len() > 1 {
        lemma_largest_index(s.drop_last());
        let before = largest_index(s.drop_last());
        assert forall|j: int| 0 <= j < s.len() implies (#[trigger] s[j]).value <= s[largest_index(
            s,
        )].value by {
            if j < s.len() - 1 {
                assert(s.drop_last()[j].value <= s.drop_last()[before].value);
            }
        }
    }
}

/// The amounts of two sequences, one after the other, add up.
pub proof fn lemma_total_of_concat(x: Seq<UnspentTxOut>, y: Seq<UnspentTxOut>)
    ensures
        total_value(x + y) == total_value(x) + total_value(y),
    decreases y.len(),
{
    if y.len() == 0 {
        assert(x + y =~= x);
    } else {
        assert((x + y).drop_last() =~= x + y.drop_last());
        lemma_total_of_concat(x, y.drop_last());
    }
}

/// The amount of a single output.
pub proof fn lemma_total_of_one(u: UnspentTxOut)
    ensures
        total_value(seq![u]) == u.value,
{
    reveal_with_fuel(total_value, 2);
    assert(seq![u].drop_last() =~= Seq::<UnspentTxOut>::empty());
}

/// The choice for a target reaches the target exactly when the `k` largest
/// outputs do, and it never has more than `k` outputs.
pub proof fn lemma_select_reaches(s: Seq<UnspentTxOut>, target: int, k: nat)
    ensures
        total_value(select_for(s, target, k)) >= target <==> max_spendable(s, k) >= target,
        select_for(s, target, k).len() <= k,
    decreases k,
{
    if target <= 0 || k == 0 || s.len() == 0 {
    } else {
        let i = largest_index(s);
        lemma_largest_index(s);
        let rest = s.remove(i);
        lemma_select_reaches(rest, target - s[i].value, (k - 1) as nat);
        lemma_total_of_concat(seq![s[i]], select_for(rest, target - s[i].value, (k - 1) as nat));
        lemma_total_of_concat(seq![s[i]], take_largest(rest, (k - 1) as nat));
        lemma_total_of_one(s[i]);
    }
}

/// A copy of `v`.
fn copy_of(v: &Vec<UnspentTxOut>) -> (r: Vec<UnspentTxOut>)
    ensures
        r@ == v@,
{
    let mut out: Vec<UnspentTxOut> = Vec::new();
    let mut i: usize = 0;
    while i < v.len()
        invariant
            i <= v.len(),
            out@ == v@.take(i as int),
        decreases v.len() - i,
    {
        out.push(v[i]);
        i += 1;
    }
    proof {
        assert(v@.take(i as int) =~= v@);
    }
    out
}

/// Where the largest amount of `v` stands.
fn index_of_largest(v: &Vec<UnspentTxOut>) -> (best: usize)
    requires
        v@.len() > 0,
    ensures
        best == largest_index(v@),
        best < v@.len(),
{
    let mut best: usize = 0;
    let mut i: usize = 1;
    proof {
        assert(v@.take(1).len() == 1);
    }
    while i < v.len()
        invariant
            1 <= i <= v.len(),
            best < i,
            best == largest_index(v@.take(i as int)),
        decreases v.len() - i,
    {
        proof {
            assert(v@.take(i as int + 1).drop_last() =~= v@.take(i as int));
        }
        if v[i].value > v[best].value {
            best = i;
        }
        i += 1;
    }
    proof {
        assert(v@.take(i as int) =~= v@);
    }
    best
}

/// The `k` largest outputs of `utxos`, largest first, and what is left of
/// `utxos` without them.
pub fn pick_largest(utxos: &Vec<UnspentTxOut>, k: usize) -> (r: (Vec<UnspentTxOut>, Vec<UnspentTxOut>))
    ensures
        r.0@ == take_largest(utxos@, k as nat),
        r.1@ == leave_largest(utxos@, k as nat),
{
    let mut pool = copy_of(utxos);
    let mut out: Vec<UnspentTxOut> = Vec::new();
    proof {
        assert(out@ + take_largest(pool@, k as nat) =~= take_largest(utxos@, k as nat));
    }
    while out.len() < k && pool.len() > 0
        invariant
            out@.len() <= k,
            take_largest(utxos@, k as nat) == out@ + take_largest(pool@, (k - out@.len()) as nat),
            leave_largest(utxos@, k as nat) == leave_largest(pool@, (k - out@.len()) as nat),
        decreases pool@.len(),
    {
        let i = index_of_largest(&pool);
        let ghost before = pool@;
        let u = pool.remove(i);
        out.push(u);
        proof {
            let rest = take_largest(before.remove(i as int), (k - out@.len()) as nat);
            assert(out@ + rest =~= out@.drop_last() + (seq![u] + rest));
        }
    }
    proof {
        assert(out@ + Seq::<UnspentTxOut>::empty() =~= out@);
    }
    (out, pool)
}

/// Merging the `k` largest outputs of `s` into one, at the cost of `fee`,
/// pays off: `s` has more outputs than one transaction takes, and the
/// outputs that come into the reach of one transaction by the merge, the
/// `k - 1` largest of the others, are worth more than the fee.
pub open spec fn merge_pays_off(s: Seq<UnspentTxOut>, k: nat, fee: u64) -> bool {
    &&& k >= 2
    &&& s.len() > k
    &&& max_spendable(leave_largest(s, k), (k - 1) as nat) > fee
}

/// Plans the merge of small holdings: the `max_inputs` largest outputs of
/// `utxos` are to be spent into one output, so that one transaction can then
/// spend them together with the next largest. Where that does not pay off,
/// the plan is refused as not beneficial and the caller goes on without it.
pub fn plan_merge(utxos: &Vec<UnspentTxOut>, max_inputs: usize, fee: u64) -> (r: Result<
    Vec<UnspentTxOut>,
    Error,
>)
    ensures
        match r {
            Ok(chosen) => merge_pays_off(utxos@, max_inputs as nat, fee) && chosen@
                == take_largest(utxos@, max_inputs as nat),
            Err(e) => e is OptimizationNotBeneficial && !merge_pays_off(
                utxos@,
                max_inputs as nat,
                fee,
            ),
        },
{
    if max_inputs < 2 || utxos.len() <= max_inputs {
        return Err(
            Error::OptimizationNotBeneficial(
                "one transaction can spend all outputs already".to_owned(),
            ),
        );
    }
    let (largest, others) = pick_largest(utxos, max_inputs);
    let (next, _) = pick_largest(&others, max_inputs - 1);
    if sum_values(&next) > fee as u128 {
        Ok(largest)
    } else {
        Err(
            Error::OptimizationNotBeneficial(
                "the outputs that come into reach are worth no more than the fee".to_owned(),
            ),
        )
    }
}

/// Chooses from `utxos` the outputs that pay `target` with at most
/// `max_inputs` inputs. Where all outputs together do not reach the target,
/// the funds are insufficient; where they do, but the `max_inputs` largest do
/// not, the funds are fragmented.
pub fn select_inputs(utxos: &Vec<UnspentTxOut>, target: u128, max_inputs: usize) -> (r: Result<
    Vec<UnspentTxOut>,
    Error,
>)
    ensures
        match r {
            Ok(chosen) => {
                &&& chosen@ == select_for(utxos@, target as int, max_inputs as nat)
                &&& chosen@.len() <= max_inputs
                &&& total_value(chosen@) >= target
                &&& total_value(utxos@) >= target
                &&& max_spendable(utxos@, max_inputs as nat) >= target
            },
            Err(e) => if total_value(utxos@) < target {
                e == Error::InsufficientFunds
            } else {
                e == Error::InsufficientFundsFragmentedUtxos && max_spendable(
                    utxos@,
                    max_inputs as nat,
                ) < target
            },
        },
{
    if sum_values(utxos) < target {
        return Err(Error::InsufficientFunds);
    }
    let mut pool = copy_of(utxos);
    let mut chosen: Vec<UnspentTxOut> = Vec::new();
    let mut got: u128 = 0;
    proof {
        assert(chosen@ + select_for(pool@, target as int, max_inputs as nat) =~= select_for(
            utxos@,
            target as int,
            max_inputs as nat,
        ));
        assert(chosen@ + take_largest(pool@, max_inputs as nat) =~= take_largest(
            utxos@,
            max_inputs as nat,
        ));
    }
    while got < target && chosen.len() < max_inputs && pool.len() > 0
        invariant
            chosen@.len() <= max_inputs,
            got == total_value(chosen@),
            got <= chosen@.len() * u64::MAX,
            select_for(utxos@, target as int, max_inputs as nat) == chosen@ + select_for(
                pool@,
                target - got,
                (max_inputs - chosen@.len()) as nat,
            ),
            take_largest(utxos@, max_inputs as nat) == chosen@ + take_largest(
                pool@,
                (max_inputs - chosen@.len()) as nat,
            ),
        decreases pool@.len(),
    {
        let i = index_of_largest(&pool);
        let ghost before = pool@;
        let ghost had = chosen@;
        let u = pool.remove(i);
        chosen.push(u);
        proof {
            let left = (max_inputs - chosen@.len()) as nat;
            let more = select_for(before.remove(i as int), target - got - u.value, left);
            let top = take_largest(before.remove(i as int), left);
            assert(chosen@ + more =~= had + (seq![u] + more));
            assert(chosen@ + top =~= had + (seq![u] + top));
            assert(chosen@.drop_last() =~= had);
            assert((had.len() + 1) * u64::MAX == had.len() * u64::MAX + u64::MAX)
                by (nonlinear_arith);
            assert(had.len() * u64::MAX <= usize::MAX * u64::MAX) by (nonlinear_arith)
                requires
                    had.len() <= usize::MAX,
            ;
            assert(usize::MAX * u64::MAX <= u64::MAX * u64::MAX) by (nonlinear_arith)
                requires
                    usize::MAX <= u64::MAX,
            ;
        }
        got = got + u.value as u128;
    }
    proof {
        let left = (max_inputs - chosen@.len()) as nat;
        lemma_total_of_concat(chosen@, take_largest(pool@, left));
        if got < target {
            assert(take_largest(pool@, left) =~= Seq::<UnspentTxOut>::empty());
            assert(chosen@ + Seq::<UnspentTxOut>::empty() =~= chosen@);
        } else {
            assert(select_for(pool@, target - got, left) =~= Seq::<UnspentTxOut>::empty());
            assert(chosen@ + Seq::<UnspentTxOut>::empty() =~= chosen@);
        }
    }
    if got < target {
        Err(Error::InsufficientFundsFragmentedUtxos)
    } else {
        Ok(chosen)
    }
}

/// The places `picks` are places of `s`, and none stands twice.
pub open spec fn picks_are_valid(s: Seq<UnspentTxOut>, picks: Seq<int>) -> bool {
    &&& forall|a: int| 0 <= a < picks.len() ==> 0 <= #[trigger] picks[a] < s.len()
    &&& forall|a: int, b: int| 0 <= a < b < picks.len() ==> #[trigger] picks[a] != #[trigger] picks[b]
}

/// The sum of the amounts of `s` at the places `picks`.
pub open spec fn picked_value(s: Seq<UnspentTxOut>, picks: Seq<int>) -> nat
    decreases picks.len(),
{
    if picks.len() == 0 {
        0
    } else {
        picked_value(s, picks.drop_last()) + s[picks.last()].value as nat
    }
}

/// The places `picks` of `s`, as places of `s` without its place `i`.
pub open spec fn without_place(picks: Seq<int>, i: int) -> Seq<int> {
    picks.map_values(
        |x: int|
            if x > i {
                x - 1
            } else {
                x
            },
    )
}

/// The amounts at some places are the amount at one of them and the amounts
/// at the others.
proof fn lemma_picked_value_split(s: Seq<UnspentTxOut>, picks: Seq<int>, p: int)
    requires
        0 <= p < picks.len(),
    ensures
        picked_value(s, picks) == s[picks[p]].value + picked_value(s, picks.remove(p)),
    decreases picks.len(),
{
    if p == picks.len() - 1 {
        assert(picks.remove(p) =~= picks.drop_last());
    } else {
        lemma_picked_value_split(s, picks.drop_last(), p);
        assert(picks.remove(p).drop_last() =~= picks.drop_last().remove(p));
        assert(picks.remove(p).last() == picks.last());
    }
}

/// Taking out a place that is not picked changes no picked amount.
proof fn lemma_picked_value_without(s: Seq<UnspentTxOut>, picks: Seq<int>, i: int)
    requires
        picks_are_valid(s, picks),
        0 <= i < s.len(),
        forall|a: int| 0 <= a < picks.len() ==> picks[a] != i,
    ensures
        picks_are_valid(s.remove(i), without_place(picks, i)),
        picked_value(s.remove(i), without_place(picks, i)) == picked_value(s, picks),
    decreases picks.len(),
{
    let moved = without_place(picks, i);
    assert forall|a: int, b: int| 0 <= a < b < moved.len() implies #[trigger] moved[a]
        != #[trigger] moved[b] by {
        assert(picks[a] != picks[b]);
        assert(picks[a] != i && picks[b] != i);
    }
    assert forall|a: int| 0 <= a < moved.len() implies 0 <= #[trigger] moved[a] < s.remove(
        i,
    ).len() by {
        assert(0 <= picks[a] < s.len() && picks[a] != i);
    }
    if picks.len() > 0 {
        let front = picks.drop_last();
        assert(picks_are_valid(s, front)) by {
            assert forall|a: int| 0 <= a < front.len() implies 0 <= #[trigger] front[a]
                < s.len() by {
                assert(front[a] == picks[a]);
            }
            assert forall|a: int, b: int| 0 <= a < b < front.len() implies #[trigger] front[a]
                != #[trigger] front[b] by {
                assert(picks[a] != picks[b]);
            }
        }
        assert forall|a: int| 0 <= a < front.len() implies front[a] != i by {
            assert(front[a] == picks[a]);
        }
        lemma_picked_value_without(s, front, i);
        assert(moved.drop_last() =~= without_place(front, i));
        assert(picks[picks.len() - 1] != i);
    }
}

/// No choice of at most `k` outputs of `s` is worth more than the `k`
/// largest: `max_spendable` is the most that a transaction with `k` inputs
/// can spend.
pub proof fn lemma_max_spendable_is_most(s: Seq<UnspentTxOut>, k: nat, picks: Seq<int>)
    requires
        picks_are_valid(s, picks),
        picks.len() <= k,
    ensures
        picked_value(s, picks) <= max_spendable(s, k),
    decreases k,
{
    if picks.len() == 0 {
    } else {
        assert(0 <= picks[0] < s.len());
        let i = largest_index(s);
        lemma_largest_index(s);
        let rest = s.remove(i);
        let p = if exists|a: int| 0 <= a < picks.len() && picks[a] == i {
            choose|a: int| 0 <= a < picks.len() && picks[a] == i
        } else {
            picks.len() - 1
        };
        let others = picks.remove(p);
        lemma_picked_value_split(s, picks, p);
        assert(picks_are_valid(s, others)) by {
            assert forall|a: int| 0 <= a < others.len() implies 0 <= #[trigger] others[a]
                < s.len() by {
                if a < p {
                    assert(others[a] == picks[a]);
                } else {
                    assert(others[a] == picks[a + 1]);
                }
            }
            assert forall|a: int, b: int| 0 <= a < b < others.len() implies #[trigger] others[a]
                != #[trigger] others[b] by {
                let a2 = if a < p {
                    a
                } else {
                    a + 1
                };
                let b2 = if b < p {
                    b
                } else {
                    b + 1
                };
                assert(picks[a2] != picks[b2]);
            }
        }
        assert forall|a: int| 0 <= a < others.len() implies others[a] != i by {
            let a2 = if a < p {
                a
            } else {
                a + 1
            };
            assert(others[a] == picks[a2]);
            if picks[p] == i {
                if a2 < p {
                    assert(picks[a2] != picks[p]);
                } else {
                    assert(picks[p] != picks[a2]);
                }
            }
        }
        lemma_picked_value_without(s, others, i);
        lemma_max_spendable_is_most(rest, (k - 1) as nat, without_place(others, i));
        lemma_total_of_concat(seq![s[i]], take_largest(rest, (k - 1) as nat));
        lemma_total_of_one(s[i]);
        assert(s[picks[p]].value <= s[i].value);
    }
}

/// The places `picks` of a sequence without its place `i`, as places of the
/// sequence with it.
pub open spec fn with_place(picks: Seq<int>, i: int) -> Seq<int> {
    picks.map_values(
        |x: int|
            if x >= i {
                x + 1
            } else {
                x
            },
    )
}

/// The places of `s` at which its `k` largest outputs stand, largest first.
pub open spec fn largest_places(s: Seq<UnspentTxOut>, k: nat) -> Seq<int>
    decreases k,
{
    if k == 0 || s.len() == 0 {
        Seq::empty()
    } else {
        let i = largest_index(s);
        seq![i] + with_place(largest_places(s.remove(i), (k - 1) as nat), i)
    }
}

/// The `k` largest outputs are a choice of at most `k` outputs: they stand at
/// places of `s`, none twice, and are worth `max_spendable`. So
/// `max_spendable` is reached by a choice, and by
/// `lemma_max_spendable_is_most` exceeded by none.
pub proof fn lemma_largest_are_a_choice(s: Seq<UnspentTxOut>, k: nat)
    ensures
        picks_are_valid(s, largest_places(s, k)),
        largest_places(s, k).len() == take_largest(s, k).len(),
        largest_places(s, k).len() <= k,
        forall|a: int|
            0 <= a < largest_places(s, k).len() ==> take_largest(s, k)[a] == s[#[trigger] largest_places(
                s,
                k,
            )[a]],
        picked_value(s, largest_places(s, k)) == max_spendable(s, k),
    decreases k,
{
    if k == 0 || s.len() == 0 {
    } else {
        let i = largest_index(s);
        lemma_largest_index(s);
        let rest = s.remove(i);
        let q = largest_places(rest, (k - 1) as nat);
        let p = with_place(q, i);
        let all = largest_places(s, k);
        let top = take_largest(rest, (k - 1) as nat);
        lemma_largest_are_a_choice(rest, (k - 1) as nat);
        assert(all == seq![i] + p);
        assert forall|a: int| 0 <= a < all.len() implies 0 <= #[trigger] all[a] < s.len() by {
            if a > 0 {
                assert(all[a] == p[a - 1]);
                assert(0 <= q[a - 1] < rest.len());
            }
        }
        assert forall|a: int, b: int| 0 <= a < b < all.len() implies #[trigger] all[a]
            != #[trigger] all[b] by {
            assert(all[b] == p[b - 1]);
            assert(p[b - 1] != i);
            if a > 0 {
                assert(all[a] == p[a - 1]);
                assert(q[a - 1] != q[b - 1]);
            }
        }
        assert forall|a: int| 0 <= a < all.len() implies take_largest(s, k)[a] == s[#[trigger] all[a]] by {
            if a > 0 {
                assert(all[a] == p[a - 1]);
                assert(take_largest(s, k)[a] == top[a - 1]);
                assert(top[a - 1] == rest[q[a - 1]]);
            }
        }
        assert(picks_are_valid(s, p)) by {
            assert forall|a: int| 0 <= a < p.len() implies 0 <= #[trigger] p[a] < s.len() by {
                assert(all[a + 1] == p[a]);
            }
            assert forall|a: int, b: int| 0 <= a < b < p.len() implies #[trigger] p[a]
                != #[trigger] p[b] by {
                assert(q[a] != q[b]);
            }
        }
        assert forall|a: int| 0 <= a < p.len() implies p[a] != i by {
            assert(0 <= q[a]);
        }
        lemma_picked_value_without(s, p, i);
        assert(without_place(p, i) =~= q);
        lemma_picked_value_split(s, all, 0);
        assert(all.remove(0) =~= p);
        lemma_total_of_concat(seq![s[i]], top);
        lemma_total_of_one(s[i]);
    }
}

} // verus!
