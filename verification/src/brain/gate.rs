//! Adaptive-K gate.
//!
//! Maps a distribution over the expert pool to a sparse set of experts. How many
//! may run follows from the normalised entropy of the distribution: uncertain
//! prompts activate more experts.

use crate::score;
use crate::score::{Score, BITS_ONE, BITS_ZERO};
use vstd::prelude::*;
use vstd::set_lib::*;

verus! {

/// The pattern of `0.33`: below it one expert runs.
pub const BITS_CLEAR: u32 = 0x3EA8_F5C3;

/// The pattern of `0.66`: below it two experts run.
pub const BITS_MIXED: u32 = 0x3F28_F5C3;

/// The experts selected for a prompt.
#[derive(Debug)]
pub struct GateOutput {
    /// Indices into the expert pool that should activate.
    pub expert_indices: Vec<usize>,
    /// The probability of each selected expert, parallel to `expert_indices`. The
    /// share of each in their sum is its fusion weight.
    pub expert_probs: Vec<Score>,
    /// Number of experts selected.
    pub k: usize,
    /// Normalised entropy: 0 is certain, 1 is uniform.
    pub entropy: Score,
}

/// How many experts may run at this entropy.
pub open spec fn budget(entropy: Score, k_max: nat) -> nat {
    if entropy.less(Score { bits: BITS_CLEAR }) {
        1
    } else if entropy.less(Score { bits: BITS_MIXED }) {
        if k_max < 2 {
            k_max
        } else {
            2
        }
    } else {
        k_max
    }
}

/// Whether expert `i` stands before expert `j`: the likelier first, and of two
/// equally likely ones the one with the lower index.
pub open spec fn ranks_before(probs: Seq<Score>, i: int, j: int) -> bool {
    ||| probs[i].value() > probs[j].value()
    ||| probs[i].value() == probs[j].value() && i < j
}

/// Whether `chosen` holds, best first, the `k` best experts of weight
/// `min_weight` or more, or all of those where there are fewer.
pub open spec fn is_selection(
    probs: Seq<Score>,
    k: nat,
    min_weight: Score,
    chosen: Seq<usize>,
) -> bool {
    &&& chosen.len() <= k
    &&& forall|m: int| #![trigger chosen[m]]
        0 <= m < chosen.len() ==> chosen[m] < probs.len() && probs[chosen[m] as int].at_least(
            min_weight,
        )
    &&& forall|m: int, l: int| #![trigger chosen[m], chosen[l]]
        0 <= m < l < chosen.len() ==> ranks_before(probs, chosen[m] as int, chosen[l] as int)
    &&& forall|i: int| #![trigger probs[i]]
        0 <= i < probs.len() && probs[i].at_least(min_weight) && !chosen.contains(i as usize)
            ==> chosen.len() == k && forall|m: int| #![trigger chosen[m]]
            0 <= m < chosen.len() ==> ranks_before(probs, chosen[m] as int, i)
}

/// The entropy that counts, from 0 to 1. A pool of one expert is certain, whatever
/// dividing by its greatest entropy, which is zero, may have given; and what rounding
/// put outside the range is brought back into it.
pub open spec fn pool_entropy(probs: Seq<Score>, entropy: Score) -> Score {
    let zero = Score { bits: BITS_ZERO };
    let one = Score { bits: BITS_ONE };
    if probs.len() == 1 || entropy.less(zero) {
        zero
    } else if entropy.nan() || one.less(entropy) {
        one
    } else {
        entropy
    }
}

/// The entropy that counts.
fn clamp_entropy(n_experts: usize, entropy: Score) -> (h: Score)
    ensures
        forall|probs: Seq<Score>|
            probs.len() == n_experts ==> h == #[trigger] pool_entropy(probs, entropy),
{
    let zero = Score { bits: BITS_ZERO };
    let one = Score { bits: BITS_ONE };
    if n_experts == 1 || entropy.lt(zero) {
        zero
    } else if entropy.is_nan() || one.lt(entropy) {
        one
    } else {
        entropy
    }
}

/// The answer of adaptive-K gating: the selection, or the first expert alone with weight
/// one where nothing is selected.
pub open spec fn is_gate_output(
    probs: Seq<Score>,
    entropy: Score,
    k_max: nat,
    min_weight: Score,
    gate: GateOutput,
) -> bool {
    let k = budget(pool_entropy(probs, entropy), k_max);
    &&& gate.entropy == pool_entropy(probs, entropy)
    &&& gate.k == gate.expert_indices@.len()
    &&& if is_selection(probs, k, min_weight, Seq::<usize>::empty()) {
        &&& gate.expert_indices@ == seq![0usize]
        &&& gate.expert_probs@ == seq![Score { bits: BITS_ONE }]
    } else {
        &&& is_selection(probs, k, min_weight, gate.expert_indices@)
        &&& gate.expert_probs@.len() == gate.expert_indices@.len()
        &&& forall|m: int|
            0 <= m < gate.k ==> #[trigger] gate.expert_probs@[m]
                == probs[gate.expert_indices@[m] as int]
    }
}

/// How many experts may run at this entropy.
fn expert_budget(entropy: Score, k_max: usize) -> (k: usize)
    ensures
        k == budget(entropy, k_max as nat),
{
    if entropy.lt(Score { bits: BITS_CLEAR }) {
        1
    } else if entropy.lt(Score { bits: BITS_MIXED }) {
        if k_max < 2 {
            k_max
        } else {
            2
        }
    } else {
        k_max
    }
}

/// The best expert of weight `min_weight` or more that is not yet used.
fn best_unused(probs: &[Score], min_weight: Score, used: &Vec<bool>) -> (best: Option<usize>)
    requires
        used@.len() == probs@.len(),
    ensures
        match best {
            Some(b) => {
                &&& b < probs@.len()
                &&& !used@[b as int]
                &&& probs@[b as int].at_least(min_weight)
                &&& forall|i: int| #![trigger probs@[i]]
                    0 <= i < probs@.len() && i != b && !used@[i] && probs@[i].at_least(min_weight)
                        ==> ranks_before(probs@, b as int, i)
            },
            None => forall|i: int| #![trigger probs@[i]]
                0 <= i < probs@.len() && !used@[i] ==> !probs@[i].at_least(min_weight),
        },
{
    let n: usize = probs.len();
    let mut best: Option<usize> = None;
    let mut i: usize = 0;
    while i < n
        invariant
            i <= n,
            n == probs@.len(),
            used@.len() == probs@.len(),
            match best {
                Some(b) => {
                    &&& b < i
                    &&& !used@[b as int]
                    &&& probs@[b as int].at_least(min_weight)
                    &&& forall|j: int| #![trigger probs@[j]]
                        0 <= j < i && j != b && !used@[j] && probs@[j].at_least(min_weight)
                            ==> ranks_before(probs@, b as int, j)
                },
                None => forall|j: int| #![trigger probs@[j]]
                    0 <= j < i && !used@[j] ==> !probs@[j].at_least(min_weight),
            },
        decreases n - i,
    {
        if !used[i] && probs[i].ge(min_weight) {
            match best {
                None => {
                    best = Some(i);
                },
                Some(b) => {
                    if probs[b].lt(probs[i]) {
                        best = Some(i);
                    }
                },
            }
        }
        i = i + 1;
    }
    best
}

/// The `k` best experts of weight `min_weight` or more, best first.
fn select(probs: &[Score], k: usize, min_weight: Score) -> (chosen: Vec<usize>)
    ensures
        is_selection(probs@, k as nat, min_weight, chosen@),
{
    let n: usize = probs.len();
    let mut used: Vec<bool> = Vec::new();
    while used.len() < n
        invariant
            used@.len() <= n,
            forall|i: int| 0 <= i < used@.len() ==> !used@[i],
        decreases n - used@.len(),
    {
        used.push(false);
    }
    let mut chosen: Vec<usize> = Vec::new();
    while chosen.len() < k
        invariant
            n == probs@.len(),
            used@.len() == n,
            chosen@.len() <= k,
            forall|i: int| 0 <= i < n ==> used@[i] == chosen@.contains(i as usize),
            forall|m: int| #![trigger chosen@[m]]
                0 <= m < chosen@.len() ==> chosen@[m] < n
                    && probs@[chosen@[m] as int].at_least(min_weight),
            forall|m: int, l: int| #![trigger chosen@[m], chosen@[l]]
                0 <= m < l < chosen@.len() ==> ranks_before(
                    probs@,
                    chosen@[m] as int,
                    chosen@[l] as int,
                ),
            forall|i: int, m: int| #![trigger probs@[i], chosen@[m]]
                0 <= i < n && probs@[i].at_least(min_weight) && !used@[i] && 0 <= m < chosen@.len()
                    ==> ranks_before(probs@, chosen@[m] as int, i),
        decreases k - chosen@.len(),
    {
        match best_unused(probs, min_weight, &used) {
            None => {
                return chosen;
            },
            Some(b) => {
                let ghost before = chosen@;
                chosen.push(b);
                used.set(b, true);
                proof {
                    assert forall|i: int| 0 <= i < n implies used@[i] == chosen@.contains(
                        i as usize,
                    ) by {
                        if i == b {
                            assert(chosen@[before.len() as int] == b);
                        } else if before.contains(i as usize) {
                            let m = choose|m: int|
                                0 <= m < before.len() && before[m] == i as usize;
                            assert(chosen@[m] == i as usize);
                        }
                    }
                }
            },
        }
    }
    chosen
}

/// Selects experts by the entropy of the distribution over the pool.
///
/// `probs` is the distribution, one entry for each expert, and `entropy` its
/// entropy divided by that of the uniform distribution; for a pool of one expert,
/// which is certain, it counts as zero. Experts below `min_weight` are pruned; at
/// least one expert always stays.
pub fn adaptive_k_gate(
    probs: &[Score],
    entropy: Score,
    k_max: usize,
    min_weight: Score,
) -> (gate: GateOutput)
    requires
        probs@.len() > 0,
        probs@.len() > 1 ==> forall|i: int| 0 <= i < probs@.len() ==> !(#[trigger] probs@[i]).nan(),
    ensures
        is_gate_output(probs@, entropy, k_max as nat, min_weight, gate),
        probs@.len() == 1 ==> gate.entropy.bits == BITS_ZERO,
{
    let h = clamp_entropy(probs.len(), entropy);
    let k: usize = expert_budget(h, k_max);
    let mut expert_indices: Vec<usize> = select(probs, k, min_weight);
    let mut expert_probs: Vec<Score> = Vec::new();
    if expert_indices.len() == 0 {
        assert(expert_indices@ =~= Seq::<usize>::empty());
        // always keep at least one expert
        expert_indices.push(0);
        expert_probs.push(Score { bits: BITS_ONE });
        assert(expert_indices@ =~= seq![0usize]);
        assert(expert_probs@ =~= seq![Score { bits: BITS_ONE }]);
    } else {
        let n: usize = expert_indices.len();
        let mut m: usize = 0;
        while m < n
            invariant
                m <= n,
                n == expert_indices@.len(),
                expert_probs@.len() == m,
                is_selection(probs@, k as nat, min_weight, expert_indices@),
                forall|l: int|
                    0 <= l < m ==> #[trigger] expert_probs@[l]
                        == probs@[expert_indices@[l] as int],
            decreases n - m,
        {
            expert_probs.push(probs[expert_indices[m]]);
            m = m + 1;
        }
        proof {
            if is_selection(probs@, k as nat, min_weight, Seq::<usize>::empty()) {
                selection_is_unique(
                    probs@,
                    k as nat,
                    min_weight,
                    expert_indices@,
                    Seq::<usize>::empty(),
                );
            }
        }
    }
    GateOutput { k: expert_indices.len(), expert_indices, expert_probs, entropy: h }
}

/// Two selections under the same bounds are the same.
pub proof fn selection_is_unique(
    probs: Seq<Score>,
    k: nat,
    min_weight: Score,
    a: Seq<usize>,
    b: Seq<usize>,
)
    requires
        is_selection(probs, k, min_weight, a),
        is_selection(probs, k, min_weight, b),
    ensures
        a == b,
{
    let n = if a.len() < b.len() {
        a.len()
    } else {
        b.len()
    };
    lemma_selections_agree(probs, k, min_weight, a, b, n as int);
    lemma_agreeing_selection_is_no_longer(probs, k, min_weight, a, b);
    lemma_agreeing_selection_is_no_longer(probs, k, min_weight, b, a);
    assert(a =~= b);
}

/// A selection that agrees with another as far as both go is not longer.
proof fn lemma_agreeing_selection_is_no_longer(
    probs: Seq<Score>,
    k: nat,
    min_weight: Score,
    a: Seq<usize>,
    b: Seq<usize>,
)
    requires
        is_selection(probs, k, min_weight, a),
        is_selection(probs, k, min_weight, b),
        forall|m: int| 0 <= m < a.len() && m < b.len() ==> a[m] == b[m],
    ensures
        b.len() <= a.len(),
{
    if a.len() < b.len() {
        let x = b[a.len() as int];
        assert(probs[x as int].at_least(min_weight));
        if a.contains(x) {
            let m = choose|m: int| 0 <= m < a.len() && a[m] == x;
            assert(b[m] == x);
            assert(ranks_before(probs, b[m] as int, b[a.len() as int] as int));
        }
    }
}

/// The first `n` experts of two selections agree.
proof fn lemma_selections_agree(
    probs: Seq<Score>,
    k: nat,
    min_weight: Score,
    a: Seq<usize>,
    b: Seq<usize>,
    n: int,
)
    requires
        is_selection(probs, k, min_weight, a),
        is_selection(probs, k, min_weight, b),
        0 <= n <= a.len(),
        n <= b.len(),
    ensures
        forall|m: int| 0 <= m < n ==> a[m] == b[m],
    decreases n,
{
    if n > 0 {
        lemma_selections_agree(probs, k, min_weight, a, b, n - 1);
        let x = a[n - 1];
        let y = b[n - 1];
        if x != y {
            lemma_no_later_expert_is_better(probs, k, min_weight, a, b, n - 1);
            lemma_no_later_expert_is_better(probs, k, min_weight, b, a, n - 1);
        }
    }
}

/// Where two selections agree up to `n`, the next of `a` stands before the next
/// of `b` unless they are equal.
proof fn lemma_no_later_expert_is_better(
    probs: Seq<Score>,
    k: nat,
    min_weight: Score,
    a: Seq<usize>,
    b: Seq<usize>,
    n: int,
)
    requires
        is_selection(probs, k, min_weight, a),
        is_selection(probs, k, min_weight, b),
        0 <= n < a.len(),
        n < b.len(),
        forall|m: int| 0 <= m < n ==> a[m] == b[m],
        a[n] != b[n],
    ensures
        ranks_before(probs, a[n] as int, b[n] as int),
{
    let y = b[n];
    assert(probs[y as int].at_least(min_weight));
    if a.contains(y) {
        let m = choose|m: int| 0 <= m < a.len() && a[m] == y;
        if m < n {
            assert(b[m] == y);
            assert(ranks_before(probs, b[m] as int, b[n] as int));
        } else {
            assert(ranks_before(probs, a[n] as int, a[m] as int));
        }
    } else {
        assert(ranks_before(probs, a[n] as int, y as int));
    }
}

/// Gating always activates at least one expert of the pool, none of them
/// twice, and never more than `k_max` of them (than one, where `k_max` is zero).
pub proof fn gate_keeps_its_bounds(
    probs: Seq<Score>,
    entropy: Score,
    k_max: nat,
    min_weight: Score,
    gate: GateOutput,
)
    requires
        probs.len() > 0,
        is_gate_output(probs, entropy, k_max, min_weight, gate),
    ensures
        1 <= gate.k,
        k_max >= 1 ==> gate.k <= k_max,
        k_max == 0 ==> gate.k == 1,
        gate.expert_indices@.len() == gate.k,
        gate.expert_probs@.len() == gate.k,
        gate.expert_indices@.no_duplicates(),
        forall|m: int|
            0 <= m < gate.k ==> (#[trigger] gate.expert_indices@[m]) < probs.len(),
{
    let indices = gate.expert_indices@;
    let k = budget(pool_entropy(probs, entropy), k_max);
    if !is_selection(probs, k, min_weight, Seq::<usize>::empty()) {
        if indices.len() == 0 {
            assert(indices =~= Seq::<usize>::empty());
        }
        assert forall|m: int, l: int|
            0 <= m < indices.len() && 0 <= l < indices.len() && m != l implies indices[m]
            != indices[l] by {
            if m < l {
                assert(ranks_before(probs, indices[m] as int, indices[l] as int));
            } else {
                assert(ranks_before(probs, indices[l] as int, indices[m] as int));
            }
        }
    }
}

/// The entropy that is reported is a number from 0 to 1. That of a pool of one expert is
/// 0; of any other pool, one that was in the range is reported as it was, and one that
/// was not as the nearer end of the range.
pub proof fn entropy_is_normalised(probs: Seq<Score>, entropy: Score)
    ensures
        !pool_entropy(probs, entropy).nan(),
        0 <= pool_entropy(probs, entropy).value() <= (Score { bits: BITS_ONE }).value(),
        probs.len() == 1 ==> pool_entropy(probs, entropy) == (Score { bits: BITS_ZERO }),
        probs.len() != 1 && !entropy.nan() && 0 <= entropy.value() <= (Score {
            bits: BITS_ONE,
        }).value() ==> pool_entropy(probs, entropy) == entropy,
        probs.len() != 1 && !entropy.nan() && entropy.value() < 0 ==> pool_entropy(probs, entropy)
            == (Score { bits: BITS_ZERO }),
        probs.len() != 1 && !entropy.nan() && entropy.value() > (Score { bits: BITS_ONE }).value()
            ==> pool_entropy(probs, entropy) == (Score { bits: BITS_ONE }),
{
    assert(score::magnitude(0) == 0);
}

/// Uncertain prompts activate more experts: a higher entropy never lowers the
/// budget.
pub proof fn budget_grows_with_entropy(low: Score, high: Score, k_max: nat)
    requires
        !low.nan(),
        !high.nan(),
        low.value() <= high.value(),
        k_max >= 1,
    ensures
        budget(low, k_max) <= budget(high, k_max),
{
}

/// How many experts are selected. Let a pool have two experts or more, some of which
/// weigh `min_weight` or more. Where the entropy is below 0.33 one of these runs; from
/// there to below 0.66 two run, and from 0.66 on `k_max`, as far as there are so many.
/// One expert runs in any case.
#[verifier::spinoff_prover]
pub proof fn selection_size_follows_the_entropy(
    probs: Seq<Score>,
    entropy: Score,
    k_max: nat,
    min_weight: Score,
    gate: GateOutput,
)
    requires
        0 < probs.len() <= usize::MAX,
        is_gate_output(probs, entropy, k_max, min_weight, gate),
    ensures
        ({
            let heavy = Set::new(|i: int| 0 <= i < probs.len() && probs[i].at_least(min_weight));
            let clear = entropy.less(Score { bits: BITS_CLEAR });
            let mixed = entropy.less(Score { bits: BITS_MIXED });
            &&& heavy.finite()
            &&& probs.len() == 1 ==> gate.k == 1
            &&& clear ==> gate.k == 1
            &&& heavy.len() == 0 ==> gate.k == 1
            &&& k_max <= 1 ==> gate.k == 1
            &&& probs.len() >= 2 && !clear && mixed && k_max >= 2 && heavy.len() >= 2 ==> gate.k
                == 2
            &&& probs.len() >= 2 && !mixed && 1 <= k_max <= heavy.len() ==> gate.k == k_max
            &&& probs.len() >= 2 && !mixed && 1 <= heavy.len() <= k_max ==> gate.k == heavy.len()
            &&& heavy.len() == 1 ==> gate.k == 1
        }),
{
    let heavy = Set::new(|i: int| 0 <= i < probs.len() && probs[i].at_least(min_weight));
    let h = pool_entropy(probs, entropy);
    let k = budget(h, k_max);
    lemma_heavy_is_finite(probs, min_weight);
    let none = Seq::<usize>::empty();
    if is_selection(probs, k, min_weight, none) {
        if k > 0 && heavy.len() > 0 {
            let i = heavy.choose();
            assert(heavy.contains(i));
            assert(probs[i].at_least(min_weight));
            assert(!none.contains(i as usize));
        }
    } else {
        lemma_selection_len(probs, k, min_weight, gate.expert_indices@);
        gate_keeps_its_bounds(probs, entropy, k_max, min_weight, gate);
    }
    lemma_thresholds(entropy);
}

/// The thresholds lie between zero and one.
proof fn lemma_thresholds(entropy: Score)
    ensures
        entropy.less(Score { bits: BITS_ZERO }) ==> entropy.less(Score { bits: BITS_CLEAR }),
        entropy.less(Score { bits: BITS_CLEAR }) ==> entropy.less(Score { bits: BITS_MIXED }),
        (Score { bits: BITS_ONE }).less(entropy) ==> !entropy.less(Score { bits: BITS_MIXED }),
        !(Score { bits: BITS_ONE }).less(Score { bits: BITS_MIXED }),
        !(Score { bits: BITS_ONE }).less(Score { bits: BITS_CLEAR }),
        (Score { bits: BITS_ZERO }).less(Score { bits: BITS_CLEAR }),
{
    score::comparison_follows_the_bits(Score { bits: BITS_ZERO }, Score { bits: BITS_CLEAR });
    score::comparison_follows_the_bits(Score { bits: BITS_CLEAR }, Score { bits: BITS_MIXED });
    score::comparison_follows_the_bits(Score { bits: BITS_MIXED }, Score { bits: BITS_ONE });
    score::comparison_follows_the_bits(Score { bits: BITS_ONE }, Score { bits: BITS_MIXED });
    score::comparison_follows_the_bits(Score { bits: BITS_ONE }, Score { bits: BITS_CLEAR });
}

proof fn lemma_heavy_is_finite(probs: Seq<Score>, min_weight: Score)
    ensures
        Set::new(
            |i: int| 0 <= i < probs.len() && probs[i].at_least(min_weight),
        ).finite(),
{
    let heavy = Set::new(|i: int| 0 <= i < probs.len() && probs[i].at_least(min_weight));
    let all = set_int_range(0, probs.len() as int);
    lemma_int_range(0, probs.len() as int);
    assert(heavy.subset_of(all));
    lemma_set_subset_finite(all, heavy);
}

/// A selection is as long as its bound and the number of experts of weight allow.
proof fn lemma_selection_len(probs: Seq<Score>, k: nat, min_weight: Score, chosen: Seq<usize>)
    requires
        probs.len() <= usize::MAX,
        is_selection(probs, k, min_weight, chosen),
    ensures
        ({
            let heavy = Set::new(|i: int| 0 <= i < probs.len() && probs[i].at_least(min_weight));
            &&& chosen.len() <= heavy.len()
            &&& chosen.len() == k || chosen.len() == heavy.len()
        }),
{
    let heavy = Set::new(|i: int| 0 <= i < probs.len() && probs[i].at_least(min_weight));
    lemma_heavy_is_finite(probs, min_weight);
    let ints = chosen.map_values(|i: usize| i as int);
    assert(ints.no_duplicates()) by {
        assert forall|m: int, l: int|
            0 <= m < ints.len() && 0 <= l < ints.len() && m != l implies ints[m] != ints[l] by {
            if m < l {
                assert(ranks_before(probs, chosen[m] as int, chosen[l] as int));
            } else {
                assert(ranks_before(probs, chosen[l] as int, chosen[m] as int));
            }
        }
    }
    ints.unique_seq_to_set();
    let set = ints.to_set();
    assert(set.subset_of(heavy)) by {
        assert forall|i: int| set.contains(i) implies heavy.contains(i) by {
            let m = choose|m: int| 0 <= m < ints.len() && ints[m] == i;
            assert(probs[chosen[m] as int].at_least(min_weight));
        }
    }
    lemma_len_subset(set, heavy);
    if chosen.len() != k {
        assert(heavy.subset_of(set)) by {
            assert forall|i: int| heavy.contains(i) implies set.contains(i) by {
                assert(probs[i].at_least(min_weight));
                assert(chosen.contains(i as usize));
                let m = choose|m: int| 0 <= m < chosen.len() && chosen[m] == i as usize;
                assert(ints[m] == i);
            }
        }
        assert(set =~= heavy);
    }
}

/// Which experts are selected. Where some weigh `min_weight` or more and one may run,
/// the selected ones do, each comes with its own probability, the likelier before the
/// less likely, and no expert of weight that is left out is likelier than one that is
/// selected; of equally likely ones those with the lower index come first.
#[verifier::spinoff_prover]
pub proof fn selected_experts_are_the_likeliest(
    probs: Seq<Score>,
    entropy: Score,
    k_max: nat,
    min_weight: Score,
    gate: GateOutput,
    i: int,
)
    requires
        0 <= i < probs.len() <= usize::MAX,
        probs[i].at_least(min_weight),
        k_max > 0 || probs.len() == 1 || entropy.less(Score { bits: BITS_CLEAR }),
        is_gate_output(probs, entropy, k_max, min_weight, gate),
    ensures
        forall|m: int|
            0 <= m < gate.k ==> {
                let e = #[trigger] gate.expert_indices@[m] as int;
                &&& e < probs.len()
                &&& probs[e].at_least(min_weight)
                &&& gate.expert_probs@[m] == probs[e]
                &&& gate.expert_indices@.contains(i as usize) || probs[i].less(probs[e]) || (
                !probs[e].less(probs[i]) && e < i)
            },
        forall|m: int, l: int| #![trigger gate.expert_indices@[m], gate.expert_indices@[l]]
            0 <= m < l < gate.k ==> {
                let e = gate.expert_indices@[m] as int;
                let f = gate.expert_indices@[l] as int;
                probs[f].less(probs[e]) || (!probs[e].less(probs[f]) && e < f)
            },
{
    let k = budget(pool_entropy(probs, entropy), k_max);
    let chosen = gate.expert_indices@;
    lemma_thresholds(entropy);
    assert(k > 0);
    let none = Seq::<usize>::empty();
    if is_selection(probs, k, min_weight, none) {
        assert(!none.contains(i as usize));
    }
    assert forall|m: int| 0 <= m < gate.k implies {
        let e = #[trigger] chosen[m] as int;
        &&& e < probs.len()
        &&& probs[e].at_least(min_weight)
        &&& gate.expert_probs@[m] == probs[e]
        &&& chosen.contains(i as usize) || probs[i].less(probs[e]) || (!probs[e].less(probs[i])
            && e < i)
    } by {
        assert(gate.expert_probs@[m] == probs[chosen[m] as int]);
        if !chosen.contains(i as usize) {
            assert(ranks_before(probs, chosen[m] as int, i));
        }
    }
    assert forall|m: int, l: int| #![trigger chosen[m], chosen[l]] 0 <= m < l < gate.k implies {
        let e = chosen[m] as int;
        let f = chosen[l] as int;
        probs[f].less(probs[e]) || (!probs[e].less(probs[f]) && e < f)
    } by {
        assert(ranks_before(probs, chosen[m] as int, chosen[l] as int));
    }
}

/// Where no expert weighs `min_weight` or more, the first of the pool runs alone with
/// full weight; so it does where the prompt is not clear and no expert may run.
pub proof fn without_weight_the_first_expert_runs(
    probs: Seq<Score>,
    entropy: Score,
    k_max: nat,
    min_weight: Score,
    gate: GateOutput,
)
    requires
        probs.len() > 0,
        is_gate_output(probs, entropy, k_max, min_weight, gate),
        (k_max == 0 && probs.len() > 1 && !entropy.less(Score { bits: BITS_CLEAR })) || forall|
            i: int,
        |
            0 <= i < probs.len() ==> !(#[trigger] probs[i]).at_least(min_weight),
    ensures
        gate.k == 1,
        gate.expert_indices@ == seq![0usize],
        gate.expert_probs@ == seq![Score { bits: BITS_ONE }],
{
    lemma_thresholds(entropy);
    assert(is_selection(
        probs,
        budget(pool_entropy(probs, entropy), k_max),
        min_weight,
        Seq::<usize>::empty(),
    ));
}

}
