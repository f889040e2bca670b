use vstd::prelude::*;

use crate::expr_element::ExprElement;
use crate::expr_element::category;

verus! {

/// How a generation call fails. All failures are deterministic functions
/// of the configuration: a candidate set whose total weight is zero, an
/// argument list of arity zero, or the defensive ceiling on rewriting
/// rounds.
#[derive(Debug, Clone, Copy, PartialEq, Eq, Structural)]
pub enum GenError {
    ZeroTotalWeight,
    InvalidArity,
    RoundLimitExceeded,
}

/// A weight table over symbol categories: the weight of a symbol is the
/// weight of the first entry whose tag matches, whatever the parameters
/// of either are; an absent category weighs zero.
pub struct WeightTable {
    pub entries: Vec<(ExprElement, usize)>,
}

/// The weight that `entries` gives to category `c`: the weight of the
/// first entry of that category, or zero when there is none.
pub open spec fn cat_weight(entries: Seq<(ExprElement, usize)>, c: int) -> nat
    decreases entries.len(),
{
    if entries.len() == 0 {
        0
    } else if category(entries[0].0) == c {
        entries[0].1 as nat
    } else {
        cat_weight(entries.drop_first(), c)
    }
}

/// The sum of the category weights of the first `i` candidates.
pub open spec fn choices_weight(
    entries: Seq<(ExprElement, usize)>,
    cs: Seq<ExprElement>,
    i: int,
) -> nat
    decreases i,
{
    if i <= 0 {
        0
    } else {
        choices_weight(entries, cs, i - 1) + cat_weight(entries, category(cs[i - 1]))
    }
}

/// The total category weight of a whole candidate sequence.
pub open spec fn total_choices_weight(entries: Seq<(ExprElement, usize)>, cs: Seq<ExprElement>) -> nat {
    choices_weight(entries, cs, cs.len() as int)
}

/// A weight table over function arities: each entry pairs a supported
/// arity with its weight. Arities are expected to be listed once; when
/// one is listed twice the first entry decides its weight.
pub struct ArityWeightTable {
    pub entries: Vec<(usize, usize)>,
}

/// The sum of the weights of the first `i` arity entries.
pub open spec fn arity_weights_sum(entries: Seq<(usize, usize)>, i: int) -> nat
    decreases i,
{
    if i <= 0 {
        0
    } else {
        arity_weights_sum(entries, i - 1) + entries[i - 1].1 as nat
    }
}

/// The total weight of an arity table.
pub open spec fn arity_total(entries: Seq<(usize, usize)>) -> nat {
    arity_weights_sum(entries, entries.len() as int)
}

/// The sum of the first `i` weights of an aligned weight list.
pub open spec fn sum_prefix(ws: Seq<usize>, i: int) -> nat
    decreases i,
{
    if i <= 0 {
        0
    } else {
        sum_prefix(ws, i - 1) + ws[i - 1] as nat
    }
}

pub(crate) proof fn lemma_sum_prefix_push(ws: Seq<usize>, w: usize, i: int)
    requires
        0 <= i <= ws.len(),
    ensures
        sum_prefix(ws.push(w), i) == sum_prefix(ws, i),
    decreases i,
{
    if i > 0 {
        lemma_sum_prefix_push(ws, w, i - 1);
        assert(ws.push(w)[i - 1] == ws[i - 1]);
    }
}

pub(crate) proof fn lemma_sum_prefix_mono(ws: Seq<usize>, i: int, j: int)
    requires
        0 <= i <= j,
    ensures
        sum_prefix(ws, i) <= sum_prefix(ws, j),
    decreases j,
{
    if j > i {
        lemma_sum_prefix_mono(ws, i, j - 1);
    }
}

pub(crate) proof fn lemma_choices_weight_mono(
    entries: Seq<(ExprElement, usize)>,
    cs: Seq<ExprElement>,
    i: int,
    j: int,
)
    requires
        0 <= i <= j,
    ensures
        choices_weight(entries, cs, i) <= choices_weight(entries, cs, j),
    decreases j,
{
    if j > i {
        lemma_choices_weight_mono(entries, cs, i, j - 1);
    }
}

impl WeightTable {
    /// The weight this table gives to category `c`.
    pub open spec fn spec_weight(self, c: int) -> nat {
        cat_weight(self.entries@, c)
    }

    /// Looks the weight of `e`'s category up: the first entry whose tag
    /// matches decides, an absent category weighs zero.
    pub fn weight_for(&self, e: &ExprElement) -> (w: usize)
        ensures
            w as nat == self.spec_weight(category(*e)),
    {
        let ghost c = category(*e);
        let n = self.entries.len();
        proof {
            assert(self.entries@.skip(0) =~= self.entries@);
        }
        for i in 0..n
            invariant
                n == self.entries@.len(),
                cat_weight(self.entries@.skip(i as int), c) == cat_weight(self.entries@, c),
                c == category(*e),
        {
            let k = self.entries[i].0;
            if k.get_index() == e.get_index() {
                proof {
                    assert(self.entries@.skip(i as int)[0] == self.entries@[i as int]);
                }
                return self.entries[i].1;
            }
            proof {
                assert(self.entries@.skip(i as int)[0] == self.entries@[i as int]);
                assert(self.entries@.skip(i as int).drop_first() =~= self.entries@.skip(
                    i as int + 1,
                ));
            }
        }
        proof {
            assert(self.entries@.skip(n as int) =~= Seq::<(ExprElement, usize)>::empty());
        }
        0
    }
}

/// Draws a uniform integer below `bound`.
///
/// Relies on `rand::random::<u64>`: a machine word from the thread
/// random generator. Nothing is assumed of the drawn value; only the
/// range of the remainder after `% bound` is stated.
#[verifier::external_body]
pub(crate) fn random_below(bound: usize) -> (r: usize)
    requires
        bound > 0,
    ensures
        r < bound,
{
    (rand::random::<u64>() % (bound as u64)) as usize
}

/// The first index whose half-open prefix-sum interval contains `draw`:
/// the deterministic half of the weighted choice, exact for every draw.
pub fn pick_by_weight(weights: &Vec<usize>, draw: usize) -> (idx: usize)
    requires
        (draw as nat) < sum_prefix(weights@, weights@.len() as int),
        sum_prefix(weights@, weights@.len() as int) <= usize::MAX,
    ensures
        idx < weights@.len(),
        sum_prefix(weights@, idx as int) <= draw as nat,
        (draw as nat) < sum_prefix(weights@, idx as int + 1),
        weights@[idx as int] > 0,
{
    let mut acc: usize = 0;
    let n = weights.len();
    for i in 0..n
        invariant
            n == weights@.len(),
            acc as nat == sum_prefix(weights@, i as int),
            sum_prefix(weights@, i as int) <= draw as nat,
            (draw as nat) < sum_prefix(weights@, n as int),
            sum_prefix(weights@, n as int) <= usize::MAX,
    {
        let w = weights[i];
        proof {
            lemma_sum_prefix_mono(weights@, i as int + 1, n as int);
        }
        if draw - acc < w {
            return i;
        }
        acc = acc + w;
    }
    proof {
        assert(false);
    }
    vstd::pervasive::unreached()
}

/// Chooses an index of an aligned weight list, each index drawn with
/// probability proportional to its weight; fails exactly when the total
/// weight is zero, and never returns an index of weight zero.
pub fn choose_index_by_weights(weights: &Vec<usize>) -> (r: Result<usize, GenError>)
    requires
        sum_prefix(weights@, weights@.len() as int) <= usize::MAX,
    ensures
        (r is Err) <==> sum_prefix(weights@, weights@.len() as int) == 0,
        r matches Err(e) ==> e == GenError::ZeroTotalWeight,
        r matches Ok(idx) ==> idx < weights@.len() && weights@[idx as int] > 0
            && sum_prefix(weights@, idx as int) < sum_prefix(weights@, idx as int + 1),
{
    let mut total: usize = 0;
    let n = weights.len();
    for i in 0..n
        invariant
            n == weights@.len(),
            total as nat == sum_prefix(weights@, i as int),
            sum_prefix(weights@, n as int) <= usize::MAX,
    {
        proof {
            lemma_sum_prefix_mono(weights@, i as int + 1, n as int);
        }
        total = total + weights[i];
    }
    if total == 0 {
        return Err(GenError::ZeroTotalWeight);
    }
    let draw = random_below(total);
    let idx = pick_by_weight(weights, draw);
    Ok(idx)
}

/// One weighted choice out of an ordered candidate list, as the grammar
/// consults it: each candidate's share is the weight of its category, a
/// candidate listed twice gets its category's weight twice, and a zero
/// total weight is a configuration error, never a silent default.
pub fn choose_from_list_by_weight_table(
    weight_table: &WeightTable,
    choices: &Vec<ExprElement>,
) -> (r: Result<ExprElement, GenError>)
    requires
        total_choices_weight(weight_table.entries@, choices@) <= usize::MAX,
    ensures
        (r is Err) <==> total_choices_weight(weight_table.entries@, choices@) == 0,
        r matches Err(e) ==> e == GenError::ZeroTotalWeight,
        r matches Ok(el) ==> exists|i: int|
            0 <= i < choices@.len() && el == choices@[i] && cat_weight(
                weight_table.entries@,
                category(choices@[i]),
            ) > 0,
{
    let ghost t = weight_table.entries@;
    let n = choices.len();
    let mut ws: Vec<usize> = Vec::new();
    for i in 0..n
        invariant
            n == choices@.len(),
            ws@.len() == i,
            forall|j: int| 0 <= j < i ==> ws@[j] as nat == cat_weight(t, category(choices@[j])),
            sum_prefix(ws@, i as int) == choices_weight(t, choices@, i as int),
            t == weight_table.entries@,
            total_choices_weight(t, choices@) <= usize::MAX,
    {
        let w = weight_table.weight_for(&choices[i]);
        proof {
            lemma_sum_prefix_push(ws@, w, i as int);
        }
        ws.push(w);
    }
    proof {
        lemma_choices_weight_mono(t, choices@, 0, choices@.len() as int);
    }
    match choose_index_by_weights(&ws) {
        Err(e) => Err(e),
        Ok(idx) => {
            let el = choices[idx];
            proof {
                assert(ws@[idx as int] as nat == cat_weight(t, category(choices@[idx as int])));
            }
            Ok(el)
        },
    }
}

} // verus!
