use vstd::prelude::*;

use crate::expr_element::ExprElement;
use crate::expr_element::arg_candidates;
use crate::expr_element::choose_argument;
use crate::expr_element::choose_function;
use crate::expr_element::choose_start;
use crate::expr_element::chosen_argument;
use crate::expr_element::chosen_start;
use crate::expr_element::is_terminal;
use crate::expr_element::start_candidates;
use crate::expr_element::wf_element;
use crate::balance::balanced;
use crate::balance::lemma_expansion_balance;
use crate::balance::lemma_pe_concat;
use crate::balance::lemma_pe_singleton;
use crate::balance::min_pe;
use crate::balance::pe;
use crate::balance::sym_pe;
use crate::measure::arity_ok;
use crate::measure::lemma_expansion_measure;
use crate::measure::lemma_seq_measure_concat;
use crate::measure::lemma_seq_measure_singleton;
use crate::measure::measure;
use crate::measure::seq_measure;
use crate::measure::terminating_config;
use crate::weights::ArityWeightTable;
use crate::weights::GenError;
use crate::weights::WeightTable;
use crate::weights::arity_total;
use crate::weights::total_choices_weight;

verus! {

/// The expansion of `Arguments(depth, n)`: `n` arguments at the same
/// depth, separated by commas, with no trailing comma.
pub open spec fn args_expansion(depth: i64, n: nat) -> Seq<ExprElement>
    decreases n,
{
    if n <= 1 {
        seq![ExprElement::Argument(depth)]
    } else {
        seq![ExprElement::Argument(depth), ExprElement::Comma] + args_expansion(
            depth,
            (n - 1) as nat,
        )
    }
}

/// Argument-list fidelity: the expansion of an `n`-ary argument list has
/// length `2n - 1`, an `Argument` at every even position and a `Comma`
/// at every odd one — so exactly `n` arguments and `n - 1` separating
/// commas, and no comma at the end.
pub proof fn lemma_args_expansion_shape(depth: i64, n: nat)
    requires
        n >= 1,
    ensures
        args_expansion(depth, n).len() == 2 * n - 1,
        forall|i: int|
            0 <= i < 2 * n - 1 ==> args_expansion(depth, n)[i] == (if i % 2 == 0 {
                ExprElement::Argument(depth)
            } else {
                ExprElement::Comma
            }),
    decreases n,
{
    if n > 1 {
        lemma_args_expansion_shape(depth, (n - 1) as nat);
        let tail = args_expansion(depth, (n - 1) as nat);
        let whole = args_expansion(depth, n);
        assert forall|i: int| 0 <= i < 2 * n - 1 implies whole[i] == (if i % 2 == 0 {
            ExprElement::Argument(depth)
        } else {
            ExprElement::Comma
        }) by {
            if i >= 2 {
                assert(whole[i] == tail[i - 2]);
            }
        }
    }
}

/// What one successful `Function` expansion looks like: a function-name
/// terminal and a parenthesised argument list, both carrying an arity
/// drawn from the table with positive weight.
pub open spec fn chosen_function(t: Seq<(usize, usize)>, depth: i64, els: Seq<ExprElement>) -> bool {
    &&& els.len() == 2
    &&& exists|i: int|
        0 <= i < t.len() && t[i].1 > 0 && els[0] == ExprElement::FunctionName(t[i].0) && els[1]
            == ExprElement::FuncParantheses(depth, t[i].0)
}

/// The one-step production relation of the grammar: which sequences a
/// non-terminal can expand to, given the three weight tables. Terminals
/// are related to nothing.
pub open spec fn expansion_rel(
    el: ExprElement,
    st: Seq<(ExprElement, usize)>,
    at: Seq<(ExprElement, usize)>,
    ft: Seq<(usize, usize)>,
    els: Seq<ExprElement>,
) -> bool {
    match el {
        ExprElement::Operation(d) => els == seq![
            ExprElement::Argument(d),
            ExprElement::Operator,
            ExprElement::Argument(d),
        ],
        ExprElement::Argument(d) => els.len() == 1 && chosen_argument(at, d, els[0]),
        ExprElement::Function(d) => chosen_function(ft, d, els),
        ExprElement::Arguments(d, n) => n >= 1 && els == args_expansion(d, n as nat),
        ExprElement::Parantheses(d) => els == seq![
            ExprElement::OpenParantheses,
            ExprElement::Operation((d - 1) as i64),
            ExprElement::CloseParantheses,
        ],
        ExprElement::FuncParantheses(d, n) => els == seq![
            ExprElement::OpenParantheses,
            ExprElement::Arguments((d - 1) as i64, n),
            ExprElement::CloseParantheses,
        ],
        ExprElement::Start(d) => els.len() == 1 && chosen_start(st, d, els[0]),
        _ => false,
    }
}

/// Machine bounds on a configuration: every candidate-set total the
/// dispatcher can consult fits in a machine word.
pub open spec fn tables_fit(
    st: Seq<(ExprElement, usize)>,
    at: Seq<(ExprElement, usize)>,
    ft: Seq<(usize, usize)>,
) -> bool {
    &&& forall|d: i64| #[trigger] total_choices_weight(st, start_candidates(d)) <= usize::MAX
    &&& forall|d: i64| #[trigger] total_choices_weight(at, arg_candidates(d)) <= usize::MAX
    &&& arity_total(ft) <= usize::MAX
}

/// One piece of a rewriting round: a terminal stands for itself, a
/// non-terminal for one of its expansions.
pub open spec fn piece_ok(
    el: ExprElement,
    st: Seq<(ExprElement, usize)>,
    at: Seq<(ExprElement, usize)>,
    ft: Seq<(usize, usize)>,
    p: Seq<ExprElement>,
) -> bool {
    if is_terminal(el) {
        p == seq![el]
    } else {
        expansion_rel(el, st, at, ft, p)
    }
}

/// One whole rewriting round: the next sequence is exactly the in-order
/// concatenation of one piece per symbol of the current one.
pub open spec fn round_rel(
    s: Seq<ExprElement>,
    s2: Seq<ExprElement>,
    st: Seq<(ExprElement, usize)>,
    at: Seq<(ExprElement, usize)>,
    ft: Seq<(usize, usize)>,
) -> bool {
    exists|pieces: Seq<Seq<ExprElement>>|
        pieces.len() == s.len() && s2 == pieces.flatten() && (forall|k: int|
            0 <= k < s.len() ==> piece_ok(s[k], st, at, ft, #[trigger] pieces[k]))
}

/// Reachable by whole rewriting rounds: a chain of sequences from `s`
/// to `s2`, each linked to the next by one round.
pub open spec fn derivable(
    s: Seq<ExprElement>,
    s2: Seq<ExprElement>,
    st: Seq<(ExprElement, usize)>,
    at: Seq<(ExprElement, usize)>,
    ft: Seq<(usize, usize)>,
) -> bool {
    exists|chain: Seq<Seq<ExprElement>>|
        chain.len() >= 1 && chain.first() == s && chain.last() == s2 && (forall|k: int|
            0 <= k < chain.len() - 1 ==> round_rel(#[trigger] chain[k], chain[k + 1], st, at, ft))
}

/// The production-rule dispatcher: one rewriting step of a single
/// symbol. Terminals are left alone; each non-terminal is replaced by
/// its expansion, weighted choice deciding where the grammar is
/// ambiguous. Fails exactly on a consulted candidate set of total
/// weight zero, or on an argument list of arity zero.
pub fn develop_expression(
    el: &ExprElement,
    start_weight_table: &WeightTable,
    arg_weight_table: &WeightTable,
    func_weight_table: &ArityWeightTable,
) -> (r: Result<Option<Vec<ExprElement>>, GenError>)
    requires
        wf_element(*el),
        tables_fit(start_weight_table.entries@, arg_weight_table.entries@, func_weight_table.entries@),
    ensures
        is_terminal(*el) ==> (r matches Ok(o) && o is None),
        r matches Ok(o) ==> (o is Some <==> !is_terminal(*el)),
        r matches Ok(Some(v)) ==> expansion_rel(
            *el,
            start_weight_table.entries@,
            arg_weight_table.entries@,
            func_weight_table.entries@,
            v@,
        ),
        (r matches Err(e) && e == GenError::ZeroTotalWeight) <==> {
            ||| (*el matches ExprElement::Argument(d) && total_choices_weight(
                arg_weight_table.entries@,
                arg_candidates(d),
            ) == 0)
            ||| (*el matches ExprElement::Start(d) && total_choices_weight(
                start_weight_table.entries@,
                start_candidates(d),
            ) == 0)
            ||| (*el is Function && arity_total(func_weight_table.entries@) == 0)
        },
        (r matches Err(e) && e == GenError::InvalidArity) <==> (*el matches ExprElement::Arguments(
            d,
            n,
        ) && n == 0),
        r matches Err(e) ==> e != GenError::RoundLimitExceeded,
{
    match *el {
        ExprElement::Operation(depth) => {
            let mut v: Vec<ExprElement> = Vec::new();
            v.push(ExprElement::Argument(depth));
            v.push(ExprElement::Operator);
            v.push(ExprElement::Argument(depth));
            proof {
                assert(v@ =~= seq![
                    ExprElement::Argument(depth),
                    ExprElement::Operator,
                    ExprElement::Argument(depth),
                ]);
            }
            Ok(Some(v))
        },
        ExprElement::Argument(depth) => match choose_argument(arg_weight_table, depth) {
            Err(e) => Err(e),
            Ok(v) => Ok(Some(v)),
        },
        ExprElement::Function(depth) => match choose_function(func_weight_table, depth) {
            Err(e) => Err(e),
            Ok(v) => Ok(Some(v)),
        },
        ExprElement::Arguments(depth, size) => {
            if size == 0 {
                Err(GenError::InvalidArity)
            } else {
                let mut v: Vec<ExprElement> = Vec::new();
                proof {
                    assert(Seq::<ExprElement>::empty() + args_expansion(depth, size as nat)
                        =~= args_expansion(depth, size as nat));
                }
                for i in 1..size
                    invariant
                        1 <= i <= size,
                        v@.len() == 2 * (i - 1),
                        v@ + args_expansion(depth, (size - i + 1) as nat) == args_expansion(
                            depth,
                            size as nat,
                        ),
                {
                    let ghost vpre = v@;
                    let ghost m = (size - i + 1) as nat;
                    v.push(ExprElement::Argument(depth));
                    v.push(ExprElement::Comma);
                    proof {
                        assert(m >= 2);
                        assert(v@ =~= vpre + seq![
                            ExprElement::Argument(depth),
                            ExprElement::Comma,
                        ]);
                        assert(args_expansion(depth, m) == seq![
                            ExprElement::Argument(depth),
                            ExprElement::Comma,
                        ] + args_expansion(depth, (m - 1) as nat));
                        assert(v@ + args_expansion(depth, (m - 1) as nat) =~= vpre
                            + args_expansion(depth, m));
                        assert((size - (i + 1) + 1) as nat == (m - 1) as nat);
                    }
                }
                let ghost vpre2 = v@;
                v.push(ExprElement::Argument(depth));
                proof {
                    assert(args_expansion(depth, 1) =~= seq![ExprElement::Argument(depth)]);
                    assert(v@ =~= vpre2 + args_expansion(depth, 1));
                }
                Ok(Some(v))
            }
        },
        ExprElement::Parantheses(depth) => {
            let mut v: Vec<ExprElement> = Vec::new();
            v.push(ExprElement::OpenParantheses);
            v.push(ExprElement::Operation(depth - 1));
            v.push(ExprElement::CloseParantheses);
            proof {
                assert(v@ =~= seq![
                    ExprElement::OpenParantheses,
                    ExprElement::Operation((depth - 1) as i64),
                    ExprElement::CloseParantheses,
                ]);
            }
            Ok(Some(v))
        },
        ExprElement::FuncParantheses(depth, size) => {
            let mut v: Vec<ExprElement> = Vec::new();
            v.push(ExprElement::OpenParantheses);
            v.push(ExprElement::Arguments(depth - 1, size));
            v.push(ExprElement::CloseParantheses);
            proof {
                assert(v@ =~= seq![
                    ExprElement::OpenParantheses,
                    ExprElement::Arguments((depth - 1) as i64, size),
                    ExprElement::CloseParantheses,
                ]);
            }
            Ok(Some(v))
        },
        ExprElement::Start(depth) => match choose_start(start_weight_table, depth) {
            Err(e) => Err(e),
            Ok(v) => Ok(Some(v)),
        },
        _ => Ok(None),
    }
}

} // verus!

verus! {

/// No symbol of the sequence still carries a rewriting obligation.
pub open spec fn all_terminal(s: Seq<ExprElement>) -> bool {
    forall|j: int| 0 <= j < s.len() ==> is_terminal(#[trigger] s[j])
}

/// Every symbol of the sequence is well formed.
pub open spec fn wf_all(s: Seq<ExprElement>) -> bool {
    forall|j: int| 0 <= j < s.len() ==> wf_element(#[trigger] s[j])
}

/// Every symbol of the sequence keeps its arity within the bound.
pub open spec fn arities_all(s: Seq<ExprElement>, na: nat) -> bool {
    forall|j: int| 0 <= j < s.len() ==> arity_ok(#[trigger] s[j], na)
}

/// A parenthesis terminal.
pub open spec fn is_paren(e: ExprElement) -> bool {
    e is OpenParantheses || e is CloseParantheses
}

/// The rewriting driver: starting from the seed alone, each round
/// rewrites every symbol of the current sequence once — terminals stay,
/// non-terminals are replaced by their one-step expansion, in place and
/// in order — until a round expands nothing. A defensive ceiling of
/// `max_rounds` rewriting rounds guards against configurations whose
/// rewriting does not wind down; under a configuration that cannot
/// reintroduce an `Operation` from an argument, the ceiling is provably
/// never hit once it exceeds the seed's rank.
#[verifier::loop_isolation(false)]
pub fn generate_symbols(
    seed: ExprElement,
    start_weight_table: &WeightTable,
    arg_weight_table: &WeightTable,
    func_weight_table: &ArityWeightTable,
    max_rounds: usize,
) -> (r: Result<Vec<ExprElement>, GenError>)
    requires
        wf_element(seed),
        tables_fit(
            start_weight_table.entries@,
            arg_weight_table.entries@,
            func_weight_table.entries@,
        ),
    ensures
        r matches Ok(v) ==> all_terminal(v@) && v@.len() >= 1,
        r matches Ok(v) ==> derivable(
            seq![seed],
            v@,
            start_weight_table.entries@,
            arg_weight_table.entries@,
            func_weight_table.entries@,
        ),
        r matches Ok(v) ==> pe(v@) == sym_pe(seed) && min_pe(v@) >= vstd::math::min(
            0,
            sym_pe(seed),
        ),
        !is_paren(seed) ==> (r matches Ok(v) ==> balanced(v@)),
        forall|na: nat|
            (#[trigger] terminating_config(
                start_weight_table.entries@,
                arg_weight_table.entries@,
                func_weight_table.entries@,
                na,
            ) && arity_ok(seed, na) && measure(seed, na) < max_rounds) ==> r is Ok,
{
    let ghost st = start_weight_table.entries@;
    let ghost at = arg_weight_table.entries@;
    let ghost ft = func_weight_table.entries@;
    let mut vector: Vec<ExprElement> = Vec::new();
    vector.push(seed);
    proof {
        assert(vector@ =~= seq![seed]);
        lemma_pe_singleton(seed);
        assert forall|na: nat| seq_measure(vector@, na) == measure(seed, na) by {
            lemma_seq_measure_singleton(seed, na);
        }
    }
    let mut rounds: usize = 0;
    let ghost mut chain: Seq<Seq<ExprElement>> = seq![seq![seed]];
    proof {
        assert(chain.first() == seq![seed] && chain.last() == vector@);
    }
    while rounds < max_rounds
        invariant
            chain.len() == rounds + 1,
            chain.first() == seq![seed],
            chain.last() == vector@,
            forall|k: int| 0 <= k < chain.len() - 1 ==> round_rel(#[trigger] chain[k], chain[k + 1], st, at, ft),
            vector@.len() >= 1,
            wf_all(vector@),
            pe(vector@) == sym_pe(seed),
            min_pe(vector@) >= vstd::math::min(0, sym_pe(seed)),
            rounds <= max_rounds,
            forall|na: nat|
                (#[trigger] terminating_config(st, at, ft, na) && arity_ok(seed, na)) ==> (
                arities_all(vector@, na) && rounds + seq_measure(vector@, na) <= measure(
                    seed,
                    na,
                )),
        decreases max_rounds - rounds,
    {
        let ghost curv = vector@;
        let n = vector.len();
        let mut new_vector: Vec<ExprElement> = Vec::new();
        let mut expanded = false;
        let ghost mut pieces: Seq<Seq<ExprElement>> = Seq::empty();
        proof {
            assert(curv.take(0) =~= Seq::<ExprElement>::empty());
            assert(Seq::<Seq<ExprElement>>::empty().flatten() =~= Seq::<ExprElement>::empty());
        }
        for i in 0..n
            invariant
                pieces.len() == i,
                new_vector@ == pieces.flatten(),
                forall|k: int| 0 <= k < i ==> piece_ok(curv[k], st, at, ft, #[trigger] pieces[k]),
                new_vector@.len() >= i,
                wf_all(new_vector@),
                expanded == !all_terminal(curv.take(i as int)),
                !expanded ==> new_vector@ == curv.take(i as int),
                pe(new_vector@) == pe(curv.take(i as int)),
                min_pe(new_vector@) >= min_pe(curv.take(i as int)),
                forall|na: nat|
                    (#[trigger] terminating_config(st, at, ft, na) && arity_ok(seed, na)) ==> (
                    arities_all(new_vector@, na) && seq_measure(new_vector@, na) + (if expanded {
                        1int
                    } else {
                        0int
                    }) <= seq_measure(curv.take(i as int), na)),
        {
            let el = vector[i];
            let ghost prev = new_vector@;
            let result = develop_expression(
                &el,
                start_weight_table,
                arg_weight_table,
                func_weight_table,
            );
            proof {
                assert(curv.take(i as int + 1) =~= curv.take(i as int) + seq![el]);
                lemma_pe_singleton(el);
                lemma_pe_concat(curv.take(i as int), seq![el]);
            }
            match result {
                Err(e) => {
                    proof {
                        assert forall|na: nat|
                            !(terminating_config(st, at, ft, na) && arity_ok(seed, na)) by {
                            if terminating_config(st, at, ft, na) && arity_ok(seed, na) {
                                assert(arities_all(curv, na));
                                assert(arity_ok(curv[i as int], na));
                                assert(false);
                            }
                        }
                    }
                    return Err(e);
                },
                Ok(None) => {
                    new_vector.push(el);
                    proof {
                        assert(new_vector@ =~= prev + seq![el]);
                        pieces.lemma_flatten_push(seq![el]);
                        pieces = pieces.push(seq![el]);
                        lemma_pe_concat(prev, seq![el]);
                        assert(is_terminal(el));
                        if all_terminal(curv.take(i as int)) {
                            assert forall|j: int|
                                0 <= j < i + 1 implies is_terminal(
                                #[trigger] curv.take(i as int + 1)[j],
                            ) by {
                                if j < i {
                                    assert(curv.take(i as int + 1)[j] == curv.take(i as int)[j]);
                                }
                            }
                        } else {
                            let j = choose|j: int|
                                0 <= j < i && !is_terminal(#[trigger] curv.take(i as int)[j]);
                            assert(!is_terminal(curv.take(i as int + 1)[j]));
                        }
                        assert forall|na: nat|
                            (#[trigger] terminating_config(st, at, ft, na) && arity_ok(
                                seed,
                                na,
                            )) implies (arities_all(new_vector@, na) && seq_measure(
                            new_vector@,
                            na,
                        ) + (if expanded {
                            1int
                        } else {
                            0int
                        }) <= seq_measure(curv.take(i as int + 1), na)) by {
                            lemma_seq_measure_concat(prev, seq![el], na);
                            lemma_seq_measure_singleton(el, na);
                            lemma_seq_measure_concat(curv.take(i as int), seq![el], na);
                        }
                    }
                },
                Ok(Some(mut els)) => {
                    let ghost elsv = els@;
                    expanded = true;
                    new_vector.append(&mut els);
                    proof {
                        assert(new_vector@ == prev + elsv);
                        pieces.lemma_flatten_push(elsv);
                        pieces = pieces.push(elsv);
                        lemma_expansion_balance(el, st, at, ft, elsv);
                        lemma_pe_concat(prev, elsv);
                        assert(sym_pe(el) == 0);
                        assert(curv.take(i as int + 1)[i as int] == el);
                        assert(!all_terminal(curv.take(i as int + 1)));
                        assert forall|na: nat|
                            (#[trigger] terminating_config(st, at, ft, na) && arity_ok(
                                seed,
                                na,
                            )) implies (arities_all(new_vector@, na) && seq_measure(
                            new_vector@,
                            na,
                        ) + 1int <= seq_measure(curv.take(i as int + 1), na)) by {
                            assert(arities_all(curv, na));
                            assert(arity_ok(curv[i as int], na));
                            lemma_expansion_measure(el, st, at, ft, elsv, na);
                            lemma_seq_measure_concat(prev, elsv, na);
                            lemma_seq_measure_concat(curv.take(i as int), seq![el], na);
                            lemma_seq_measure_singleton(el, na);
                        }
                    }
                },
            }
        }
        proof {
            assert(curv.take(n as int) =~= curv);
            assert(pieces.len() == curv.len() && new_vector@ == pieces.flatten() && (forall|k: int|
                0 <= k < curv.len() ==> piece_ok(curv[k], st, at, ft, #[trigger] pieces[k])));
            assert(round_rel(curv, new_vector@, st, at, ft));
            let chain2 = chain.push(new_vector@);
            assert(chain2.first() == seq![seed]);
            assert(chain2.last() == new_vector@);
            assert forall|k: int| 0 <= k < chain2.len() - 1 implies round_rel(
                #[trigger] chain2[k],
                chain2[k + 1],
                st,
                at,
                ft,
            ) by {
                if k < chain.len() - 1 {
                    assert(chain2[k] == chain[k] && chain2[k + 1] == chain[k + 1]);
                } else {
                    assert(chain2[k] == chain.last() && chain2[k + 1] == new_vector@);
                }
            }
            chain = chain2;
        }
        if !expanded {
            proof {
                assert(chain.len() >= 1 && chain.first() == seq![seed] && chain.last()
                    == new_vector@);
                assert(derivable(seq![seed], new_vector@, st, at, ft));
            }
            return Ok(new_vector);
        }
        vector = new_vector;
        rounds = rounds + 1;
    }
    proof {
        assert forall|na: nat|
            !(terminating_config(st, at, ft, na) && arity_ok(seed, na) && measure(seed, na)
                < max_rounds) by {
            if terminating_config(st, at, ft, na) && arity_ok(seed, na) {
                assert(rounds + seq_measure(vector@, na) <= measure(seed, na));
            }
        }
    }
    Err(GenError::RoundLimitExceeded)
}

} // verus!
