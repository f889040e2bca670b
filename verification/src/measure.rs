use vstd::prelude::*;

use crate::expand::args_expansion;
use crate::expand::expansion_rel;
use crate::expr_element::ExprElement;
use crate::expr_element::arg_candidates;
use crate::expr_element::category;
use crate::expr_element::start_candidates;
use crate::expr_element::wf_element;
use crate::weights::arity_total;
use crate::weights::cat_weight;
use crate::weights::total_choices_weight;

verus! {

/// The rank of an `Argument` at depth `d` when arities are bounded by
/// `na`: the ranks below make one rewriting step of any symbol strictly
/// cheaper than the symbol itself, so the total rank of a sequence
/// falls every round.
pub open spec fn arg_m(d: int, na: nat) -> nat
    decreases (if d > 0 { d } else { 0 }),
{
    if d <= 0 {
        1
    } else {
        (na + 2) * arg_m(d - 1, na) + na + 5
    }
}

/// The rank of an `Operation` at depth `d`.
pub open spec fn op_m(d: int, na: nat) -> nat {
    2 * arg_m(d, na) + 1
}

/// The rank of an `Arguments` list of arity `n` at depth `d`.
pub open spec fn args_m(d: int, n: nat, na: nat) -> nat {
    n * (arg_m(d, na) + 1)
}

/// The rank of a `FuncParantheses` of arity `n` at depth `d`.
pub open spec fn fpar_m(d: int, n: nat, na: nat) -> nat {
    args_m(d - 1, n, na) + 1
}

/// The rank of a `Function` at depth `d`.
pub open spec fn func_m(d: int, na: nat) -> nat {
    fpar_m(d, na, na) + 1
}

/// The rank of a `Parantheses` at depth `d`.
pub open spec fn par_m(d: int, na: nat) -> nat {
    op_m(d - 1, na) + 1
}

/// The rank of a `Start` at depth `d`.
pub open spec fn start_m(d: int, na: nat) -> nat {
    op_m(d, na) + func_m(d, na) + 1
}

/// The rank of one symbol: zero for terminals, the rank of its rule for
/// a non-terminal. A bound on how many rounds the symbol can still feed.
pub open spec fn measure(e: ExprElement, na: nat) -> nat {
    match e {
        ExprElement::Operation(d) => op_m(d as int, na),
        ExprElement::Argument(d) => arg_m(d as int, na),
        ExprElement::Function(d) => func_m(d as int, na),
        ExprElement::Arguments(d, n) => args_m(d as int, n as nat, na),
        ExprElement::Parantheses(d) => par_m(d as int, na),
        ExprElement::FuncParantheses(d, n) => fpar_m(d as int, n as nat, na),
        ExprElement::Start(d) => start_m(d as int, na),
        _ => 0,
    }
}

/// The total rank of a sequence of symbols.
pub open spec fn seq_measure(s: Seq<ExprElement>, na: nat) -> nat
    decreases s.len(),
{
    if s.len() == 0 {
        0
    } else {
        measure(s[0], na) + seq_measure(s.drop_first(), na)
    }
}

pub(crate) proof fn lemma_seq_measure_concat(a: Seq<ExprElement>, b: Seq<ExprElement>, na: nat)
    ensures
        seq_measure(a + b, na) == seq_measure(a, na) + seq_measure(b, na),
    decreases a.len(),
{
    if a.len() == 0 {
        assert(a + b =~= b);
    } else {
        lemma_seq_measure_concat(a.drop_first(), b, na);
        assert((a + b).drop_first() =~= a.drop_first() + b);
    }
}

pub(crate) proof fn lemma_seq_measure_singleton(x: ExprElement, na: nat)
    ensures
        seq_measure(seq![x], na) == measure(x, na),
{
    assert(seq![x].drop_first() =~= Seq::<ExprElement>::empty());
    assert(seq_measure(Seq::<ExprElement>::empty(), na) == 0);
    assert(seq![x][0] == x);
}

/// The arity carried by a symbol, where it carries one, lies between 1
/// and the bound `na`.
pub open spec fn arity_ok(e: ExprElement, na: nat) -> bool {
    match e {
        ExprElement::Arguments(_, n) => 1 <= n <= na,
        ExprElement::FuncParantheses(_, n) => 1 <= n <= na,
        _ => true,
    }
}

/// A configuration under which rewriting is structurally bounded: every
/// consulted candidate set has positive total weight, the argument rule
/// can never choose an `Operation` — the one production that repeats a
/// depth without decreasing it — and every positive-weight arity lies
/// between 1 and `na`.
pub open spec fn terminating_config(
    st: Seq<(ExprElement, usize)>,
    at: Seq<(ExprElement, usize)>,
    ft: Seq<(usize, usize)>,
    na: nat,
) -> bool {
    &&& forall|d: i64| #[trigger] total_choices_weight(st, start_candidates(d)) > 0
    &&& forall|d: i64| #[trigger] total_choices_weight(at, arg_candidates(d)) > 0
    &&& cat_weight(at, category(ExprElement::Operation(0))) == 0
    &&& arity_total(ft) > 0
    &&& forall|i: int| 0 <= i < ft.len() && (#[trigger] ft[i]).1 > 0 ==> 1 <= ft[i].0 <= na
}

/// The rank of an argument is at least 1, at any depth.
pub(crate) proof fn lemma_arg_m_pos(d: int, na: nat)
    ensures
        arg_m(d, na) >= 1,
{
}

/// The rank of an argument-list expansion: `n` arguments and neutral
/// commas.
pub(crate) proof fn lemma_args_expansion_measure(depth: i64, n: nat, na: nat)
    requires
        n >= 1,
    ensures
        seq_measure(args_expansion(depth, n), na) == n * arg_m(depth as int, na),
    decreases n,
{
    let a = arg_m(depth as int, na);
    if n <= 1 {
        lemma_seq_measure_singleton(ExprElement::Argument(depth), na);
        assert(1 * a == a) by (nonlinear_arith);
    } else {
        lemma_args_expansion_measure(depth, (n - 1) as nat, na);
        let head = seq![ExprElement::Argument(depth), ExprElement::Comma];
        let tail = args_expansion(depth, (n - 1) as nat);
        lemma_seq_measure_concat(head, tail, na);
        assert(head.drop_first() =~= seq![ExprElement::Comma]);
        lemma_seq_measure_singleton(ExprElement::Comma, na);
        assert(seq_measure(head, na) == a);
        assert(a + (n - 1) * a == n * a) by (nonlinear_arith);
    }
}

/// One rewriting step strictly lowers the total rank: under a
/// configuration that cannot choose an `Operation` for an argument, the
/// expansion of any well-formed non-terminal has a smaller total rank
/// than the symbol it replaces, and every produced symbol keeps its
/// arity within the bound.
pub(crate) proof fn lemma_expansion_measure(
    el: ExprElement,
    st: Seq<(ExprElement, usize)>,
    at: Seq<(ExprElement, usize)>,
    ft: Seq<(usize, usize)>,
    els: Seq<ExprElement>,
    na: nat,
)
    requires
        expansion_rel(el, st, at, ft, els),
        wf_element(el),
        terminating_config(st, at, ft, na),
        arity_ok(el, na),
    ensures
        seq_measure(els, na) < measure(el, na),
        forall|j: int| 0 <= j < els.len() ==> arity_ok(#[trigger] els[j], na),
{
    match el {
        ExprElement::Operation(d) => {
            let arg = ExprElement::Argument(d);
            let t1 = els.drop_first();
            let t2 = t1.drop_first();
            assert(t2 =~= seq![arg]);
            lemma_seq_measure_singleton(arg, na);
            assert(t1[0] == ExprElement::Operator && els[0] == arg);
            assert(seq_measure(t1, na) == measure(t1[0], na) + seq_measure(t2, na));
            assert(seq_measure(els, na) == measure(els[0], na) + seq_measure(t1, na));
            assert(seq_measure(els, na) == 2 * arg_m(d as int, na));
        },
        ExprElement::Argument(d) => {
            lemma_seq_measure_singleton(els[0], na);
            assert(els =~= seq![els[0]]);
            if els[0] is Operation {
                assert(category(els[0]) == category(ExprElement::Operation(0)));
                assert(false);
            }
            if d > 0 {
                let a1 = arg_m(d as int - 1, na);
                lemma_arg_m_pos(d as int - 1, na);
                assert(arg_m(d as int, na) == (na + 2) * a1 + na + 5);
                assert((na + 2) * a1 == na * a1 + 2 * a1) by (nonlinear_arith);
                assert(func_m(d as int, na) == na * (a1 + 1) + 2);
                assert(na * (a1 + 1) == na * a1 + na) by (nonlinear_arith);
                assert(par_m(d as int, na) == 2 * a1 + 2);
            }
        },
        ExprElement::Function(d) => {
            let i = choose|i: int|
                0 <= i < ft.len() && ft[i].1 > 0 && els[0] == ExprElement::FunctionName(ft[i].0)
                    && els[1] == ExprElement::FuncParantheses(d, ft[i].0);
            let n = ft[i].0 as nat;
            assert(1 <= n <= na);
            assert(els =~= seq![els[0], els[1]]);
            assert(els.drop_first() =~= seq![els[1]]);
            lemma_seq_measure_singleton(els[1], na);
            assert(seq_measure(els, na) == fpar_m(d as int, n, na));
            let a1 = arg_m(d as int - 1, na);
            assert(n * (a1 + 1) <= na * (a1 + 1)) by (nonlinear_arith)
                requires
                    1 <= n <= na,
                    a1 >= 0,
            ;
        },
        ExprElement::Arguments(d, n) => {
            lemma_args_expansion_measure(d, n as nat, na);
            let a = arg_m(d as int, na);
            assert((n as nat) * a < (n as nat) * (a + 1)) by (nonlinear_arith)
                requires
                    n >= 1,
                    a >= 0,
            ;
            crate::balance::lemma_args_expansion_no_paren(d, n as nat);
            assert forall|j: int| 0 <= j < els.len() implies arity_ok(#[trigger] els[j], na) by {
                crate::expand::lemma_args_expansion_shape(d, n as nat);
            }
        },
        ExprElement::Parantheses(d) => {
            let mid = ExprElement::Operation((d - 1) as i64);
            let t1 = els.drop_first();
            let t2 = t1.drop_first();
            assert(t2 =~= seq![ExprElement::CloseParantheses]);
            lemma_seq_measure_singleton(ExprElement::CloseParantheses, na);
            assert(t1[0] == mid && els[0] == ExprElement::OpenParantheses);
            assert(measure(mid, na) == op_m(d - 1, na));
            assert(seq_measure(t1, na) == measure(t1[0], na) + seq_measure(t2, na));
            assert(seq_measure(els, na) == measure(els[0], na) + seq_measure(t1, na));
            assert(seq_measure(els, na) == op_m(d - 1, na));
        },
        ExprElement::FuncParantheses(d, n) => {
            let mid = ExprElement::Arguments((d - 1) as i64, n);
            let t1 = els.drop_first();
            let t2 = t1.drop_first();
            assert(t2 =~= seq![ExprElement::CloseParantheses]);
            lemma_seq_measure_singleton(ExprElement::CloseParantheses, na);
            assert(t1[0] == mid && els[0] == ExprElement::OpenParantheses);
            assert(measure(mid, na) == args_m(d - 1, n as nat, na));
            assert(seq_measure(t1, na) == measure(t1[0], na) + seq_measure(t2, na));
            assert(seq_measure(els, na) == measure(els[0], na) + seq_measure(t1, na));
            assert(seq_measure(els, na) == args_m(d - 1, n as nat, na));
        },
        ExprElement::Start(d) => {
            lemma_seq_measure_singleton(els[0], na);
            assert(els =~= seq![els[0]]);
        },
        _ => {
            assert(false);
        },
    }
}

} // verus!
