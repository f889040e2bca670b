use vstd::prelude::*;

use crate::expand::args_expansion;
use crate::expand::expansion_rel;
use crate::expr_element::ExprElement;
use crate::expr_element::wf_element;

verus! {

/// The parenthesis contribution of one symbol: `OpenParantheses` opens a
/// level, `CloseParantheses` closes one, every other symbol is neutral.
pub open spec fn sym_pe(e: ExprElement) -> int {
    match e {
        ExprElement::OpenParantheses => 1,
        ExprElement::CloseParantheses => -1,
        _ => 0,
    }
}

/// The parenthesis excess of a sequence: opens minus closes.
pub open spec fn pe(s: Seq<ExprElement>) -> int
    decreases s.len(),
{
    if s.len() == 0 {
        0
    } else {
        sym_pe(s[0]) + pe(s.drop_first())
    }
}

/// The least parenthesis excess over all prefixes of a sequence
/// (the empty prefix included, so never above zero).
pub open spec fn min_pe(s: Seq<ExprElement>) -> int
    decreases s.len(),
{
    if s.len() == 0 {
        0
    } else {
        vstd::math::min(0, sym_pe(s[0]) + min_pe(s.drop_first()))
    }
}

/// Balanced in the nesting-consistent sense: as many opens as closes,
/// and no prefix that closes more than it has opened.
pub open spec fn balanced(s: Seq<ExprElement>) -> bool {
    pe(s) == 0 && min_pe(s) >= 0
}

pub(crate) proof fn lemma_pe_singleton(x: ExprElement)
    ensures
        pe(seq![x]) == sym_pe(x),
        min_pe(seq![x]) == vstd::math::min(0, sym_pe(x)),
{
    assert(seq![x].drop_first() =~= Seq::<ExprElement>::empty());
    assert(pe(Seq::<ExprElement>::empty()) == 0);
    assert(min_pe(Seq::<ExprElement>::empty()) == 0);
    assert(seq![x][0] == x);
}

pub(crate) proof fn lemma_pe_concat(a: Seq<ExprElement>, b: Seq<ExprElement>)
    ensures
        pe(a + b) == pe(a) + pe(b),
        min_pe(a + b) == vstd::math::min(min_pe(a), pe(a) + min_pe(b)),
    decreases a.len(),
{
    if a.len() == 0 {
        assert(a + b =~= b);
    } else {
        lemma_pe_concat(a.drop_first(), b);
        assert((a + b).drop_first() =~= a.drop_first() + b);
    }
}

/// A sequence without parenthesis symbols is neutral.
pub(crate) proof fn lemma_pe_no_paren(s: Seq<ExprElement>)
    requires
        forall|j: int| 0 <= j < s.len() ==> sym_pe(#[trigger] s[j]) == 0,
    ensures
        pe(s) == 0,
        min_pe(s) == 0,
    decreases s.len(),
{
    if s.len() > 0 {
        lemma_pe_no_paren(s.drop_first());
    }
}

/// Every one-step expansion is parenthesis-neutral and dips below its
/// own level nowhere: the parenthesising rules open and close in the
/// same step, every other rule introduces no parenthesis at all. It is
/// also never empty, and keeps every produced symbol well formed.
pub(crate) proof fn lemma_expansion_balance(
    el: ExprElement,
    st: Seq<(ExprElement, usize)>,
    at: Seq<(ExprElement, usize)>,
    ft: Seq<(usize, usize)>,
    els: Seq<ExprElement>,
)
    requires
        expansion_rel(el, st, at, ft, els),
        wf_element(el),
    ensures
        els.len() >= 1,
        pe(els) == 0,
        min_pe(els) == 0,
        forall|j: int| 0 <= j < els.len() ==> wf_element(#[trigger] els[j]),
{
    match el {
        ExprElement::Parantheses(d) => {
            lemma_paren_triple(els);
        },
        ExprElement::FuncParantheses(d, n) => {
            lemma_paren_triple(els);
        },
        ExprElement::Arguments(d, n) => {
            lemma_args_expansion_no_paren(d, n as nat);
            lemma_pe_no_paren(els);
        },
        _ => {
            lemma_pe_no_paren(els);
        },
    }
}

/// An argument-list expansion holds only arguments and commas.
pub(crate) proof fn lemma_args_expansion_no_paren(depth: i64, n: nat)
    ensures
        forall|j: int|
            0 <= j < args_expansion(depth, n).len() ==> sym_pe(
                #[trigger] args_expansion(depth, n)[j],
            ) == 0,
        forall|j: int|
            0 <= j < args_expansion(depth, n).len() ==> wf_element(
                #[trigger] args_expansion(depth, n)[j],
            ),
    decreases n,
{
    if n > 1 {
        lemma_args_expansion_no_paren(depth, (n - 1) as nat);
        let whole = args_expansion(depth, n);
        let tail = args_expansion(depth, (n - 1) as nat);
        assert forall|j: int| 0 <= j < whole.len() implies sym_pe(whole[j]) == 0 && wf_element(
            whole[j],
        ) by {
            if j >= 2 {
                assert(whole[j] == tail[j - 2]);
            }
        }
    }
}

/// A three-symbol expansion of the shape `( middle )` with a neutral
/// middle symbol is balanced.
proof fn lemma_paren_triple(els: Seq<ExprElement>)
    requires
        els.len() == 3,
        els[0] == ExprElement::OpenParantheses,
        sym_pe(els[1]) == 0,
        els[2] == ExprElement::CloseParantheses,
    ensures
        pe(els) == 0,
        min_pe(els) == 0,
{
    let t1 = els.drop_first();
    let t2 = t1.drop_first();
    let t3 = t2.drop_first();
    assert(t1[0] == els[1] && t1[1] == els[2]);
    assert(t2[0] == els[2]);
    assert(t3.len() == 0);
    assert(pe(t3) == 0);
    assert(min_pe(t3) == 0);
    assert(pe(t2) == -1);
    assert(pe(t1) == -1);
    assert(pe(els) == 0);
    assert(min_pe(t2) == -1);
    assert(min_pe(t1) == -1);
    assert(min_pe(els) == 0);
}

} // verus!
