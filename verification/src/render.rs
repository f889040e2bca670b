use vstd::prelude::*;

use crate::balance::min_pe;
use crate::balance::pe;
use crate::balance::sym_pe;
use crate::expand::all_terminal;
use crate::expand::is_paren;
use crate::expand::tables_fit;
use crate::expand::generate_symbols;
use crate::expr_element::ExprElement;
use crate::expr_element::wf_element;
use crate::measure::arity_ok;
use crate::measure::measure;
use crate::measure::terminating_config;
use crate::weights::ArityWeightTable;
use crate::weights::GenError;
use crate::weights::WeightTable;
use crate::weights::choose_index_by_weights;
use crate::weights::lemma_sum_prefix_push;
use crate::weights::random_below;
use crate::weights::sum_prefix;
use vstd::string::StrSliceExecFns;

verus! {

/// A weight table over rendered function names.
pub struct NameWeightTable {
    pub entries: Vec<(String, usize)>,
}

/// A weight table over rendered operator characters.
pub struct OperatorWeightTable {
    pub entries: Vec<(char, usize)>,
}

/// The sum of the weights of the first `i` name entries.
pub open spec fn name_weights_sum(t: Seq<(String, usize)>, i: int) -> nat
    decreases i,
{
    if i <= 0 {
        0
    } else {
        name_weights_sum(t, i - 1) + t[i - 1].1 as nat
    }
}

/// The total weight of a name table.
pub open spec fn name_total(t: Seq<(String, usize)>) -> nat {
    name_weights_sum(t, t.len() as int)
}

/// The sum of the weights of the first `i` operator entries.
pub open spec fn op_weights_sum(t: Seq<(char, usize)>, i: int) -> nat
    decreases i,
{
    if i <= 0 {
        0
    } else {
        op_weights_sum(t, i - 1) + t[i - 1].1 as nat
    }
}

/// The total weight of an operator table.
pub open spec fn op_total(t: Seq<(char, usize)>) -> nat {
    op_weights_sum(t, t.len() as int)
}

/// The parenthesis contribution of one character.
pub open spec fn char_pe(c: char) -> int {
    if c == '(' {
        1
    } else if c == ')' {
        -1
    } else {
        0
    }
}

/// The parenthesis excess of a rendered string.
pub open spec fn str_pe(s: Seq<char>) -> int
    decreases s.len(),
{
    if s.len() == 0 {
        0
    } else {
        char_pe(s[0]) + str_pe(s.drop_first())
    }
}

/// The least parenthesis excess over all prefixes of a rendered string.
pub open spec fn str_min_pe(s: Seq<char>) -> int
    decreases s.len(),
{
    if s.len() == 0 {
        0
    } else {
        vstd::math::min(0, char_pe(s[0]) + str_min_pe(s.drop_first()))
    }
}

/// Balanced text: as many `(` as `)`, and no prefix closing more than
/// it has opened.
pub open spec fn balanced_chars(s: Seq<char>) -> bool {
    str_pe(s) == 0 && str_min_pe(s) >= 0
}

/// No configured function name or operator carries a parenthesis
/// character of its own.
pub open spec fn paren_free_tables(nt: Seq<(String, usize)>, ot: Seq<(char, usize)>) -> bool {
    &&& forall|i: int, j: int|
        0 <= i < nt.len() && 0 <= j < nt[i].0@.len() ==> char_pe(#[trigger] nt[i].0@[j]) == 0
    &&& forall|i: int| 0 <= i < ot.len() ==> char_pe((#[trigger] ot[i]).0) == 0
}

/// A sequence that needs a function-name choice to render: a
/// `FunctionName` of arity one or zero.
pub open spec fn needs_name(s: Seq<ExprElement>) -> bool {
    exists|j: int|
        0 <= j < s.len() && ((#[trigger] s[j]) matches ExprElement::FunctionName(a) && a <= 1)
}

/// A sequence that needs an operator choice to render.
pub open spec fn has_operator(s: Seq<ExprElement>) -> bool {
    exists|j: int| 0 <= j < s.len() && (#[trigger] s[j]) is Operator
}

proof fn lemma_str_pe_singleton(c: char)
    ensures
        str_pe(seq![c]) == char_pe(c),
        str_min_pe(seq![c]) == vstd::math::min(0, char_pe(c)),
{
    assert(seq![c].drop_first() =~= Seq::<char>::empty());
    assert(str_pe(Seq::<char>::empty()) == 0);
    assert(str_min_pe(Seq::<char>::empty()) == 0);
    assert(seq![c][0] == c);
}

proof fn lemma_str_pe_concat(a: Seq<char>, b: Seq<char>)
    ensures
        str_pe(a + b) == str_pe(a) + str_pe(b),
        str_min_pe(a + b) == vstd::math::min(str_min_pe(a), str_pe(a) + str_min_pe(b)),
    decreases a.len(),
{
    if a.len() == 0 {
        assert(a + b =~= b);
    } else {
        lemma_str_pe_concat(a.drop_first(), b);
        assert((a + b).drop_first() =~= a.drop_first() + b);
    }
}

proof fn lemma_str_pe_no_paren(s: Seq<char>)
    requires
        forall|j: int| 0 <= j < s.len() ==> char_pe(#[trigger] s[j]) == 0,
    ensures
        str_pe(s) == 0,
        str_min_pe(s) == 0,
    decreases s.len(),
{
    if s.len() > 0 {
        lemma_str_pe_no_paren(s.drop_first());
    }
}

/// The decimal digit character for a value below ten.
pub open spec fn digit_char(d: nat) -> char {
    if d == 0 {
        '0'
    } else if d == 1 {
        '1'
    } else if d == 2 {
        '2'
    } else if d == 3 {
        '3'
    } else if d == 4 {
        '4'
    } else if d == 5 {
        '5'
    } else if d == 6 {
        '6'
    } else if d == 7 {
        '7'
    } else if d == 8 {
        '8'
    } else {
        '9'
    }
}

/// The decimal rendering of a number, most significant digit first,
/// with no leading zero except for the number zero itself.
pub open spec fn dec_digits(n: nat) -> Seq<char>
    decreases n,
{
    if n < 10 {
        seq![digit_char(n)]
    } else {
        dec_digits(n / 10).push(digit_char(n % 10))
    }
}

/// Every character of a decimal rendering is a digit, so none is a
/// parenthesis.
pub(crate) proof fn lemma_dec_digits_no_paren(n: nat)
    ensures
        forall|j: int| 0 <= j < dec_digits(n).len() ==> char_pe(#[trigger] dec_digits(n)[j]) == 0,
    decreases n,
{
    if n >= 10 {
        lemma_dec_digits_no_paren(n / 10);
        assert forall|j: int| 0 <= j < dec_digits(n).len() implies char_pe(dec_digits(n)[j])
            == 0 by {
            if j < dec_digits(n).len() - 1 {
                assert(dec_digits(n)[j] == dec_digits(n / 10)[j]);
            }
        }
    }
}

/// Appends the decimal rendering of `n`.
pub fn push_decimal(out: &mut Vec<char>, n: usize)
    ensures
        final(out)@ == old(out)@ + dec_digits(n as nat),
    decreases n,
{
    let ghost pre = out@;
    if n >= 10 {
        push_decimal(out, n / 10);
    }
    let d = n % 10;
    let c: char = match d {
        0 => '0',
        1 => '1',
        2 => '2',
        3 => '3',
        4 => '4',
        5 => '5',
        6 => '6',
        7 => '7',
        8 => '8',
        _ => '9',
    };
    out.push(c);
    proof {
        assert(c == digit_char((n % 10) as nat));
        if n < 10 {
            assert(out@ =~= pre + seq![digit_char(n as nat)]);
        } else {
            assert(out@ =~= pre + dec_digits((n / 10) as nat).push(digit_char((n % 10) as nat)));
        }
    }
}

/// Appends every character of `s`.
fn push_str_chars(out: &mut Vec<char>, s: &str)
    ensures
        final(out)@ == old(out)@ + s@,
{
    let ghost pre = out@;
    let len = s.unicode_len();
    for j in 0..len
        invariant
            len == s@.len(),
            out@ == pre + s@.take(j as int),
    {
        let c = s.get_char(j);
        out.push(c);
        proof {
            assert(pre + s@.take(j as int + 1) =~= (pre + s@.take(j as int)).push(s@[j as int]));
        }
    }
    proof {
        assert(s@.take(len as int) =~= s@);
    }
}

/// Turns the accumulated characters into the rendered string.
///
/// Relies on `core::iter::Iterator::collect` into `String` (via
/// `FromIterator<char>`): the string holds exactly the characters of
/// the vector, in order.
#[verifier::external_body]
fn chars_to_string(v: &Vec<char>) -> (r: String)
    ensures
        r@ == v@,
{
    v.iter().collect()
}

/// Chooses a name index from the name table by weight.
fn choose_name_index(t: &NameWeightTable) -> (r: Result<usize, GenError>)
    requires
        name_total(t.entries@) <= usize::MAX,
    ensures
        (r is Err) <==> name_total(t.entries@) == 0,
        r matches Err(e) ==> e == GenError::ZeroTotalWeight,
        r matches Ok(idx) ==> idx < t.entries@.len() && t.entries@[idx as int].1 > 0,
{
    let ghost tv = t.entries@;
    let n = t.entries.len();
    let mut ws: Vec<usize> = Vec::new();
    for i in 0..n
        invariant
            n == tv.len(),
            tv == t.entries@,
            ws@.len() == i,
            forall|j: int| 0 <= j < i ==> ws@[j] == tv[j].1,
            sum_prefix(ws@, i as int) == name_weights_sum(tv, i as int),
    {
        let w = t.entries[i].1;
        proof {
            lemma_sum_prefix_push(ws@, w, i as int);
        }
        ws.push(w);
    }
    choose_index_by_weights(&ws)
}

/// Chooses an operator index from the operator table by weight.
fn choose_op_index(t: &OperatorWeightTable) -> (r: Result<usize, GenError>)
    requires
        op_total(t.entries@) <= usize::MAX,
    ensures
        (r is Err) <==> op_total(t.entries@) == 0,
        r matches Err(e) ==> e == GenError::ZeroTotalWeight,
        r matches Ok(idx) ==> idx < t.entries@.len() && t.entries@[idx as int].1 > 0,
{
    let ghost tv = t.entries@;
    let n = t.entries.len();
    let mut ws: Vec<usize> = Vec::new();
    for i in 0..n
        invariant
            n == tv.len(),
            tv == t.entries@,
            ws@.len() == i,
            forall|j: int| 0 <= j < i ==> ws@[j] == tv[j].1,
            sum_prefix(ws@, i as int) == op_weights_sum(tv, i as int),
    {
        let w = t.entries[i].1;
        proof {
            lemma_sum_prefix_push(ws@, w, i as int);
        }
        ws.push(w);
    }
    choose_index_by_weights(&ws)
}

/// What one symbol may render to: its fixed token, a weighted name or
/// operator of positive weight, or the digits of a number below the
/// configured limit; a non-terminal contributes nothing.
pub open spec fn chunk_ok(
    el: ExprElement,
    nt: Seq<(String, usize)>,
    ot: Seq<(char, usize)>,
    limit: nat,
    p: Seq<char>,
) -> bool {
    match el {
        ExprElement::FunctionName(a) => if a > 1 {
            p == seq!['f', 'u', 'n', 'c'] + dec_digits(a as nat)
        } else {
            exists|i: int| 0 <= i < nt.len() && (#[trigger] nt[i]).1 > 0 && p == nt[i].0@
        },
        ExprElement::Variable => p == seq!['x'],
        ExprElement::Number => exists|k: nat| k < limit && p == dec_digits(k),
        ExprElement::OpenParantheses => p == seq!['('],
        ExprElement::CloseParantheses => p == seq![')'],
        ExprElement::Comma => p == seq![',', ' '],
        ExprElement::Operator => exists|i: int|
            0 <= i < ot.len() && (#[trigger] ot[i]).1 > 0 && p == seq![' ', ot[i].0, ' '],
        _ => p == Seq::<char>::empty(),
    }
}

/// The rendering relation: the text is the in-order concatenation of
/// one chunk per symbol.
pub open spec fn rendering_of(
    syms: Seq<ExprElement>,
    nt: Seq<(String, usize)>,
    ot: Seq<(char, usize)>,
    limit: nat,
    text: Seq<char>,
) -> bool {
    exists|chunks: Seq<Seq<char>>|
        chunks.len() == syms.len() && text == chunks.flatten() && (forall|k: int|
            0 <= k < syms.len() ==> chunk_ok(syms[k], nt, ot, limit, #[trigger] chunks[k]))
}

/// The renderer: maps a rewritten sequence to text, symbol by symbol in
/// order. A weighted choice decides each operator character and the
/// name of each function of arity one or less, a function of higher
/// arity renders to a generic token carrying its arity, each `Number`
/// renders to a fresh random value below `number_limit`, and a symbol
/// still carrying a rewriting obligation contributes nothing. Fails
/// exactly when a needed name or operator table has total weight zero.
#[verifier::loop_isolation(false)]
pub fn render_terminals(
    vector: &Vec<ExprElement>,
    func_name_weight_table: &NameWeightTable,
    operator_weight_table: &OperatorWeightTable,
    number_limit: usize,
) -> (r: Result<String, GenError>)
    requires
        number_limit > 0,
        name_total(func_name_weight_table.entries@) <= usize::MAX,
        op_total(operator_weight_table.entries@) <= usize::MAX,
    ensures
        (r is Err) <==> ((needs_name(vector@) && name_total(func_name_weight_table.entries@) == 0)
            || (has_operator(vector@) && op_total(operator_weight_table.entries@) == 0)),
        r matches Err(e) ==> e == GenError::ZeroTotalWeight,
        r matches Ok(s) ==> (paren_free_tables(
            func_name_weight_table.entries@,
            operator_weight_table.entries@,
        ) ==> str_pe(s@) == pe(vector@) && str_min_pe(s@) >= min_pe(vector@)),
        r matches Ok(s) ==> rendering_of(
            vector@,
            func_name_weight_table.entries@,
            operator_weight_table.entries@,
            number_limit as nat,
            s@,
        ),
{
    let ghost nt = func_name_weight_table.entries@;
    let ghost ot = operator_weight_table.entries@;
    let ghost curv = vector@;
    let mut out: Vec<char> = Vec::new();
    let n = vector.len();
    let ghost mut chunks: Seq<Seq<char>> = Seq::empty();
    proof {
        assert(curv.take(0) =~= Seq::<ExprElement>::empty());
        assert(Seq::<Seq<char>>::empty().flatten() =~= Seq::<char>::empty());
    }
    for i in 0..n
        invariant
            chunks.len() == i,
            out@ == chunks.flatten(),
            forall|k: int|
                0 <= k < i ==> chunk_ok(curv[k], nt, ot, number_limit as nat, #[trigger] chunks[k]),
            name_total(nt) == 0 ==> (forall|j: int|
                0 <= j < i ==> !((#[trigger] curv[j]) matches ExprElement::FunctionName(a) && a
                    <= 1)),
            op_total(ot) == 0 ==> (forall|j: int| 0 <= j < i ==> !((#[trigger] curv[j]) is Operator)),
            paren_free_tables(nt, ot) ==> (str_pe(out@) == pe(curv.take(i as int)) && str_min_pe(
                out@,
            ) >= min_pe(curv.take(i as int))),
    {
        let el = vector[i];
        let ghost pre = out@;
        proof {
            assert(curv.take(i as int + 1) =~= curv.take(i as int) + seq![el]);
            crate::balance::lemma_pe_singleton(el);
            crate::balance::lemma_pe_concat(curv.take(i as int), seq![el]);
        }
        match el {
            ExprElement::FunctionName(args) => {
                if args > 1 {
                    out.push('f');
                    out.push('u');
                    out.push('n');
                    out.push('c');
                    let ghost mid = out@;
                    push_decimal(&mut out, args);
                    proof {
                        let chunk = seq!['f', 'u', 'n', 'c'] + dec_digits(args as nat);
                        assert(mid =~= pre + seq!['f', 'u', 'n', 'c']);
                        assert(out@ =~= pre + chunk);
                        chunks.lemma_flatten_push(chunk);
                        chunks = chunks.push(chunk);
                        if paren_free_tables(nt, ot) {
                            lemma_dec_digits_no_paren(args as nat);
                            assert forall|j: int| 0 <= j < chunk.len() implies char_pe(
                                #[trigger] chunk[j],
                            ) == 0 by {
                                if j >= 4 {
                                    assert(chunk[j] == dec_digits(args as nat)[j - 4]);
                                }
                            }
                            lemma_str_pe_no_paren(chunk);
                            lemma_str_pe_concat(pre, chunk);
                        }
                    }
                } else {
                    match choose_name_index(func_name_weight_table) {
                        Err(e) => {
                            proof {
                                assert(curv[i as int] matches ExprElement::FunctionName(a) && a
                                    <= 1);
                            }
                            return Err(e);
                        },
                        Ok(idx) => {
                            push_str_chars(
                                &mut out,
                                func_name_weight_table.entries[idx].0.as_str(),
                            );
                            proof {
                                let chunk = nt[idx as int].0@;
                                assert(out@ == pre + chunk);
                                chunks.lemma_flatten_push(chunk);
                                chunks = chunks.push(chunk);
                                if paren_free_tables(nt, ot) {
                                    assert(forall|j: int|
                                        0 <= j < chunk.len() ==> char_pe(#[trigger] chunk[j])
                                            == 0);
                                    lemma_str_pe_no_paren(chunk);
                                    lemma_str_pe_concat(pre, chunk);
                                }
                            }
                        },
                    }
                }
            },
            ExprElement::CloseParantheses => {
                out.push(')');
                proof {
                    assert(out@ =~= pre + seq![')']);
                    chunks.lemma_flatten_push(seq![')']);
                    chunks = chunks.push(seq![')']);
                    lemma_str_pe_singleton(')');
                    lemma_str_pe_concat(pre, seq![')']);
                }
            },
            ExprElement::Comma => {
                out.push(',');
                out.push(' ');
                proof {
                    let chunk = seq![',', ' '];
                    assert(out@ =~= pre + chunk);
                    chunks.lemma_flatten_push(chunk);
                    chunks = chunks.push(chunk);
                    if paren_free_tables(nt, ot) {
                        assert(forall|j: int| 0 <= j < chunk.len() ==> char_pe(#[trigger] chunk[j]) == 0);
                        lemma_str_pe_no_paren(chunk);
                        lemma_str_pe_concat(pre, chunk);
                    }
                }
            },
            ExprElement::Number => {
                let k = random_below(number_limit);
                push_decimal(&mut out, k);
                proof {
                    let chunk = dec_digits(k as nat);
                    assert(out@ == pre + chunk);
                    chunks.lemma_flatten_push(chunk);
                    chunks = chunks.push(chunk);
                    assert(chunk_ok(ExprElement::Number, nt, ot, number_limit as nat, chunk));
                    if paren_free_tables(nt, ot) {
                        lemma_dec_digits_no_paren(k as nat);
                        lemma_str_pe_no_paren(chunk);
                        lemma_str_pe_concat(pre, chunk);
                    }
                }
            },
            ExprElement::OpenParantheses => {
                out.push('(');
                proof {
                    assert(out@ =~= pre + seq!['(']);
                    chunks.lemma_flatten_push(seq!['(']);
                    chunks = chunks.push(seq!['(']);
                    lemma_str_pe_singleton('(');
                    lemma_str_pe_concat(pre, seq!['(']);
                }
            },
            ExprElement::Operator => {
                match choose_op_index(operator_weight_table) {
                    Err(e) => {
                        proof {
                            assert(curv[i as int] is Operator);
                        }
                        return Err(e);
                    },
                    Ok(idx) => {
                        out.push(' ');
                        let c = operator_weight_table.entries[idx].0;
                        out.push(c);
                        out.push(' ');
                        proof {
                            let chunk = seq![' ', c, ' '];
                            assert(out@ =~= pre + chunk);
                            chunks.lemma_flatten_push(chunk);
                            chunks = chunks.push(chunk);
                            assert(chunk_ok(ExprElement::Operator, nt, ot, number_limit as nat, chunk));
                            if paren_free_tables(nt, ot) {
                                assert(char_pe(c) == 0);
                                assert(forall|j: int|
                                    0 <= j < chunk.len() ==> char_pe(#[trigger] chunk[j]) == 0);
                                lemma_str_pe_no_paren(chunk);
                                lemma_str_pe_concat(pre, chunk);
                            }
                        }
                    },
                }
            },
            ExprElement::Variable => {
                out.push('x');
                proof {
                    let chunk = seq!['x'];
                    assert(out@ =~= pre + chunk);
                    chunks.lemma_flatten_push(chunk);
                    chunks = chunks.push(chunk);
                    if paren_free_tables(nt, ot) {
                        assert(forall|j: int| 0 <= j < chunk.len() ==> char_pe(#[trigger] chunk[j]) == 0);
                        lemma_str_pe_no_paren(chunk);
                        lemma_str_pe_concat(pre, chunk);
                    }
                }
            },
            _ => {
                proof {
                    assert(out@ == pre);
                    assert(sym_pe(el) == 0);
                    chunks.lemma_flatten_push(Seq::<char>::empty());
                    chunks = chunks.push(Seq::<char>::empty());
                    assert(out@ =~= chunks.flatten());
                }
            },
        }
    }
    proof {
        assert(curv.take(n as int) =~= curv);
        assert(chunks.len() == curv.len() && out@ == chunks.flatten() && (forall|k: int|
            0 <= k < curv.len() ==> chunk_ok(curv[k], nt, ot, number_limit as nat, #[trigger] chunks[k])));
        assert(rendering_of(curv, nt, ot, number_limit as nat, out@));
    }
    Ok(chars_to_string(&out))
}

/// One full generation: rewrites the seed to a terminal sequence, then
/// renders it. The output text is balanced whenever the seed is not
/// itself a lone parenthesis and no configured token carries one; under
/// a configuration whose argument rule cannot reintroduce an
/// `Operation`, with positive name and operator totals, generation is
/// guaranteed to succeed once the round ceiling exceeds the seed rank.
pub fn generate_expression(
    seed: ExprElement,
    start_weight_table: &WeightTable,
    arg_weight_table: &WeightTable,
    func_weight_table: &ArityWeightTable,
    func_name_weight_table: &NameWeightTable,
    operator_weight_table: &OperatorWeightTable,
    number_limit: usize,
    max_rounds: usize,
) -> (r: Result<String, GenError>)
    requires
        wf_element(seed),
        tables_fit(
            start_weight_table.entries@,
            arg_weight_table.entries@,
            func_weight_table.entries@,
        ),
        number_limit > 0,
        name_total(func_name_weight_table.entries@) <= usize::MAX,
        op_total(operator_weight_table.entries@) <= usize::MAX,
    ensures
        (!is_paren(seed) && paren_free_tables(
            func_name_weight_table.entries@,
            operator_weight_table.entries@,
        )) ==> (r matches Ok(s) ==> balanced_chars(s@)),
        forall|na: nat|
            (#[trigger] terminating_config(
                start_weight_table.entries@,
                arg_weight_table.entries@,
                func_weight_table.entries@,
                na,
            ) && arity_ok(seed, na) && measure(seed, na) < max_rounds && name_total(
                func_name_weight_table.entries@,
            ) > 0 && op_total(operator_weight_table.entries@) > 0) ==> r is Ok,
        r matches Ok(s) ==> exists|v: Seq<ExprElement>|
            crate::expand::derivable(
                seq![seed],
                v,
                start_weight_table.entries@,
                arg_weight_table.entries@,
                func_weight_table.entries@,
            ) && all_terminal(v) && #[trigger] rendering_of(
                v,
                func_name_weight_table.entries@,
                operator_weight_table.entries@,
                number_limit as nat,
                s@,
            ),
{
    match generate_symbols(
        seed,
        start_weight_table,
        arg_weight_table,
        func_weight_table,
        max_rounds,
    ) {
        Err(e) => Err(e),
        Ok(vector) => {
            let r = render_terminals(
                &vector,
                func_name_weight_table,
                operator_weight_table,
                number_limit,
            );
            proof {
                if r is Ok {
                    assert(rendering_of(
                        vector@,
                        func_name_weight_table.entries@,
                        operator_weight_table.entries@,
                        number_limit as nat,
                        r->Ok_0@,
                    ));
                }
            }
            r
        },
    }
}

} // verus!
