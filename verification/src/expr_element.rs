use vstd::prelude::*;

use crate::weights::ArityWeightTable;
use crate::weights::GenError;
use crate::weights::WeightTable;
use crate::weights::arity_total;
use crate::weights::arity_weights_sum;
use crate::weights::cat_weight;
use crate::weights::choose_from_list_by_weight_table;
use crate::weights::choose_index_by_weights;
use crate::weights::lemma_sum_prefix_push;
use crate::weights::sum_prefix;
use crate::weights::total_choices_weight;

verus! {

/// One element of the grammar alphabet: terminal symbols are rendered
/// directly, non-terminal symbols are rewritten by the production rules.
/// The integer carried by most non-terminals is the remaining depth
/// budget; `Arguments` and `FuncParantheses` also carry a call arity.
#[derive(Debug, Clone, Copy)]
pub enum ExprElement {
    FunctionName(usize),
    Variable,
    Number,
    OpenParantheses,
    CloseParantheses,
    Operation(i64),
    Operator,
    Argument(i64),
    Function(i64),
    Arguments(i64, usize),
    Comma,
    Parantheses(i64),
    FuncParantheses(i64, usize),
    Start(i64),
}

/// The weight category of a symbol: two symbols share a category exactly
/// when their tags match, whatever their depth or arity parameters are.
/// Weight tables are keyed by this projection, never by full structural
/// equality.
pub open spec fn category(e: ExprElement) -> int {
    match e {
        ExprElement::FunctionName(_) => 0,
        ExprElement::Variable => 1,
        ExprElement::Number => 2,
        ExprElement::OpenParantheses => 3,
        ExprElement::CloseParantheses => 4,
        ExprElement::Operation(_) => 5,
        ExprElement::Operator => 6,
        ExprElement::Argument(_) => 7,
        ExprElement::Function(_) => 8,
        ExprElement::Arguments(_, _) => 9,
        ExprElement::Comma => 10,
        ExprElement::Parantheses(_) => 11,
        ExprElement::FuncParantheses(_, _) => 12,
        ExprElement::Start(_) => 13,
    }
}

impl ExprElement {
    /// The executable form of `category`.
    pub fn get_index(&self) -> (r: usize)
        ensures
            r == category(*self),
    {
        match *self {
            ExprElement::FunctionName(_) => 0,
            ExprElement::Variable => 1,
            ExprElement::Number => 2,
            ExprElement::OpenParantheses => 3,
            ExprElement::CloseParantheses => 4,
            ExprElement::Operation(_) => 5,
            ExprElement::Operator => 6,
            ExprElement::Argument(_) => 7,
            ExprElement::Function(_) => 8,
            ExprElement::Arguments(_, _) => 9,
            ExprElement::Comma => 10,
            ExprElement::Parantheses(_) => 11,
            ExprElement::FuncParantheses(_, _) => 12,
            ExprElement::Start(_) => 13,
        }
    }

    /// Category equality: the relation under which weight tables look
    /// symbols up, ignoring depth and arity parameters.
    pub fn same_category(&self, other: &ExprElement) -> (r: bool)
        ensures
            r == (category(*self) == category(*other)),
    {
        self.get_index() == other.get_index()
    }
}

/// A terminal symbol carries no rewriting obligation.
pub open spec fn is_terminal(e: ExprElement) -> bool {
    match e {
        ExprElement::FunctionName(_) => true,
        ExprElement::Variable => true,
        ExprElement::Number => true,
        ExprElement::OpenParantheses => true,
        ExprElement::CloseParantheses => true,
        ExprElement::Operator => true,
        ExprElement::Comma => true,
        _ => false,
    }
}

/// A symbol whose expansion stays within machine bounds: the variants
/// that decrement a depth, or hand their depth to one that does, keep it
/// above the smallest representable value.
pub open spec fn wf_element(e: ExprElement) -> bool {
    match e {
        ExprElement::Parantheses(d) => d > i64::MIN,
        ExprElement::FuncParantheses(d, _) => d > i64::MIN,
        ExprElement::Function(d) => d > i64::MIN,
        ExprElement::Start(d) => d > i64::MIN,
        _ => true,
    }
}

/// The candidates an `Argument` chooses from: at positive depth the full
/// set, at depth zero or below only the two terminal choices — the
/// termination guard of the grammar.
pub open spec fn arg_candidates(depth: i64) -> Seq<ExprElement> {
    if depth > 0 {
        seq![
            ExprElement::Variable,
            ExprElement::Number,
            ExprElement::Function(depth),
            ExprElement::Operation(depth),
            ExprElement::Parantheses(depth),
        ]
    } else {
        seq![ExprElement::Variable, ExprElement::Number]
    }
}

/// The candidates a `Start` chooses from.
pub open spec fn start_candidates(depth: i64) -> Seq<ExprElement> {
    seq![ExprElement::Operation(depth), ExprElement::Function(depth)]
}

/// What a successful argument choice looks like: a candidate of the set
/// for `depth`, of positive weight; at depth zero or below only
/// `Variable` or `Number`.
pub open spec fn chosen_argument(t: Seq<(ExprElement, usize)>, depth: i64, s: ExprElement) -> bool {
    &&& cat_weight(t, category(s)) > 0
    &&& if depth > 0 {
        ||| s == ExprElement::Variable
        ||| s == ExprElement::Number
        ||| s == ExprElement::Function(depth)
        ||| s == ExprElement::Operation(depth)
        ||| s == ExprElement::Parantheses(depth)
    } else {
        s == ExprElement::Variable || s == ExprElement::Number
    }
}

/// What a successful start choice looks like.
pub open spec fn chosen_start(t: Seq<(ExprElement, usize)>, depth: i64, s: ExprElement) -> bool {
    &&& cat_weight(t, category(s)) > 0
    &&& (s == ExprElement::Operation(depth) || s == ExprElement::Function(depth))
}

/// The one-step expansion of an `Argument`: a single weighted choice,
/// restricted to the terminal candidates once the depth budget is spent.
pub fn choose_argument(weight_table: &WeightTable, depth: i64) -> (r: Result<
    Vec<ExprElement>,
    GenError,
>)
    requires
        total_choices_weight(weight_table.entries@, arg_candidates(depth)) <= usize::MAX,
    ensures
        (r is Err) <==> total_choices_weight(weight_table.entries@, arg_candidates(depth)) == 0,
        r matches Err(e) ==> e == GenError::ZeroTotalWeight,
        r matches Ok(v) ==> v@.len() == 1 && chosen_argument(weight_table.entries@, depth, v@[0]),
{
    let mut argument_subjects: Vec<ExprElement> = Vec::new();
    argument_subjects.push(ExprElement::Variable);
    argument_subjects.push(ExprElement::Number);
    if depth > 0 {
        argument_subjects.push(ExprElement::Function(depth));
        argument_subjects.push(ExprElement::Operation(depth));
        argument_subjects.push(ExprElement::Parantheses(depth));
    }
    proof {
        assert(argument_subjects@ =~= arg_candidates(depth));
    }
    match choose_from_list_by_weight_table(weight_table, &argument_subjects) {
        Err(e) => Err(e),
        Ok(el) => {
            let mut v: Vec<ExprElement> = Vec::new();
            v.push(el);
            Ok(v)
        },
    }
}

/// The one-step expansion of a `Start`: a weighted choice between an
/// operation and a function call at the seed depth.
pub fn choose_start(weight_table: &WeightTable, depth: i64) -> (r: Result<Vec<ExprElement>, GenError>)
    requires
        total_choices_weight(weight_table.entries@, start_candidates(depth)) <= usize::MAX,
    ensures
        (r is Err) <==> total_choices_weight(weight_table.entries@, start_candidates(depth)) == 0,
        r matches Err(e) ==> e == GenError::ZeroTotalWeight,
        r matches Ok(v) ==> v@.len() == 1 && chosen_start(weight_table.entries@, depth, v@[0]),
{
    let mut start_subjects: Vec<ExprElement> = Vec::new();
    start_subjects.push(ExprElement::Operation(depth));
    start_subjects.push(ExprElement::Function(depth));
    proof {
        assert(start_subjects@ =~= start_candidates(depth));
    }
    match choose_from_list_by_weight_table(weight_table, &start_subjects) {
        Err(e) => Err(e),
        Ok(el) => {
            let mut v: Vec<ExprElement> = Vec::new();
            v.push(el);
            Ok(v)
        },
    }
}

/// The one-step expansion of a `Function`: a weighted choice of an arity
/// from the arity table, producing the function-name terminal and the
/// parenthesised argument list that still has to be expanded.
pub fn choose_function(weight_table: &ArityWeightTable, depth: i64) -> (r: Result<
    Vec<ExprElement>,
    GenError,
>)
    requires
        arity_total(weight_table.entries@) <= usize::MAX,
    ensures
        (r is Err) <==> arity_total(weight_table.entries@) == 0,
        r matches Err(e) ==> e == GenError::ZeroTotalWeight,
        r matches Ok(v) ==> v@.len() == 2 && (exists|i: int|
            0 <= i < weight_table.entries@.len() && weight_table.entries@[i].1 > 0 && v@[0]
                == ExprElement::FunctionName(weight_table.entries@[i].0) && v@[1]
                == ExprElement::FuncParantheses(depth, weight_table.entries@[i].0)),
{
    let ghost t = weight_table.entries@;
    let n = weight_table.entries.len();
    let mut ws: Vec<usize> = Vec::new();
    for i in 0..n
        invariant
            n == t.len(),
            t == weight_table.entries@,
            ws@.len() == i,
            forall|j: int| 0 <= j < i ==> ws@[j] == t[j].1,
            sum_prefix(ws@, i as int) == arity_weights_sum(t, i as int),
    {
        let w = weight_table.entries[i].1;
        proof {
            lemma_sum_prefix_push(ws@, w, i as int);
        }
        ws.push(w);
    }
    match choose_index_by_weights(&ws) {
        Err(e) => Err(e),
        Ok(idx) => {
            let arity = weight_table.entries[idx].0;
            let mut v: Vec<ExprElement> = Vec::new();
            v.push(ExprElement::FunctionName(arity));
            v.push(ExprElement::FuncParantheses(depth, arity));
            proof {
                assert(ws@[idx as int] == t[idx as int].1);
            }
            Ok(v)
        },
    }
}

} // verus!
