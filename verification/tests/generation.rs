use expr_gen::ArityWeightTable;
use expr_gen::ExprElement;
use expr_gen::GenError;
use expr_gen::NameWeightTable;
use expr_gen::OperatorWeightTable;
use expr_gen::WeightTable;
use expr_gen::choose_argument;
use expr_gen::choose_from_list_by_weight_table;
use expr_gen::choose_function;
use expr_gen::choose_start;
use expr_gen::develop_expression;
use expr_gen::generate_expression;
use expr_gen::generate_symbols;
use expr_gen::render_terminals;
use expr_gen::render::push_decimal;
use expr_gen::weights::pick_by_weight;

fn sym_table(entries: Vec<(ExprElement, usize)>) -> WeightTable {
    WeightTable { entries }
}

fn arity_table(entries: Vec<(usize, usize)>) -> ArityWeightTable {
    ArityWeightTable { entries }
}

fn name_table(entries: Vec<(&str, usize)>) -> NameWeightTable {
    NameWeightTable {
        entries: entries.into_iter().map(|(s, w)| (s.to_string(), w)).collect(),
    }
}

fn op_table(entries: Vec<(char, usize)>) -> OperatorWeightTable {
    OperatorWeightTable { entries }
}

fn empty_sym_table() -> WeightTable {
    WeightTable { entries: Vec::new() }
}

#[test]
fn get_index_distinguishes_tags_only() {
    assert_eq!(ExprElement::FunctionName(4).get_index(), 0);
    assert_eq!(ExprElement::Variable.get_index(), 1);
    assert_eq!(ExprElement::Number.get_index(), 2);
    assert_eq!(ExprElement::OpenParantheses.get_index(), 3);
    assert_eq!(ExprElement::CloseParantheses.get_index(), 4);
    assert_eq!(ExprElement::Operation(7).get_index(), 5);
    assert_eq!(ExprElement::Operator.get_index(), 6);
    assert_eq!(ExprElement::Argument(1).get_index(), 7);
    assert_eq!(ExprElement::Function(0).get_index(), 8);
    assert_eq!(ExprElement::Arguments(2, 3).get_index(), 9);
    assert_eq!(ExprElement::Comma.get_index(), 10);
    assert_eq!(ExprElement::Parantheses(5).get_index(), 11);
    assert_eq!(ExprElement::FuncParantheses(1, 2).get_index(), 12);
    assert_eq!(ExprElement::Start(9).get_index(), 13);
}

#[test]
fn same_category_ignores_parameters() {
    assert!(ExprElement::Argument(3).same_category(&ExprElement::Argument(0)));
    assert!(ExprElement::FuncParantheses(1, 2).same_category(&ExprElement::FuncParantheses(9, 9)));
    assert!(!ExprElement::Argument(0).same_category(&ExprElement::Number));
}

#[test]
fn weight_lookup_goes_by_category() {
    let t = sym_table(vec![(ExprElement::Argument(0), 3), (ExprElement::Number, 7)]);
    assert_eq!(t.weight_for(&ExprElement::Argument(12)), 3);
    assert_eq!(t.weight_for(&ExprElement::Number), 7);
    assert_eq!(t.weight_for(&ExprElement::Variable), 0);
}

#[test]
fn pick_by_weight_exact_intervals() {
    let ws: Vec<usize> = vec![0, 2, 3];
    assert_eq!(pick_by_weight(&ws, 0), 1);
    assert_eq!(pick_by_weight(&ws, 1), 1);
    assert_eq!(pick_by_weight(&ws, 2), 2);
    assert_eq!(pick_by_weight(&ws, 4), 2);
}

#[test]
fn choose_fails_on_zero_total_weight() {
    let t = empty_sym_table();
    let choices = vec![ExprElement::Variable, ExprElement::Number];
    assert!(matches!(
        choose_from_list_by_weight_table(&t, &choices),
        Err(GenError::ZeroTotalWeight)
    ));
}

#[test]
fn choose_never_returns_zero_weight_category() {
    let t = sym_table(vec![(ExprElement::Variable, 0), (ExprElement::Number, 1)]);
    let choices = vec![ExprElement::Variable, ExprElement::Number];
    for _ in 0..50 {
        let got = choose_from_list_by_weight_table(&t, &choices).unwrap();
        assert!(matches!(got, ExprElement::Number));
    }
}

#[test]
fn choose_argument_at_depth_zero_is_terminal_only() {
    let t = sym_table(vec![
        (ExprElement::Variable, 1),
        (ExprElement::Number, 1),
        (ExprElement::Function(0), 1),
        (ExprElement::Operation(0), 1),
        (ExprElement::Parantheses(0), 1),
    ]);
    for _ in 0..50 {
        let v = choose_argument(&t, 0).unwrap();
        assert_eq!(v.len(), 1);
        assert!(matches!(v[0], ExprElement::Variable | ExprElement::Number));
    }
}

#[test]
fn choose_argument_keeps_depth_of_nested_choices() {
    let t = sym_table(vec![(ExprElement::Parantheses(0), 1)]);
    let v = choose_argument(&t, 4).unwrap();
    assert_eq!(v.len(), 1);
    assert!(matches!(v[0], ExprElement::Parantheses(4)));
}

#[test]
fn choose_function_pairs_name_and_parentheses() {
    let t = arity_table(vec![(2, 5)]);
    let v = choose_function(&t, 3).unwrap();
    assert_eq!(v.len(), 2);
    assert!(matches!(v[0], ExprElement::FunctionName(2)));
    assert!(matches!(v[1], ExprElement::FuncParantheses(3, 2)));
}

#[test]
fn choose_start_respects_weights() {
    let t = sym_table(vec![
        (ExprElement::Operation(0), 1),
        (ExprElement::Function(0), 0),
    ]);
    for _ in 0..20 {
        let v = choose_start(&t, 2).unwrap();
        assert_eq!(v.len(), 1);
        assert!(matches!(v[0], ExprElement::Operation(2)));
    }
}

#[test]
fn develop_terminals_stay() {
    let st = empty_sym_table();
    let at = empty_sym_table();
    let ft = arity_table(Vec::new());
    for el in [
        ExprElement::Variable,
        ExprElement::Number,
        ExprElement::Operator,
        ExprElement::Comma,
        ExprElement::OpenParantheses,
        ExprElement::CloseParantheses,
        ExprElement::FunctionName(1),
    ] {
        assert!(matches!(develop_expression(&el, &st, &at, &ft), Ok(None)));
    }
}

#[test]
fn develop_operation_is_two_arguments() {
    let st = empty_sym_table();
    let at = empty_sym_table();
    let ft = arity_table(Vec::new());
    let got = develop_expression(&ExprElement::Operation(2), &st, &at, &ft)
        .unwrap()
        .unwrap();
    assert_eq!(got.len(), 3);
    assert!(matches!(got[0], ExprElement::Argument(2)));
    assert!(matches!(got[1], ExprElement::Operator));
    assert!(matches!(got[2], ExprElement::Argument(2)));
}

#[test]
fn develop_arguments_is_comma_separated() {
    let st = empty_sym_table();
    let at = empty_sym_table();
    let ft = arity_table(Vec::new());
    let got = develop_expression(&ExprElement::Arguments(1, 3), &st, &at, &ft)
        .unwrap()
        .unwrap();
    assert_eq!(got.len(), 5);
    for (i, el) in got.iter().enumerate() {
        if i % 2 == 0 {
            assert!(matches!(el, ExprElement::Argument(1)));
        } else {
            assert!(matches!(el, ExprElement::Comma));
        }
    }
}

#[test]
fn develop_arguments_of_arity_zero_fails() {
    let st = empty_sym_table();
    let at = empty_sym_table();
    let ft = arity_table(Vec::new());
    assert!(matches!(
        develop_expression(&ExprElement::Arguments(1, 0), &st, &at, &ft),
        Err(GenError::InvalidArity)
    ));
}

#[test]
fn develop_parentheses_decrements_depth() {
    let st = empty_sym_table();
    let at = empty_sym_table();
    let ft = arity_table(Vec::new());
    let got = develop_expression(&ExprElement::Parantheses(2), &st, &at, &ft)
        .unwrap()
        .unwrap();
    assert_eq!(got.len(), 3);
    assert!(matches!(got[0], ExprElement::OpenParantheses));
    assert!(matches!(got[1], ExprElement::Operation(1)));
    assert!(matches!(got[2], ExprElement::CloseParantheses));

    let got = develop_expression(&ExprElement::FuncParantheses(0, 2), &st, &at, &ft)
        .unwrap()
        .unwrap();
    assert_eq!(got.len(), 3);
    assert!(matches!(got[0], ExprElement::OpenParantheses));
    assert!(matches!(got[1], ExprElement::Arguments(-1, 2)));
    assert!(matches!(got[2], ExprElement::CloseParantheses));
}

#[test]
fn develop_start_with_empty_table_fails() {
    let st = empty_sym_table();
    let at = empty_sym_table();
    let ft = arity_table(Vec::new());
    assert!(matches!(
        develop_expression(&ExprElement::Start(1), &st, &at, &ft),
        Err(GenError::ZeroTotalWeight)
    ));
}

#[test]
fn generate_symbols_reaches_terminals() {
    let st = sym_table(vec![
        (ExprElement::Function(0), 1),
        (ExprElement::Operation(0), 1),
    ]);
    let at = sym_table(vec![
        (ExprElement::Variable, 1),
        (ExprElement::Number, 1),
        (ExprElement::Function(0), 1),
        (ExprElement::Operation(0), 1),
        (ExprElement::Parantheses(0), 1),
    ]);
    let ft = arity_table(vec![(1, 1), (2, 1)]);
    let v = generate_symbols(ExprElement::Start(2), &st, &at, &ft, 100_000).unwrap();
    assert!(!v.is_empty());
    for el in v.iter() {
        assert!(el.get_index() <= 4 || el.get_index() == 6 || el.get_index() == 10);
    }
}

#[test]
fn generate_symbols_round_ceiling() {
    let st = empty_sym_table();
    let at = sym_table(vec![(ExprElement::Variable, 1)]);
    let ft = arity_table(Vec::new());
    assert!(matches!(
        generate_symbols(ExprElement::Argument(0), &st, &at, &ft, 0),
        Err(GenError::RoundLimitExceeded)
    ));
}

#[test]
fn render_needs_positive_operator_weight() {
    let seq = vec![ExprElement::Number, ExprElement::Operator, ExprElement::Number];
    let names = name_table(Vec::new());
    let ops = op_table(vec![('+', 0)]);
    assert!(matches!(
        render_terminals(&seq, &names, &ops, 100),
        Err(GenError::ZeroTotalWeight)
    ));
}

#[test]
fn render_needs_positive_name_weight() {
    let seq = vec![ExprElement::FunctionName(1)];
    let names = name_table(Vec::new());
    let ops = op_table(vec![('+', 1)]);
    assert!(matches!(
        render_terminals(&seq, &names, &ops, 100),
        Err(GenError::ZeroTotalWeight)
    ));
}

#[test]
fn render_wide_function_name_is_generic() {
    let seq = vec![ExprElement::FunctionName(3)];
    let names = name_table(Vec::new());
    let ops = op_table(Vec::new());
    assert_eq!(render_terminals(&seq, &names, &ops, 100).unwrap(), "func3");
}

#[test]
fn decimal_rendering_is_exact() {
    let mut out: Vec<char> = Vec::new();
    push_decimal(&mut out, 0);
    assert_eq!(out.iter().collect::<String>(), "0");
    let mut out: Vec<char> = Vec::new();
    push_decimal(&mut out, 105);
    assert_eq!(out.iter().collect::<String>(), "105");
}

#[test]
fn variable_only_argument_renders_x() {
    let st = empty_sym_table();
    let at = sym_table(vec![(ExprElement::Variable, 1)]);
    let ft = arity_table(Vec::new());
    let names = name_table(Vec::new());
    let ops = op_table(Vec::new());
    let s = generate_expression(
        ExprElement::Argument(0),
        &st,
        &at,
        &ft,
        &names,
        &ops,
        100,
        10,
    )
    .unwrap();
    assert_eq!(s, "x");
}

#[test]
fn number_operation_renders_sum_pattern() {
    let st = empty_sym_table();
    let at = sym_table(vec![(ExprElement::Number, 1)]);
    let ft = arity_table(Vec::new());
    let names = name_table(Vec::new());
    let ops = op_table(vec![('+', 1)]);
    let s = generate_expression(
        ExprElement::Operation(0),
        &st,
        &at,
        &ft,
        &names,
        &ops,
        100,
        10,
    )
    .unwrap();
    let parts: Vec<&str> = s.split(" + ").collect();
    assert_eq!(parts.len(), 2);
    for p in parts {
        let v: usize = p.parse().unwrap();
        assert!(v < 100);
    }
}

#[test]
fn parenthesised_product_renders_nested() {
    let st = empty_sym_table();
    let at = sym_table(vec![(ExprElement::Number, 1)]);
    let ft = arity_table(Vec::new());
    let names = name_table(Vec::new());
    let ops = op_table(vec![('*', 1)]);
    let s = generate_expression(
        ExprElement::Parantheses(1),
        &st,
        &at,
        &ft,
        &names,
        &ops,
        100,
        10,
    )
    .unwrap();
    assert!(s.starts_with('('));
    assert!(s.ends_with(')'));
    let inner = &s[1..s.len() - 1];
    let parts: Vec<&str> = inner.split(" * ").collect();
    assert_eq!(parts.len(), 2);
    for p in parts {
        let v: usize = p.parse().unwrap();
        assert!(v < 100);
    }
}

#[test]
fn unary_function_call_renders_name_and_argument() {
    let st = empty_sym_table();
    let at = sym_table(vec![(ExprElement::Number, 1)]);
    let ft = arity_table(vec![(1, 1)]);
    let names = name_table(vec![("sin", 1)]);
    let ops = op_table(Vec::new());
    let s = generate_expression(
        ExprElement::Function(0),
        &st,
        &at,
        &ft,
        &names,
        &ops,
        100,
        10,
    )
    .unwrap();
    assert!(s.starts_with("sin("));
    assert!(s.ends_with(')'));
    let inner = &s[4..s.len() - 1];
    let v: usize = inner.parse().unwrap();
    assert!(v < 100);
}

#[test]
fn generated_text_has_balanced_parentheses() {
    let st = sym_table(vec![
        (ExprElement::Function(0), 1),
        (ExprElement::Operation(0), 1),
    ]);
    let at = sym_table(vec![
        (ExprElement::Variable, 1),
        (ExprElement::Number, 1),
        (ExprElement::Function(0), 1),
        (ExprElement::Operation(0), 1),
        (ExprElement::Parantheses(0), 1),
    ]);
    let ft = arity_table(vec![(1, 1), (2, 2)]);
    let names = name_table(vec![("sin", 1), ("cos", 1), ("tan", 1)]);
    let ops = op_table(vec![('+', 1), ('-', 1), ('/', 1), ('*', 1), ('^', 1)]);
    for _ in 0..20 {
        let s = generate_expression(
            ExprElement::Start(3),
            &st,
            &at,
            &ft,
            &names,
            &ops,
            100,
            100_000,
        )
        .unwrap();
        let mut depth: i64 = 0;
        for c in s.chars() {
            if c == '(' {
                depth += 1;
            } else if c == ')' {
                depth -= 1;
            }
            assert!(depth >= 0);
        }
        assert_eq!(depth, 0);
    }
}

#[test]
fn weight_lookup_first_entry_wins() {
    let t = sym_table(vec![(ExprElement::Variable, 2), (ExprElement::Variable, 5)]);
    assert_eq!(t.weight_for(&ExprElement::Variable), 2);
}

#[test]
fn repeated_candidates_each_carry_their_category_weight() {
    let t = sym_table(vec![(ExprElement::Variable, 1)]);
    let choices = vec![ExprElement::Variable, ExprElement::Variable];
    let got = choose_from_list_by_weight_table(&t, &choices).unwrap();
    assert!(matches!(got, ExprElement::Variable));
}
