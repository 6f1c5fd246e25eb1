use std::rc::Rc;

use dcalc::ast::{FunctionTree, OpNode, OpValue, Piece};
use dcalc::derivatives;
use dcalc::functions::Functions;
use dcalc::tokenizer::SourceToken;

fn src(s: &str, column: usize) -> Rc<SourceToken<'_>> {
    Rc::new(SourceToken { string: s, column })
}

fn leaf<'a>(value: OpValue<'a>, column: usize, text: &'a str) -> Rc<OpNode<'a>> {
    Rc::new(OpNode { source: src(text, column), value })
}

fn var(name: &str, column: usize) -> Rc<OpNode<'_>> {
    leaf(OpValue::Variable(name), column, name)
}

fn num(n: &str, column: usize) -> Rc<OpNode<'_>> {
    leaf(OpValue::Number(n), column, n)
}

fn node<'a>(value: OpValue<'a>, column: usize, text: &'a str) -> Rc<OpNode<'a>> {
    leaf(value, column, text)
}

/// Writes pieces as text, numerals as written.
fn text(pieces: &[Piece]) -> String {
    pieces
        .iter()
        .map(|p| match p {
            Piece::Text(t) => t.to_string(),
            Piece::Number(n) => n.to_string(),
        })
        .collect()
}

fn linear(tree: &FunctionTree) -> String {
    text(&tree.display_pieces())
}

#[test]
fn derivative_of_the_variable_is_one() {
    let tree = FunctionTree { root: var("x", 1) };
    let d = derivatives::derive(&tree, "x");
    assert_eq!(linear(&d), "1");
    assert_eq!(d.root.source.column, 1);
}

#[test]
fn derivative_of_another_variable_and_of_a_number_is_zero() {
    let tree = FunctionTree { root: var("y", 1) };
    assert_eq!(linear(&derivatives::derive(&tree, "x")), "0");
    let tree = FunctionTree { root: num("3.5", 1) };
    assert_eq!(linear(&derivatives::derive(&tree, "x")), "0");
}

#[test]
fn sum_and_difference_rules() {
    let tree = FunctionTree {
        root: node(OpValue::Sub { left: node(OpValue::Add { left: var("x", 1), right: num("2", 3) }, 2, "+"), right: var("y", 5) }, 4, "-"),
    };
    assert_eq!(linear(&tree), "((x + 2) - y)");
    assert_eq!(linear(&derivatives::derive(&tree, "x")), "((1 + 0) - 0)");
}

#[test]
fn product_rule() {
    let tree = FunctionTree { root: node(OpValue::Mul { left: var("x", 1), right: var("x", 3) }, 2, "*") };
    let d = derivatives::derive(&tree, "x");
    assert_eq!(linear(&d), "((1 * x) + (x * 1))");
    assert_eq!(d.root.source.column, 2);
}

#[test]
fn quotient_rule() {
    let tree = FunctionTree { root: node(OpValue::Div { left: num("1", 1), right: var("x", 3) }, 2, "/") };
    assert_eq!(linear(&derivatives::derive(&tree, "x")), "(((0 * x) - (1 * 1)) / (x ^ 2))");
}

#[test]
fn power_with_a_constant_exponent() {
    let tree = FunctionTree { root: node(OpValue::Pow { left: var("x", 1), right: num("3", 3) }, 2, "^") };
    assert_eq!(linear(&derivatives::derive(&tree, "x")), "((3 * (x ^ (3 - 1))) * 1)");
}

#[test]
fn power_with_an_exponent_in_another_variable_is_treated_as_constant() {
    let tree = FunctionTree { root: node(OpValue::Pow { left: var("x", 1), right: var("n", 3) }, 2, "^") };
    assert_eq!(linear(&derivatives::derive(&tree, "x")), "((n * (x ^ (n - 1))) * 1)");
}

#[test]
fn power_with_a_constant_compound_exponent() {
    let exponent = node(OpValue::Add { left: num("2", 4), right: num("3", 6) }, 5, "+");
    let tree = FunctionTree { root: node(OpValue::Pow { left: var("x", 1), right: exponent }, 2, "^") };
    assert_eq!(
        linear(&derivatives::derive(&tree, "x")),
        "(((2 + 3) * (x ^ ((2 + 3) - 1))) * 1)"
    );
}

#[test]
fn power_with_a_variable_exponent() {
    let tree = FunctionTree { root: node(OpValue::Pow { left: num("6", 1), right: var("x", 3) }, 2, "^") };
    assert_eq!(
        linear(&derivatives::derive(&tree, "x")),
        "((e ^ (x * ln(6))) * ((1 * ln(6)) + (x * (0 / 6))))"
    );
}

#[test]
fn chain_rule_for_sine() {
    let tree = FunctionTree { root: node(OpValue::Function { func: Functions::Sin, arg: var("x", 5) }, 1, "sin") };
    assert_eq!(linear(&tree), "sin(x)");
    let d = derivatives::derive(&tree, "x");
    assert_eq!(linear(&d), "(cos(x) * 1)");
    // the product stands for the application's source token, its factors
    // for the argument's
    assert_eq!(d.root.source.column, 1);
    match &d.root.value {
        OpValue::Mul { left, right } => {
            assert_eq!(left.source.column, 5);
            assert_eq!(right.source.column, 5);
        }
        _ => panic!("the derivative of a sine is a product"),
    }

    let twice_x = node(OpValue::Mul { left: num("2", 5), right: var("x", 7) }, 6, "*");
    let tree = FunctionTree { root: node(OpValue::Function { func: Functions::Sin, arg: twice_x }, 1, "sin") };
    assert_eq!(linear(&derivatives::derive(&tree, "x")), "(cos((2 * x)) * ((0 * x) + (2 * 1)))");
}

#[test]
fn function_rules() {
    let cases = [
        (Functions::Cos, "((-1 * sin(x)) * 1)"),
        (Functions::Tan, "((sec(x) ^ 2) * 1)"),
        (Functions::Arcsin, "(1 / sqrt((1 - (x ^ 2))))"),
        (Functions::Arccos, "(-1 * (1 / sqrt((1 - (x ^ 2)))))"),
        (Functions::Arctan, "(1 / (1 + (x ^ 2)))"),
    ];
    for (func, expected) in cases.iter() {
        let tree = FunctionTree { root: node(OpValue::Function { func: *func, arg: var("x", 5) }, 1, "f") };
        let d = derivatives::derive(&tree, "x");
        assert_eq!(linear(&d), *expected);
        assert_eq!(d.root.source.column, 1);
    }
}

#[test]
fn debug_form_of_a_tree() {
    let tree = FunctionTree {
        root: node(OpValue::Add { left: var("x", 1), right: node(OpValue::Function { func: Functions::Cos, arg: num("2", 7) }, 3, "cos") }, 2, "+"),
    };
    assert_eq!(text(&tree.debug_pieces()), "+\n| |_ x\n| |_ cos()\n| | |_ 2");
    assert!(tree.root.value.height_below(3));
    assert!(!tree.root.value.height_below(2));
}

#[test]
fn numbers_display_as_pieces_to_be_formatted() {
    let tree = FunctionTree { root: node(OpValue::Mul { left: num("2.50", 1), right: var("x", 5) }, 4, "*") };
    assert_eq!(
        tree.display_pieces(),
        vec![Piece::Text("("), Piece::Number("2.50"), Piece::Text(" * "), Piece::Text("x"), Piece::Text(")")]
    );
}

fn columns(n: &OpNode, out: &mut Vec<usize>) {
    out.push(n.source.column);
    match &n.value {
        OpValue::Number(_) | OpValue::Variable(_) => {}
        OpValue::Add { left, right }
        | OpValue::Sub { left, right }
        | OpValue::Mul { left, right }
        | OpValue::Div { left, right }
        | OpValue::Pow { left, right } => {
            columns(left, out);
            columns(right, out);
        }
        OpValue::Function { arg, .. } => columns(arg, out),
    }
}

fn variable_names<'a>(n: &OpNode<'a>, out: &mut Vec<&'a str>) {
    match &n.value {
        OpValue::Number(_) => {}
        OpValue::Variable(name) => out.push(name),
        OpValue::Add { left, right }
        | OpValue::Sub { left, right }
        | OpValue::Mul { left, right }
        | OpValue::Div { left, right }
        | OpValue::Pow { left, right } => {
            variable_names(left, out);
            variable_names(right, out);
        }
        OpValue::Function { arg, .. } => variable_names(arg, out),
    }
}

fn sample_tree<'a>() -> FunctionTree<'a> {
    // atan(x) * y ^ x
    FunctionTree {
        root: node(
            OpValue::Mul {
                left: node(OpValue::Function { func: Functions::Arctan, arg: var("x", 6) }, 1, "atan"),
                right: node(OpValue::Pow { left: var("y", 11), right: var("x", 13) }, 12, "^"),
            },
            9,
            "*",
        ),
    }
}

#[test]
fn derivative_nodes_stand_for_source_tokens_of_the_tree() {
    let tree = sample_tree();
    let d = derivatives::derive(&tree, "x");
    let mut before = Vec::new();
    columns(&tree.root, &mut before);
    let mut after = Vec::new();
    columns(&d.root, &mut after);
    assert!(after.iter().all(|c| before.contains(c)));
    assert_eq!(d.root.source.column, tree.root.source.column);
}

#[test]
fn derivative_introduces_no_variable_but_e() {
    let tree = sample_tree();
    let d = derivatives::derive(&tree, "x");
    let mut before = Vec::new();
    variable_names(&tree.root, &mut before);
    let mut after = Vec::new();
    variable_names(&d.root, &mut after);
    assert!(after.iter().all(|v| before.contains(v) || *v == "e"));
    assert!(after.contains(&"e"));
}

#[test]
fn zero_derivative_only_for_constants() {
    let sum = FunctionTree { root: node(OpValue::Add { left: var("y", 1), right: var("z", 3) }, 2, "+") };
    let d = derivatives::derive(&sum, "x");
    // not the number zero, though the tree does not mention x
    assert_eq!(linear(&d), "(0 + 0)");
}
