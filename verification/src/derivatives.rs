//! The rules of derivation, applied to function trees.

use std::rc::Rc;
use vstd::prelude::*;

use crate::ast::{FunctionTree, OpNode, OpValue};
use crate::functions::Functions;
use crate::text::same_text;
use crate::tokenizer::SourceToken;

verus! {

/// A node with the given operation that stands for the same source token as `at`.
pub open spec fn node_at<'a>(at: OpNode<'a>, value: OpValue<'a>) -> OpNode<'a> {
    OpNode { source: at.source, value }
}

/// A number node that stands for the same source token as `at`.
pub open spec fn number_at<'a>(at: OpNode<'a>, numeral: &'a str) -> OpNode<'a> {
    node_at(at, OpValue::Number(numeral))
}

pub open spec fn add_of<'a>(left: OpNode<'a>, right: OpNode<'a>) -> OpValue<'a> {
    OpValue::Add { left: Rc::new(left), right: Rc::new(right) }
}

pub open spec fn sub_of<'a>(left: OpNode<'a>, right: OpNode<'a>) -> OpValue<'a> {
    OpValue::Sub { left: Rc::new(left), right: Rc::new(right) }
}

pub open spec fn mul_of<'a>(left: OpNode<'a>, right: OpNode<'a>) -> OpValue<'a> {
    OpValue::Mul { left: Rc::new(left), right: Rc::new(right) }
}

pub open spec fn div_of<'a>(left: OpNode<'a>, right: OpNode<'a>) -> OpValue<'a> {
    OpValue::Div { left: Rc::new(left), right: Rc::new(right) }
}

pub open spec fn pow_of<'a>(left: OpNode<'a>, right: OpNode<'a>) -> OpValue<'a> {
    OpValue::Pow { left: Rc::new(left), right: Rc::new(right) }
}

pub open spec fn apply_of<'a>(func: Functions, arg: OpNode<'a>) -> OpValue<'a> {
    OpValue::Function { func, arg: Rc::new(arg) }
}

/// The derivative rules are defined for every function but the square root,
/// the natural logarithm and the secant.
pub open spec fn has_derivative_rule(func: Functions) -> bool {
    !(func == Functions::SquareRoot || func == Functions::NaturalLog || func == Functions::Secant)
}

/// A tree can be derived when every function it applies has a derivative rule.
pub open spec fn derivable<'a>(n: OpNode<'a>) -> bool
    decreases n,
{
    match n.value {
        OpValue::Number(_) => true,
        OpValue::Variable(_) => true,
        OpValue::Add { left, right } => derivable(*left) && derivable(*right),
        OpValue::Sub { left, right } => derivable(*left) && derivable(*right),
        OpValue::Mul { left, right } => derivable(*left) && derivable(*right),
        OpValue::Div { left, right } => derivable(*left) && derivable(*right),
        OpValue::Pow { left, right } => derivable(*left) && derivable(*right),
        OpValue::Function { func, arg } => has_derivative_rule(func) && derivable(*arg),
    }
}

/// A node is the number zero (as the rules write it).
pub open spec fn is_zero_number<'a>(n: OpNode<'a>) -> bool {
    n.value matches OpValue::Number(numeral) && numeral@ == "0"@
}

/// The derivative of `n` with respect to the variable named `dvar`.
///
/// Every node of the result stands for the source token of the node whose
/// rule produced it.
pub open spec fn derivative<'a>(n: OpNode<'a>, dvar: Seq<char>) -> OpNode<'a>
    decreases n, 0nat,
{
    match n.value {
        // f(x) = n, f'(x) = 0
        OpValue::Number(_) => number_at(n, "0"),
        // f(x) = a(x) + b(x), f'(x) = a'(x) + b'(x)
        OpValue::Add { left, right } => node_at(
            n,
            add_of(derivative(*left, dvar), derivative(*right, dvar)),
        ),
        // f(x) = a(x) - b(x), f'(x) = a'(x) - b'(x)
        OpValue::Sub { left, right } => node_at(
            n,
            sub_of(derivative(*left, dvar), derivative(*right, dvar)),
        ),
        // f(x) = a(x) * b(x), f'(x) = a'(x) * b(x) + a(x) * b'(x)
        OpValue::Mul { left, right } => node_at(
            n,
            add_of(
                node_at(n, mul_of(derivative(*left, dvar), *right)),
                node_at(n, mul_of(*left, derivative(*right, dvar))),
            ),
        ),
        // f(x) = a(x) / b(x), f'(x) = (a'(x) * b(x) - a(x) * b'(x)) / b(x)^2
        OpValue::Div { left, right } => node_at(
            n,
            div_of(
                node_at(
                    n,
                    sub_of(
                        node_at(n, mul_of(derivative(*left, dvar), *right)),
                        node_at(n, mul_of(*left, derivative(*right, dvar))),
                    ),
                ),
                node_at(n, pow_of(*right, number_at(n, "2"))),
            ),
        ),
        // f(x) = x, f'(x) = 1; any other variable is a constant
        OpValue::Variable(name) => if name@ == dvar {
            number_at(n, "1")
        } else {
            number_at(n, "0")
        },
        // f(x) = F(a(x)), f'(x) = F'(a(x)) * a'(x), as the rule for F gives it,
        // standing for the source token of the application
        OpValue::Function { func, arg } => node_at(n, function_derivative(func, *arg, dvar).value),
        OpValue::Pow { left, right } => if !mentions(*right, dvar) {
            // a constant exponent b: b * a(x) ^ (b - 1) * a'(x)
            node_at(
                n,
                mul_of(
                    node_at(
                        n,
                        mul_of(
                            *right,
                            node_at(
                                n,
                                pow_of(*left, node_at(n, sub_of(*right, number_at(n, "1")))),
                            ),
                        ),
                    ),
                    derivative(*left, dvar),
                ),
            )
        } else {
            // an exponent b(x) that depends on the variable:
            // e ^ (b(x) * ln(a(x))) * (b'(x) * ln(a(x)) + b(x) * a'(x) / a(x))
            node_at(
                n,
                mul_of(
                    node_at(
                        n,
                        pow_of(
                            node_at(n, OpValue::Variable("e")),
                            node_at(
                                n,
                                mul_of(*right, node_at(n, apply_of(Functions::NaturalLog, *left))),
                            ),
                        ),
                    ),
                    node_at(
                        n,
                        add_of(
                            node_at(
                                n,
                                mul_of(
                                    derivative(*right, dvar),
                                    node_at(n, apply_of(Functions::NaturalLog, *left)),
                                ),
                            ),
                            node_at(
                                n,
                                mul_of(
                                    *right,
                                    node_at(n, div_of(derivative(*left, dvar), *left)),
                                ),
                            ),
                        ),
                    ),
                ),
            )
        },
    }
}

/// `1 - a(x)^2`, with the source of `a`.
pub open spec fn one_minus_square<'a>(arg: OpNode<'a>) -> OpNode<'a> {
    node_at(
        arg,
        sub_of(number_at(arg, "1"), node_at(arg, pow_of(arg, number_at(arg, "2")))),
    )
}

/// The derivative of `func` applied to `arg` by the chain rule: the
/// derivative of the function at the argument times the derivative of the
/// argument (for `sin`, `cos(a(x)) * a'(x)`). Every node stands for the source
/// token of `arg`; `derivative` takes the operation at the root of this tree
/// and places it at the application's own source token.
pub open spec fn function_derivative<'a>(
    func: Functions,
    arg: OpNode<'a>,
    dvar: Seq<char>,
) -> OpNode<'a>
    decreases arg, 1nat,
{
    match func {
        // sin(a(x))' = cos(a(x)) * a'(x)
        Functions::Sin => node_at(
            arg,
            mul_of(node_at(arg, apply_of(Functions::Cos, arg)), derivative(arg, dvar)),
        ),
        // cos(a(x))' = (-1 * sin(a(x))) * a'(x)
        Functions::Cos => node_at(
            arg,
            mul_of(
                node_at(
                    arg,
                    mul_of(number_at(arg, "-1"), node_at(arg, apply_of(Functions::Sin, arg))),
                ),
                derivative(arg, dvar),
            ),
        ),
        // tan(a(x))' = sec(a(x))^2 * a'(x)
        Functions::Tan => node_at(
            arg,
            mul_of(
                node_at(
                    arg,
                    pow_of(node_at(arg, apply_of(Functions::Secant, arg)), number_at(arg, "2")),
                ),
                derivative(arg, dvar),
            ),
        ),
        // asin(a(x))' = a'(x) / sqrt(1 - a(x)^2)
        Functions::Arcsin => node_at(
            arg,
            div_of(
                derivative(arg, dvar),
                node_at(arg, apply_of(Functions::SquareRoot, one_minus_square(arg))),
            ),
        ),
        // acos(a(x))' = -1 * (a'(x) / sqrt(1 - a(x)^2))
        Functions::Arccos => node_at(
            arg,
            mul_of(
                number_at(arg, "-1"),
                node_at(
                    arg,
                    div_of(
                        derivative(arg, dvar),
                        node_at(arg, apply_of(Functions::SquareRoot, one_minus_square(arg))),
                    ),
                ),
            ),
        ),
        // atan(a(x))' = a'(x) / (1 + a(x)^2)
        Functions::Arctan => node_at(
            arg,
            div_of(
                derivative(arg, dvar),
                node_at(
                    arg,
                    add_of(number_at(arg, "1"), node_at(arg, pow_of(arg, number_at(arg, "2")))),
                ),
            ),
        ),
        // no rule: the derivation of these is left out by `derivable`
        _ => arg,
    }
}

/// A new node with the operation `value` and the source token of `at`.
fn node_at_exec<'a>(at: &OpNode<'a>, value: OpValue<'a>) -> (res: Rc<OpNode<'a>>)
    ensures
        *res == node_at(*at, value),
{
    Rc::new(OpNode { source: Rc::clone(&at.source), value })
}

/// A new number node with the source token of `at`.
fn number_exec<'a>(at: &OpNode<'a>, numeral: &'a str) -> (res: Rc<OpNode<'a>>)
    ensures
        *res == number_at(*at, numeral),
{
    node_at_exec(at, OpValue::Number(numeral))
}

/// Whether the variable named `dvar` occurs in the tree.
fn mentions_exec<'a>(node: &OpNode<'a>, dvar: &str) -> (res: bool)
    ensures
        res == mentions(*node, dvar@),
    decreases node,
{
    match &node.value {
        OpValue::Number(_) => false,
        OpValue::Variable(name) => same_text(name, dvar),
        OpValue::Add { left, right } => mentions_exec(left, dvar) || mentions_exec(right, dvar),
        OpValue::Sub { left, right } => mentions_exec(left, dvar) || mentions_exec(right, dvar),
        OpValue::Mul { left, right } => mentions_exec(left, dvar) || mentions_exec(right, dvar),
        OpValue::Div { left, right } => mentions_exec(left, dvar) || mentions_exec(right, dvar),
        OpValue::Pow { left, right } => mentions_exec(left, dvar) || mentions_exec(right, dvar),
        OpValue::Function { arg, .. } => mentions_exec(arg, dvar),
    }
}

fn derive_node<'a>(node: &OpNode<'a>, dvar: &'a str) -> (res: Rc<OpNode<'a>>)
    requires
        derivable(*node),
    ensures
        *res == derivative(*node, dvar@),
    decreases node, 0nat,
{
    match &node.value {
        OpValue::Number(_) => number_exec(node, "0"),
        OpValue::Add { left, right } => {
            let dl = derive_node(left, dvar);
            let dr = derive_node(right, dvar);
            node_at_exec(node, OpValue::Add { left: dl, right: dr })
        },
        OpValue::Sub { left, right } => {
            let dl = derive_node(left, dvar);
            let dr = derive_node(right, dvar);
            node_at_exec(node, OpValue::Sub { left: dl, right: dr })
        },
        OpValue::Mul { left, right } => {
            let a = node_at_exec(
                node,
                OpValue::Mul { left: derive_node(left, dvar), right: Rc::clone(right) },
            );
            let b = node_at_exec(
                node,
                OpValue::Mul { left: Rc::clone(left), right: derive_node(right, dvar) },
            );
            node_at_exec(node, OpValue::Add { left: a, right: b })
        },
        OpValue::Div { left, right } => {
            let a = node_at_exec(
                node,
                OpValue::Mul { left: derive_node(left, dvar), right: Rc::clone(right) },
            );
            let b = node_at_exec(
                node,
                OpValue::Mul { left: Rc::clone(left), right: derive_node(right, dvar) },
            );
            let numerator = node_at_exec(node, OpValue::Sub { left: a, right: b });
            let denominator = node_at_exec(
                node,
                OpValue::Pow { left: Rc::clone(right), right: number_exec(node, "2") },
            );
            node_at_exec(node, OpValue::Div { left: numerator, right: denominator })
        },
        OpValue::Variable(name) => {
            if same_text(name, dvar) {
                number_exec(node, "1")
            } else {
                number_exec(node, "0")
            }
        },
        OpValue::Function { func, arg } => node_at_exec(
            node,
            derive_function(*func, Rc::clone(arg), dvar),
        ),
        OpValue::Pow { left, right } => {
            if !mentions_exec(right, dvar) {
                // the exponent is constant: a regular power
                let exponent = node_at_exec(
                    node,
                    OpValue::Sub { left: Rc::clone(right), right: number_exec(node, "1") },
                );
                let power = node_at_exec(node, OpValue::Pow { left: Rc::clone(left), right: exponent });
                let scaled = node_at_exec(node, OpValue::Mul { left: Rc::clone(right), right: power });
                node_at_exec(node, OpValue::Mul { left: scaled, right: derive_node(left, dvar) })
            } else {
                // the exponent depends on the variable: an exponentiation
                let ln_a = node_at_exec(
                    node,
                    OpValue::Function { func: Functions::NaturalLog, arg: Rc::clone(left) },
                );
                let e = node_at_exec(node, OpValue::Variable("e"));
                let exponent = node_at_exec(
                    node,
                    OpValue::Mul { left: Rc::clone(right), right: ln_a },
                );
                let power = node_at_exec(node, OpValue::Pow { left: e, right: exponent });
                let ln_a2 = node_at_exec(
                    node,
                    OpValue::Function { func: Functions::NaturalLog, arg: Rc::clone(left) },
                );
                let first = node_at_exec(
                    node,
                    OpValue::Mul { left: derive_node(right, dvar), right: ln_a2 },
                );
                let quotient = node_at_exec(
                    node,
                    OpValue::Div { left: derive_node(left, dvar), right: Rc::clone(left) },
                );
                let second = node_at_exec(
                    node,
                    OpValue::Mul { left: Rc::clone(right), right: quotient },
                );
                let sum = node_at_exec(node, OpValue::Add { left: first, right: second });
                node_at_exec(node, OpValue::Mul { left: power, right: sum })
            }
        },
    }
}

/// `1 - a(x)^2` with the source token of `arg`.
fn one_minus_square_exec<'a>(arg: &Rc<OpNode<'a>>) -> (res: Rc<OpNode<'a>>)
    ensures
        *res == one_minus_square(**arg),
{
    let square = node_at_exec(
        arg,
        OpValue::Pow { left: Rc::clone(arg), right: number_exec(arg, "2") },
    );
    node_at_exec(arg, OpValue::Sub { left: number_exec(arg, "1"), right: square })
}

/// The operation at the root of the rule for `func` at `arg`; the nodes below
/// it stand for the source token of `arg`.
fn derive_function<'a>(func: Functions, arg: Rc<OpNode<'a>>, dvar: &'a str) -> (res: OpValue<'a>)
    requires
        has_derivative_rule(func),
        derivable(*arg),
    ensures
        res == function_derivative(func, *arg, dvar@).value,
    decreases arg, 1nat,
{
    match func {
        Functions::Sin => {
            let cos = node_at_exec(
                &arg,
                OpValue::Function { func: Functions::Cos, arg: Rc::clone(&arg) },
            );
            OpValue::Mul { left: cos, right: derive_node(&arg, dvar) }
        },
        Functions::Cos => {
            let sin = node_at_exec(
                &arg,
                OpValue::Function { func: Functions::Sin, arg: Rc::clone(&arg) },
            );
            let minus_sin = node_at_exec(
                &arg,
                OpValue::Mul { left: number_exec(&arg, "-1"), right: sin },
            );
            OpValue::Mul { left: minus_sin, right: derive_node(&arg, dvar) }
        },
        Functions::Tan => {
            let sec = node_at_exec(
                &arg,
                OpValue::Function { func: Functions::Secant, arg: Rc::clone(&arg) },
            );
            let sec_squared = node_at_exec(
                &arg,
                OpValue::Pow { left: sec, right: number_exec(&arg, "2") },
            );
            OpValue::Mul { left: sec_squared, right: derive_node(&arg, dvar) }
        },
        Functions::Arcsin => {
            let root = node_at_exec(
                &arg,
                OpValue::Function { func: Functions::SquareRoot, arg: one_minus_square_exec(&arg) },
            );
            OpValue::Div { left: derive_node(&arg, dvar), right: root }
        },
        Functions::Arccos => {
            let root = node_at_exec(
                &arg,
                OpValue::Function { func: Functions::SquareRoot, arg: one_minus_square_exec(&arg) },
            );
            let quotient = node_at_exec(
                &arg,
                OpValue::Div { left: derive_node(&arg, dvar), right: root },
            );
            OpValue::Mul { left: number_exec(&arg, "-1"), right: quotient }
        },
        Functions::Arctan => {
            let square = node_at_exec(
                &arg,
                OpValue::Pow { left: Rc::clone(&arg), right: number_exec(&arg, "2") },
            );
            let denominator = node_at_exec(
                &arg,
                OpValue::Add { left: number_exec(&arg, "1"), right: square },
            );
            OpValue::Div { left: derive_node(&arg, dvar), right: denominator }
        },
        _ => {
            proof {
                // the other functions are left out by `has_derivative_rule`
                assert(false);
            }
            OpValue::Number("0")
        },
    }
}

/// Derive `func` with respect to `dvar`.
pub fn derive<'a>(func: &FunctionTree<'a>, dvar: &'a str) -> (res: FunctionTree<'a>)
    requires
        derivable(*func.root),
    ensures
        *res.root == derivative(*func.root, dvar@),
{
    FunctionTree { root: derive_node(&func.root, dvar) }
}

/// The node an `Rc` holds.
pub open spec fn inner<'a>(r: Rc<OpNode<'a>>) -> OpNode<'a> {
    *r
}

/// Whether the variable named `dvar` occurs in the tree.
pub open spec fn mentions<'a>(n: OpNode<'a>, dvar: Seq<char>) -> bool
    decreases n,
{
    match n.value {
        OpValue::Number(_) => false,
        OpValue::Variable(name) => name@ == dvar,
        OpValue::Add { left, right } => mentions(*left, dvar) || mentions(*right, dvar),
        OpValue::Sub { left, right } => mentions(*left, dvar) || mentions(*right, dvar),
        OpValue::Mul { left, right } => mentions(*left, dvar) || mentions(*right, dvar),
        OpValue::Div { left, right } => mentions(*left, dvar) || mentions(*right, dvar),
        OpValue::Pow { left, right } => mentions(*left, dvar) || mentions(*right, dvar),
        OpValue::Function { arg, .. } => mentions(*arg, dvar),
    }
}

/// The source tokens that the nodes of a tree stand for.
pub open spec fn sources<'a>(n: OpNode<'a>) -> Set<SourceToken<'a>>
    decreases n,
{
    set![*n.source] + match n.value {
        OpValue::Number(_) => Set::empty(),
        OpValue::Variable(_) => Set::empty(),
        OpValue::Add { left, right } => sources(*left) + sources(*right),
        OpValue::Sub { left, right } => sources(*left) + sources(*right),
        OpValue::Mul { left, right } => sources(*left) + sources(*right),
        OpValue::Div { left, right } => sources(*left) + sources(*right),
        OpValue::Pow { left, right } => sources(*left) + sources(*right),
        OpValue::Function { arg, .. } => sources(*arg),
    }
}

/// The names of the variables that occur in a tree.
pub open spec fn variables<'a>(n: OpNode<'a>) -> Set<Seq<char>>
    decreases n,
{
    match n.value {
        OpValue::Number(_) => Set::empty(),
        OpValue::Variable(name) => set![name@],
        OpValue::Add { left, right } => variables(*left) + variables(*right),
        OpValue::Sub { left, right } => variables(*left) + variables(*right),
        OpValue::Mul { left, right } => variables(*left) + variables(*right),
        OpValue::Div { left, right } => variables(*left) + variables(*right),
        OpValue::Pow { left, right } => variables(*left) + variables(*right),
        OpValue::Function { arg, .. } => variables(*arg),
    }
}

/// The derivative of a node stands for the source token of that node.
pub proof fn lemma_derivative_keeps_source<'a>(n: OpNode<'a>, dvar: Seq<char>)
    ensures
        derivative(n, dvar).source == n.source,
{
}

/// For a function application, the derivative has the operation of the rule
/// for its function, which is a product or a quotient.
proof fn lemma_rule_shape<'a>(n: OpNode<'a>, dvar: Seq<char>)
    ensures
        n.value matches OpValue::Function { func, arg } ==> (has_derivative_rule(func) ==> (
        derivative(n, dvar).value is Mul || derivative(n, dvar).value is Div)),
{
    match n.value {
        OpValue::Function { func, arg } => {
            let a = inner(arg);
            assert(derivative(n, dvar).value == function_derivative(func, a, dvar).value);
            match func {
                Functions::Sin => assert(function_derivative(func, a, dvar).value is Mul),
                Functions::Cos => assert(function_derivative(func, a, dvar).value is Mul),
                Functions::Tan => assert(function_derivative(func, a, dvar).value is Mul),
                Functions::Arcsin => assert(function_derivative(func, a, dvar).value is Div),
                Functions::Arccos => assert(function_derivative(func, a, dvar).value is Mul),
                Functions::Arctan => assert(function_derivative(func, a, dvar).value is Div),
                _ => {},
            }
        },
        _ => {},
    }
}

/// Sum rule: `(a + b)' = a' + b'`, standing for the sum's source token.
pub proof fn lemma_sum_rule<'a>(n: OpNode<'a>, left: OpNode<'a>, right: OpNode<'a>, dvar: Seq<char>)
    requires
        n.value == add_of(left, right),
    ensures
        derivative(n, dvar) == node_at(n, add_of(derivative(left, dvar), derivative(right, dvar))),
{
}

/// Difference rule: `(a - b)' = a' - b'`, standing for the difference's source token.
pub proof fn lemma_difference_rule<'a>(
    n: OpNode<'a>,
    left: OpNode<'a>,
    right: OpNode<'a>,
    dvar: Seq<char>,
)
    requires
        n.value == sub_of(left, right),
    ensures
        derivative(n, dvar) == node_at(n, sub_of(derivative(left, dvar), derivative(right, dvar))),
{
}

/// Power rule: when the exponent `b` does not mention the derivation
/// variable, `(a ^ b)' = b * a ^ (b - 1) * a'`.
pub proof fn lemma_constant_power_rule<'a>(
    n: OpNode<'a>,
    left: OpNode<'a>,
    right: OpNode<'a>,
    dvar: Seq<char>,
)
    requires
        n.value == pow_of(left, right),
        !mentions(right, dvar),
    ensures
        derivative(n, dvar) == node_at(
            n,
            mul_of(
                node_at(
                    n,
                    mul_of(
                        right,
                        node_at(n, pow_of(left, node_at(n, sub_of(right, number_at(n, "1"))))),
                    ),
                ),
                derivative(left, dvar),
            ),
        ),
{
}

/// Chain rule: the derivative of `F(a)` is the rule for `F` at `a`, which
/// takes the derivative of `a` once, standing for the application's source
/// token; for the sine, `sin(a)' = cos(a) * a'`.
pub proof fn lemma_chain_rule<'a>(n: OpNode<'a>, func: Functions, arg: OpNode<'a>, dvar: Seq<char>)
    requires
        n.value == apply_of(func, arg),
    ensures
        derivative(n, dvar) == node_at(n, function_derivative(func, arg, dvar).value),
        func == Functions::Sin ==> derivative(n, dvar) == node_at(
            n,
            mul_of(node_at(arg, apply_of(Functions::Cos, arg)), derivative(arg, dvar)),
        ),
{
}

/// A number derives to the number `0`; the derivation variable derives to
/// `1` and any other variable to `0`; each at the node's source token.
pub proof fn lemma_leaf_rules<'a>(n: OpNode<'a>, dvar: Seq<char>)
    ensures
        n.value is Number ==> derivative(n, dvar) == (OpNode {
            source: n.source,
            value: OpValue::Number("0"),
        }),
        n.value matches OpValue::Variable(name) ==> derivative(n, dvar) == (OpNode {
            source: n.source,
            value: OpValue::Number(if name@ == dvar { "1" } else { "0" }),
        }),
{
}

/// Product rule: `(a * b)' = a' * b + a * b'`, at the product's source token.
pub proof fn lemma_product_rule<'a>(
    n: OpNode<'a>,
    left: OpNode<'a>,
    right: OpNode<'a>,
    dvar: Seq<char>,
)
    requires
        n.value == mul_of(left, right),
    ensures
        derivative(n, dvar) == node_at(
            n,
            add_of(
                node_at(n, mul_of(derivative(left, dvar), right)),
                node_at(n, mul_of(left, derivative(right, dvar))),
            ),
        ),
{
}

/// Quotient rule: `(a / b)' = (a' * b - a * b') / b ^ 2`, at the quotient's
/// source token.
pub proof fn lemma_quotient_rule<'a>(
    n: OpNode<'a>,
    left: OpNode<'a>,
    right: OpNode<'a>,
    dvar: Seq<char>,
)
    requires
        n.value == div_of(left, right),
    ensures
        derivative(n, dvar) == node_at(
            n,
            div_of(
                node_at(
                    n,
                    sub_of(
                        node_at(n, mul_of(derivative(left, dvar), right)),
                        node_at(n, mul_of(left, derivative(right, dvar))),
                    ),
                ),
                node_at(n, pow_of(right, number_at(n, "2"))),
            ),
        ),
{
}

/// Power rule when the exponent mentions the derivation variable:
/// `(a ^ b)' = e ^ (b * ln(a)) * (b' * ln(a) + b * (a' / a))`.
pub proof fn lemma_variable_power_rule<'a>(
    n: OpNode<'a>,
    left: OpNode<'a>,
    right: OpNode<'a>,
    dvar: Seq<char>,
)
    requires
        n.value == pow_of(left, right),
        mentions(right, dvar),
    ensures
        derivative(n, dvar) == node_at(
            n,
            mul_of(
                node_at(
                    n,
                    pow_of(
                        node_at(n, OpValue::Variable("e")),
                        node_at(n, mul_of(right, node_at(n, apply_of(Functions::NaturalLog, left)))),
                    ),
                ),
                node_at(
                    n,
                    add_of(
                        node_at(
                            n,
                            mul_of(
                                derivative(right, dvar),
                                node_at(n, apply_of(Functions::NaturalLog, left)),
                            ),
                        ),
                        node_at(n, mul_of(right, node_at(n, div_of(derivative(left, dvar), left)))),
                    ),
                ),
            ),
        ),
{
}

/// The chain rule for each function with a rule, `F(a)' = F'(a) * a'`: the
/// product (or quotient) stands for the application's source token, the
/// nodes built inside it for the argument's.
pub proof fn lemma_function_rules<'a>(n: OpNode<'a>, func: Functions, a: OpNode<'a>, dvar: Seq<char>)
    requires
        n.value == apply_of(func, a),
    ensures
        // sin(a)' = cos(a) * a'
        func == Functions::Sin ==> derivative(n, dvar) == node_at(
            n,
            mul_of(node_at(a, apply_of(Functions::Cos, a)), derivative(a, dvar)),
        ),
        // cos(a)' = (-1 * sin(a)) * a'
        func == Functions::Cos ==> derivative(n, dvar) == node_at(
            n,
            mul_of(
                node_at(a, mul_of(number_at(a, "-1"), node_at(a, apply_of(Functions::Sin, a)))),
                derivative(a, dvar),
            ),
        ),
        // tan(a)' = sec(a) ^ 2 * a'
        func == Functions::Tan ==> derivative(n, dvar) == node_at(
            n,
            mul_of(
                node_at(a, pow_of(node_at(a, apply_of(Functions::Secant, a)), number_at(a, "2"))),
                derivative(a, dvar),
            ),
        ),
        // asin(a)' = a' / sqrt(1 - a ^ 2)
        func == Functions::Arcsin ==> derivative(n, dvar) == node_at(
            n,
            div_of(
                derivative(a, dvar),
                node_at(
                    a,
                    apply_of(
                        Functions::SquareRoot,
                        node_at(
                            a,
                            sub_of(number_at(a, "1"), node_at(a, pow_of(a, number_at(a, "2")))),
                        ),
                    ),
                ),
            ),
        ),
        // acos(a)' = -1 * (a' / sqrt(1 - a ^ 2))
        func == Functions::Arccos ==> derivative(n, dvar) == node_at(
            n,
            mul_of(
                number_at(a, "-1"),
                node_at(
                    a,
                    div_of(
                        derivative(a, dvar),
                        node_at(
                            a,
                            apply_of(
                                Functions::SquareRoot,
                                node_at(
                                    a,
                                    sub_of(
                                        number_at(a, "1"),
                                        node_at(a, pow_of(a, number_at(a, "2"))),
                                    ),
                                ),
                            ),
                        ),
                    ),
                ),
            ),
        ),
        // atan(a)' = a' / (1 + a ^ 2)
        func == Functions::Arctan ==> derivative(n, dvar) == node_at(
            n,
            div_of(
                derivative(a, dvar),
                node_at(a, add_of(number_at(a, "1"), node_at(a, pow_of(a, number_at(a, "2"))))),
            ),
        ),
{
    lemma_chain_rule(n, func, a, dvar);
    let d = function_derivative(func, a, dvar);
    if func == Functions::Sin {
        assert(d == node_at(a, mul_of(node_at(a, apply_of(Functions::Cos, a)), derivative(a, dvar))));
    } else if func == Functions::Cos {
        assert(d == node_at(
            a,
            mul_of(
                node_at(a, mul_of(number_at(a, "-1"), node_at(a, apply_of(Functions::Sin, a)))),
                derivative(a, dvar),
            ),
        ));
    }
}


/// A number or a variable can always be derived; an operator when both its
/// operands can; a function application when the function has a rule and
/// its argument can be derived.
pub proof fn lemma_derivable<'a>(n: OpNode<'a>)
    ensures
        n.value is Number || n.value is Variable ==> derivable(n),
        n.value matches OpValue::Add { left, right } ==> (derivable(n) <==> derivable(*left)
            && derivable(*right)),
        n.value matches OpValue::Sub { left, right } ==> (derivable(n) <==> derivable(*left)
            && derivable(*right)),
        n.value matches OpValue::Mul { left, right } ==> (derivable(n) <==> derivable(*left)
            && derivable(*right)),
        n.value matches OpValue::Div { left, right } ==> (derivable(n) <==> derivable(*left)
            && derivable(*right)),
        n.value matches OpValue::Pow { left, right } ==> (derivable(n) <==> derivable(*left)
            && derivable(*right)),
        n.value matches OpValue::Function { func, arg } ==> (derivable(n) <==> (func
            != Functions::SquareRoot && func != Functions::NaturalLog && func != Functions::Secant
            && derivable(*arg))),
{
}

/// Exactly the square root, the natural logarithm and the secant have no
/// derivative rule.
pub proof fn lemma_functions_with_rules()
    ensures
        has_derivative_rule(Functions::Sin),
        has_derivative_rule(Functions::Cos),
        has_derivative_rule(Functions::Tan),
        has_derivative_rule(Functions::Arcsin),
        has_derivative_rule(Functions::Arccos),
        has_derivative_rule(Functions::Arctan),
        !has_derivative_rule(Functions::SquareRoot),
        !has_derivative_rule(Functions::NaturalLog),
        !has_derivative_rule(Functions::Secant),
{
}

/// A tree mentions the derivation variable exactly when it is among the
/// tree's variables.
pub proof fn lemma_mentions_variables<'a>(n: OpNode<'a>, dvar: Seq<char>)
    ensures
        mentions(n, dvar) <==> variables(n).contains(dvar),
    decreases n,
{
    match n.value {
        OpValue::Number(_) => {},
        OpValue::Variable(_) => {},
        OpValue::Add { left, right } => {
            lemma_mentions_variables(inner(left), dvar);
            lemma_mentions_variables(inner(right), dvar);
        },
        OpValue::Sub { left, right } => {
            lemma_mentions_variables(inner(left), dvar);
            lemma_mentions_variables(inner(right), dvar);
        },
        OpValue::Mul { left, right } => {
            lemma_mentions_variables(inner(left), dvar);
            lemma_mentions_variables(inner(right), dvar);
        },
        OpValue::Div { left, right } => {
            lemma_mentions_variables(inner(left), dvar);
            lemma_mentions_variables(inner(right), dvar);
        },
        OpValue::Pow { left, right } => {
            lemma_mentions_variables(inner(left), dvar);
            lemma_mentions_variables(inner(right), dvar);
        },
        OpValue::Function { arg, .. } => {
            lemma_mentions_variables(inner(arg), dvar);
        },
    }
}

/// The derivative of a tree is the number zero exactly when the tree is a
/// number or a variable other than the derivation variable.
pub proof fn lemma_zero_derivative<'a>(n: OpNode<'a>, dvar: Seq<char>)
    requires
        derivable(n),
    ensures
        is_zero_number(derivative(n, dvar)) <==> (n.value is Number || (n.value matches OpValue::Variable(
            name,
        ) && name@ != dvar)),
{
    reveal_strlit("0");
    reveal_strlit("1");
    assert("0"@[0] != "1"@[0]);
    lemma_rule_shape(n, dvar);
}

/// If the derivative of a function is zero, it is not a function of the
/// derivation variable.
pub proof fn lemma_zero_derivative_constant<'a>(n: OpNode<'a>, dvar: Seq<char>)
    requires
        derivable(n),
    ensures
        is_zero_number(derivative(n, dvar)) ==> !mentions(n, dvar),
{
    lemma_zero_derivative(n, dvar);
}

/// Every node of a derivative stands for a source token of the derived tree.
pub proof fn lemma_derivative_sources<'a>(n: OpNode<'a>, dvar: Seq<char>)
    ensures
        sources(derivative(n, dvar)).subset_of(sources(n)),
    decreases n, 0nat,
{
    reveal_with_fuel(sources, 6);
    match n.value {
        OpValue::Number(_) => {},
        OpValue::Variable(_) => {},
        OpValue::Add { left, right } => {
            lemma_derivative_sources(inner(left), dvar);
            lemma_derivative_sources(inner(right), dvar);
        },
        OpValue::Sub { left, right } => {
            lemma_derivative_sources(inner(left), dvar);
            lemma_derivative_sources(inner(right), dvar);
        },
        OpValue::Mul { left, right } => {
            lemma_derivative_sources(inner(left), dvar);
            lemma_derivative_sources(inner(right), dvar);
        },
        OpValue::Div { left, right } => {
            lemma_derivative_sources(inner(left), dvar);
            lemma_derivative_sources(inner(right), dvar);
        },
        OpValue::Pow { left, right } => {
            lemma_derivative_sources(inner(left), dvar);
            lemma_derivative_sources(inner(right), dvar);
        },
        OpValue::Function { func, arg } => {
            lemma_function_derivative_sources(func, inner(arg), dvar);
            lemma_derivative_sources(inner(arg), dvar);
        },
    }
}

/// Every node of the rule for `func` at `arg` stands for a source token of `arg`.
pub proof fn lemma_function_derivative_sources<'a>(func: Functions, arg: OpNode<'a>, dvar: Seq<char>)
    ensures
        sources(function_derivative(func, arg, dvar)).subset_of(sources(arg)),
    decreases arg, 1nat,
{
    reveal_with_fuel(sources, 6);
    lemma_derivative_sources(arg, dvar);
}

/// A derivative mentions no variable but those of the derived tree and `e`.
pub proof fn lemma_derivative_variables<'a>(n: OpNode<'a>, dvar: Seq<char>)
    ensures
        variables(derivative(n, dvar)).subset_of(variables(n).insert("e"@)),
    decreases n, 0nat,
{
    reveal_with_fuel(variables, 6);
    match n.value {
        OpValue::Number(_) => {},
        OpValue::Variable(_) => {},
        OpValue::Add { left, right } => {
            lemma_derivative_variables(inner(left), dvar);
            lemma_derivative_variables(inner(right), dvar);
        },
        OpValue::Sub { left, right } => {
            lemma_derivative_variables(inner(left), dvar);
            lemma_derivative_variables(inner(right), dvar);
        },
        OpValue::Mul { left, right } => {
            lemma_derivative_variables(inner(left), dvar);
            lemma_derivative_variables(inner(right), dvar);
        },
        OpValue::Div { left, right } => {
            lemma_derivative_variables(inner(left), dvar);
            lemma_derivative_variables(inner(right), dvar);
        },
        OpValue::Pow { left, right } => {
            lemma_derivative_variables(inner(left), dvar);
            lemma_derivative_variables(inner(right), dvar);
        },
        OpValue::Function { func, arg } => {
            lemma_function_derivative_variables(func, inner(arg), dvar);
            lemma_derivative_variables(inner(arg), dvar);
        },
    }
}

/// The rule for `func` at `arg` mentions no variable but those of `arg` and `e`.
pub proof fn lemma_function_derivative_variables<'a>(
    func: Functions,
    arg: OpNode<'a>,
    dvar: Seq<char>,
)
    ensures
        variables(function_derivative(func, arg, dvar)).subset_of(variables(arg).insert("e"@)),
    decreases arg, 1nat,
{
    reveal_with_fuel(variables, 6);
    lemma_derivative_variables(arg, dvar);
}

} // verus!
