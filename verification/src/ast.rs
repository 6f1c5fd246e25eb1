//! Expression trees of function definitions.

use std::rc::Rc;
use vstd::prelude::*;

use crate::functions::{Functions, function_text};
use crate::tokenizer::SourceToken;

verus! {

/// The operation at a node of a function tree.
///
/// A number is held as the numeral it was written with (for instance `"3.5"`);
/// the library never computes with its value.
pub enum OpValue<'a> {
    Number(&'a str),
    Add { left: Rc<OpNode<'a>>, right: Rc<OpNode<'a>> },
    Sub { left: Rc<OpNode<'a>>, right: Rc<OpNode<'a>> },
    Mul { left: Rc<OpNode<'a>>, right: Rc<OpNode<'a>> },
    Div { left: Rc<OpNode<'a>>, right: Rc<OpNode<'a>> },
    Pow { left: Rc<OpNode<'a>>, right: Rc<OpNode<'a>> },
    Variable(&'a str),
    /// A one-argument math function
    Function { func: Functions, arg: Rc<OpNode<'a>> },
}

/// A node of a function tree: an operation and the source token it came from.
pub struct OpNode<'a> {
    pub source: Rc<SourceToken<'a>>,
    pub value: OpValue<'a>,
}

/// A function definition as a tree of operations.
pub struct FunctionTree<'a> {
    pub root: Rc<OpNode<'a>>,
}

/// A piece of the text that displays a tree or a token: either text to be
/// written as it is, or a numeral to be written as the number it denotes.
#[derive(Clone, Copy, Debug, PartialEq, Eq)]
pub enum Piece<'a> {
    Text(&'a str),
    Number(&'a str),
}

/// The pieces of the one-line form of an operation: every operator in
/// parentheses, `(left + right)`, and functions as `name(argument)`.
pub open spec fn linear_pieces<'a>(v: OpValue<'a>) -> Seq<Piece<'a>>
    decreases v,
{
    match v {
        OpValue::Number(n) => seq![Piece::Number(n)],
        OpValue::Add { left, right } => binary_pieces(
            linear_pieces(left.value),
            " + ",
            linear_pieces(right.value),
        ),
        OpValue::Sub { left, right } => binary_pieces(
            linear_pieces(left.value),
            " - ",
            linear_pieces(right.value),
        ),
        OpValue::Mul { left, right } => binary_pieces(
            linear_pieces(left.value),
            " * ",
            linear_pieces(right.value),
        ),
        OpValue::Div { left, right } => binary_pieces(
            linear_pieces(left.value),
            " / ",
            linear_pieces(right.value),
        ),
        OpValue::Pow { left, right } => binary_pieces(
            linear_pieces(left.value),
            " ^ ",
            linear_pieces(right.value),
        ),
        OpValue::Variable(name) => seq![Piece::Text(name)],
        OpValue::Function { func, arg } => seq![Piece::Text(function_text(func)), Piece::Text("(")]
            + linear_pieces(arg.value) + seq![Piece::Text(")")],
    }
}

/// `(left op right)`
pub open spec fn binary_pieces<'a>(
    left: Seq<Piece<'a>>,
    op: &'a str,
    right: Seq<Piece<'a>>,
) -> Seq<Piece<'a>> {
    seq![Piece::Text("(")] + left + seq![Piece::Text(op)] + right + seq![Piece::Text(")")]
}

/// The operation of the node an `Rc` holds.
pub open spec fn value_of<'a>(n: &Rc<OpNode<'a>>) -> OpValue<'a> {
    n.value
}

/// The number of levels below a node: 0 for numbers and variables.
pub open spec fn height<'a>(v: OpValue<'a>) -> nat
    decreases v,
{
    match v {
        OpValue::Number(_) => 0,
        OpValue::Variable(_) => 0,
        OpValue::Add { left, right } => 1 + max(height(left.value), height(right.value)),
        OpValue::Sub { left, right } => 1 + max(height(left.value), height(right.value)),
        OpValue::Mul { left, right } => 1 + max(height(left.value), height(right.value)),
        OpValue::Div { left, right } => 1 + max(height(left.value), height(right.value)),
        OpValue::Pow { left, right } => 1 + max(height(left.value), height(right.value)),
        OpValue::Function { arg, .. } => 1 + height(arg.value),
    }
}

pub open spec fn max(a: nat, b: nat) -> nat {
    if a >= b { a } else { b }
}

/// The line prefix of a node at depth `indent` of the tree form: `| ` for each
/// level above it, then `|_ ` below the root.
pub open spec fn indent_pieces<'a>(indent: nat) -> Seq<Piece<'a>> {
    Seq::new(indent, |i: int| Piece::Text("| ")) + if indent != 0 {
        seq![Piece::Text("|_ ")]
    } else {
        Seq::<Piece<'a>>::empty()
    }
}

/// The pieces of the tree form of an operation: one node per line, operator
/// first, each operand on the lines below it one level deeper.
pub open spec fn indented_pieces<'a>(v: OpValue<'a>, indent: nat) -> Seq<Piece<'a>>
    decreases v,
{
    indent_pieces(indent) + match v {
        OpValue::Number(n) => seq![Piece::Number(n)],
        OpValue::Add { left, right } => branch_pieces(
            "+\n",
            indented_pieces(left.value, indent + 1),
            indented_pieces(right.value, indent + 1),
        ),
        OpValue::Sub { left, right } => branch_pieces(
            "-\n",
            indented_pieces(left.value, indent + 1),
            indented_pieces(right.value, indent + 1),
        ),
        OpValue::Mul { left, right } => branch_pieces(
            "*\n",
            indented_pieces(left.value, indent + 1),
            indented_pieces(right.value, indent + 1),
        ),
        OpValue::Div { left, right } => branch_pieces(
            "/\n",
            indented_pieces(left.value, indent + 1),
            indented_pieces(right.value, indent + 1),
        ),
        OpValue::Pow { left, right } => branch_pieces(
            "^\n",
            indented_pieces(left.value, indent + 1),
            indented_pieces(right.value, indent + 1),
        ),
        OpValue::Variable(name) => seq![Piece::Text(name)],
        OpValue::Function { func, arg } => seq![Piece::Text(function_text(func)), Piece::Text("()\n")]
            + indented_pieces(arg.value, indent + 1),
    }
}

/// An operator line, its left operand, a line break and its right operand.
pub open spec fn branch_pieces<'a>(
    op_line: &'a str,
    left: Seq<Piece<'a>>,
    right: Seq<Piece<'a>>,
) -> Seq<Piece<'a>> {
    seq![Piece::Text(op_line)] + left + seq![Piece::Text("\n")] + right
}

/// The one-line form: a number or a variable as itself, each operator
/// between its operands with a space on either side and the whole in
/// parentheses (`+`, `-`, `*`, `/`, `^`), and a function as its name followed
/// by its argument in parentheses.
pub proof fn lemma_one_line_forms<'a>(v: OpValue<'a>)
    ensures
        v matches OpValue::Number(n) ==> linear_pieces(v) == seq![Piece::Number(n)],
        v matches OpValue::Variable(name) ==> linear_pieces(v) == seq![Piece::Text(name)],
        v matches OpValue::Add { left, right } ==> linear_pieces(v) == seq![Piece::Text("(")]
            + linear_pieces(left.value) + seq![Piece::Text(" + ")] + linear_pieces(right.value)
            + seq![Piece::Text(")")],
        v matches OpValue::Sub { left, right } ==> linear_pieces(v) == seq![Piece::Text("(")]
            + linear_pieces(left.value) + seq![Piece::Text(" - ")] + linear_pieces(right.value)
            + seq![Piece::Text(")")],
        v matches OpValue::Mul { left, right } ==> linear_pieces(v) == seq![Piece::Text("(")]
            + linear_pieces(left.value) + seq![Piece::Text(" * ")] + linear_pieces(right.value)
            + seq![Piece::Text(")")],
        v matches OpValue::Div { left, right } ==> linear_pieces(v) == seq![Piece::Text("(")]
            + linear_pieces(left.value) + seq![Piece::Text(" / ")] + linear_pieces(right.value)
            + seq![Piece::Text(")")],
        v matches OpValue::Pow { left, right } ==> linear_pieces(v) == seq![Piece::Text("(")]
            + linear_pieces(left.value) + seq![Piece::Text(" ^ ")] + linear_pieces(right.value)
            + seq![Piece::Text(")")],
        v matches OpValue::Function { func, arg } ==> linear_pieces(v) == seq![
            Piece::Text(function_text(func)),
            Piece::Text("("),
        ] + linear_pieces(arg.value) + seq![Piece::Text(")")],
{
    match v {
        OpValue::Function { func, arg } => {
            assert(linear_pieces(v) =~= seq![Piece::Text(function_text(func)), Piece::Text("(")]
                + linear_pieces(arg.value) + seq![Piece::Text(")")]);
        },
        _ => {},
    }
}

/// The line prefix at depth `indent`: `| ` once per level, then `|_ ` below
/// the root; nothing at the root.
pub proof fn lemma_indent_pieces<'a>(indent: nat)
    ensures
        indent == 0 ==> indent_pieces::<'a>(indent).len() == 0,
        indent > 0 ==> indent_pieces::<'a>(indent).len() == indent + 1,
        forall|j: int| 0 <= j < indent ==> #[trigger] indent_pieces::<'a>(indent)[j] == Piece::Text("| "),
        indent > 0 ==> indent_pieces::<'a>(indent)[indent as int] == Piece::Text("|_ "),
{
}

/// The tree form: after the line prefix, a number or a variable as itself;
/// an operator (`+`, `-`, `*`, `/`, `^`) on a line of its own, then its left
/// operand, a line break and its right operand, both one level deeper; a
/// function as its name and `()` on a line, then its argument one level
/// deeper.
pub proof fn lemma_tree_forms<'a>(v: OpValue<'a>, indent: nat)
    ensures
        v matches OpValue::Number(n) ==> indented_pieces(v, indent) == indent_pieces(indent) + seq![
            Piece::Number(n),
        ],
        v matches OpValue::Variable(name) ==> indented_pieces(v, indent) == indent_pieces(indent)
            + seq![Piece::Text(name)],
        v matches OpValue::Add { left, right } ==> indented_pieces(v, indent) == indent_pieces(indent)
            + seq![Piece::Text("+\n")] + indented_pieces(left.value, indent + 1) + seq![
            Piece::Text("\n"),
        ] + indented_pieces(right.value, indent + 1),
        v matches OpValue::Sub { left, right } ==> indented_pieces(v, indent) == indent_pieces(indent)
            + seq![Piece::Text("-\n")] + indented_pieces(left.value, indent + 1) + seq![
            Piece::Text("\n"),
        ] + indented_pieces(right.value, indent + 1),
        v matches OpValue::Mul { left, right } ==> indented_pieces(v, indent) == indent_pieces(indent)
            + seq![Piece::Text("*\n")] + indented_pieces(left.value, indent + 1) + seq![
            Piece::Text("\n"),
        ] + indented_pieces(right.value, indent + 1),
        v matches OpValue::Div { left, right } ==> indented_pieces(v, indent) == indent_pieces(indent)
            + seq![Piece::Text("/\n")] + indented_pieces(left.value, indent + 1) + seq![
            Piece::Text("\n"),
        ] + indented_pieces(right.value, indent + 1),
        v matches OpValue::Pow { left, right } ==> indented_pieces(v, indent) == indent_pieces(indent)
            + seq![Piece::Text("^\n")] + indented_pieces(left.value, indent + 1) + seq![
            Piece::Text("\n"),
        ] + indented_pieces(right.value, indent + 1),
        v matches OpValue::Function { func, arg } ==> indented_pieces(v, indent) == indent_pieces(
            indent,
        ) + seq![Piece::Text(function_text(func)), Piece::Text("()\n")] + indented_pieces(
            arg.value,
            indent + 1,
        ),
{
    match v {
        OpValue::Function { func, arg } => {
            assert(indented_pieces(v, indent) =~= indent_pieces(indent) + seq![
                Piece::Text(function_text(func)),
                Piece::Text("()\n"),
            ] + indented_pieces(arg.value, indent + 1));
        },
        _ => {},
    }
}

/// Numbers and variables have height 0; an operator or a function is one
/// level above the highest of its operands.
pub proof fn lemma_heights<'a>(v: OpValue<'a>)
    ensures
        v is Number || v is Variable ==> height(v) == 0,
        v matches OpValue::Function { arg, .. } ==> height(v) == height(arg.value) + 1,
        (v matches OpValue::Add { left, right } || v matches OpValue::Sub { left, right }
            || v matches OpValue::Mul { left, right } || v matches OpValue::Div { left, right }
            || v matches OpValue::Pow { left, right }) ==> height(v) >= 1,
        v matches OpValue::Add { left, right } ==> height(v) == (if height(left.value) >= height(
            right.value,
        ) {
            height(left.value)
        } else {
            height(right.value)
        }) + 1,
{
}

/// Appends the line prefix of a node at depth `indent`.
fn push_indent<'a>(indent: usize, f: &mut Vec<Piece<'a>>)
    ensures
        final(f)@ == old(f)@ + indent_pieces(indent as nat),
{
    let mut i: usize = 0;
    while i < indent
        invariant
            i <= indent,
            f@ == old(f)@ + Seq::new(i as nat, |k: int| Piece::Text("| ")),
        decreases indent - i,
    {
        f.push(Piece::Text("| "));
        i = i + 1;
        proof {
            assert(f@ =~= old(f)@ + Seq::new(i as nat, |k: int| Piece::Text("| ")));
        }
    }
    if indent != 0 {
        f.push(Piece::Text("|_ "));
    }
    proof {
        assert(f@ =~= old(f)@ + indent_pieces(indent as nat));
    }
}

impl<'a> OpValue<'a> {
    /// Appends the one-line form of the operation to `f`.
    pub fn fmt(&self, f: &mut Vec<Piece<'a>>)
        ensures
            final(f)@ == old(f)@ + linear_pieces(*self),
        decreases self,
    {
        let (left, op, right) = match self {
            OpValue::Number(n) => {
                f.push(Piece::Number(n));
                return;
            },
            OpValue::Variable(name) => {
                f.push(Piece::Text(name));
                return;
            },
            OpValue::Function { func, arg } => {
                f.push(Piece::Text(func.name()));
                f.push(Piece::Text("("));
                arg.value.fmt(f);
                f.push(Piece::Text(")"));
                proof {
                    assert(f@ =~= old(f)@ + linear_pieces(*self));
                }
                return;
            },
            OpValue::Add { left, right } => (left, " + ", right),
            OpValue::Sub { left, right } => (left, " - ", right),
            OpValue::Mul { left, right } => (left, " * ", right),
            OpValue::Div { left, right } => (left, " / ", right),
            OpValue::Pow { left, right } => (left, " ^ ", right),
        };
        f.push(Piece::Text("("));
        left.value.fmt(f);
        f.push(Piece::Text(op));
        right.value.fmt(f);
        f.push(Piece::Text(")"));
        proof {
            assert(f@ =~= old(f)@ + linear_pieces(*self));
        }
    }

    /// Appends the tree form of the operation to `f`, the node itself at
    /// depth `indent`.
    #[verifier::rlimit(20)]
    pub fn fmt_indented(&self, indent: usize, f: &mut Vec<Piece<'a>>)
        requires
            indent + height(*self) < usize::MAX,
        ensures
            final(f)@ == old(f)@ + indented_pieces(*self, indent as nat),
        decreases self,
    {
        push_indent(indent, f);
        let ghost prefixed = f@;
        let indent = indent + 1;
        let (op_line, left, right) = match self {
            OpValue::Number(n) => {
                f.push(Piece::Number(n));
                return;
            },
            OpValue::Variable(name) => {
                f.push(Piece::Text(name));
                return;
            },
            OpValue::Function { func, arg } => {
                f.push(Piece::Text(func.name()));
                f.push(Piece::Text("()\n"));
                arg.value.fmt_indented(indent, f);
                proof {
                    assert(f@ =~= old(f)@ + indented_pieces(*self, (indent - 1) as nat));
                }
                return;
            },
            OpValue::Add { left, right } => ("+\n", left, right),
            OpValue::Sub { left, right } => ("-\n", left, right),
            OpValue::Mul { left, right } => ("*\n", left, right),
            OpValue::Div { left, right } => ("/\n", left, right),
            OpValue::Pow { left, right } => ("^\n", left, right),
        };
        let ghost left_value = value_of(left);
        let ghost right_value = value_of(right);
        f.push(Piece::Text(op_line));
        left.value.fmt_indented(indent, f);
        f.push(Piece::Text("\n"));
        right.value.fmt_indented(indent, f);
        proof {
            let body = branch_pieces(
                op_line,
                indented_pieces(left_value, indent as nat),
                indented_pieces(right_value, indent as nat),
            );
            assert(f@ =~= prefixed + body);
            assert(indented_pieces(*self, (indent - 1) as nat) == indent_pieces((indent - 1) as nat)
                + body);
        }
    }

    /// Whether the operation has fewer than `bound` levels below it, so that
    /// `fmt_indented` may be called with any indent below `usize::MAX - bound`.
    pub fn height_below(&self, bound: usize) -> (res: bool)
        ensures
            res == (height(*self) < bound),
        decreases self,
    {
        if bound == 0 {
            return false;
        }
        match self {
            OpValue::Number(_) => true,
            OpValue::Variable(_) => true,
            OpValue::Add { left, right } => left.value.height_below(bound - 1)
                && right.value.height_below(bound - 1),
            OpValue::Sub { left, right } => left.value.height_below(bound - 1)
                && right.value.height_below(bound - 1),
            OpValue::Mul { left, right } => left.value.height_below(bound - 1)
                && right.value.height_below(bound - 1),
            OpValue::Div { left, right } => left.value.height_below(bound - 1)
                && right.value.height_below(bound - 1),
            OpValue::Pow { left, right } => left.value.height_below(bound - 1)
                && right.value.height_below(bound - 1),
            OpValue::Function { arg, .. } => arg.value.height_below(bound - 1),
        }
    }
}

impl<'a> FunctionTree<'a> {
    /// The one-line form of the tree (what the tree displays as).
    pub fn display_pieces(&self) -> (res: Vec<Piece<'a>>)
        ensures
            res@ == linear_pieces(self.root.value),
    {
        let mut f: Vec<Piece<'a>> = Vec::new();
        self.root.value.fmt(&mut f);
        proof {
            assert(f@ =~= linear_pieces(self.root.value));
        }
        f
    }

    /// The tree form of the tree (its debug form), the root at depth 0.
    pub fn debug_pieces(&self) -> (res: Vec<Piece<'a>>)
        requires
            height(self.root.value) < usize::MAX,
        ensures
            res@ == indented_pieces(self.root.value, 0),
    {
        let mut f: Vec<Piece<'a>> = Vec::new();
        self.root.value.fmt_indented(0, &mut f);
        proof {
            assert(f@ =~= indented_pieces(self.root.value, 0));
        }
        f
    }
}

} // verus!
