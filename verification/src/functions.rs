//! The mathematical functions that expressions may apply.

use vstd::prelude::*;
use crate::text::same_text;

verus! {

/// Known mathematical functions
#[derive(Clone, Copy, PartialEq, Eq, Structural, Debug)]
pub enum Functions {
    Sin,
    Cos,
    Tan,
    Arcsin,
    Arccos,
    Arctan,
    SquareRoot,
    NaturalLog,
    Secant,
}

/// The name under which a function is written in a function definition.
pub open spec fn function_name(f: Functions) -> Seq<char> {
    match f {
        Functions::Sin => seq!['s', 'i', 'n'],
        Functions::Cos => seq!['c', 'o', 's'],
        Functions::Tan => seq!['t', 'a', 'n'],
        Functions::Arcsin => seq!['a', 's', 'i', 'n'],
        Functions::Arccos => seq!['a', 'c', 'o', 's'],
        Functions::Arctan => seq!['a', 't', 'a', 'n'],
        Functions::SquareRoot => seq!['s', 'q', 'r', 't'],
        Functions::NaturalLog => seq!['l', 'n'],
        Functions::Secant => seq!['s', 'e', 'c'],
    }
}

/// The function written with the given name, if any.
pub open spec fn function_named(name: Seq<char>) -> Option<Functions> {
    if name == seq!['s', 'i', 'n'] {
        Some(Functions::Sin)
    } else if name == seq!['c', 'o', 's'] {
        Some(Functions::Cos)
    } else if name == seq!['t', 'a', 'n'] {
        Some(Functions::Tan)
    } else if name == seq!['a', 's', 'i', 'n'] {
        Some(Functions::Arcsin)
    } else if name == seq!['a', 'c', 'o', 's'] {
        Some(Functions::Arccos)
    } else if name == seq!['a', 't', 'a', 'n'] {
        Some(Functions::Arctan)
    } else if name == seq!['s', 'q', 'r', 't'] {
        Some(Functions::SquareRoot)
    } else if name == seq!['l', 'n'] {
        Some(Functions::NaturalLog)
    } else if name == seq!['s', 'e', 'c'] {
        Some(Functions::Secant)
    } else {
        None
    }
}

/// The string literals used for function names spell out those names.
proof fn lemma_literal_names()
    ensures
        "sin"@ == seq!['s', 'i', 'n'],
        "cos"@ == seq!['c', 'o', 's'],
        "tan"@ == seq!['t', 'a', 'n'],
        "asin"@ == seq!['a', 's', 'i', 'n'],
        "acos"@ == seq!['a', 'c', 'o', 's'],
        "atan"@ == seq!['a', 't', 'a', 'n'],
        "sqrt"@ == seq!['s', 'q', 'r', 't'],
        "ln"@ == seq!['l', 'n'],
        "sec"@ == seq!['s', 'e', 'c'],
{
    reveal_strlit("sin");
    assert("sin"@ =~= seq!['s', 'i', 'n']);
    reveal_strlit("cos");
    assert("cos"@ =~= seq!['c', 'o', 's']);
    reveal_strlit("tan");
    assert("tan"@ =~= seq!['t', 'a', 'n']);
    reveal_strlit("asin");
    assert("asin"@ =~= seq!['a', 's', 'i', 'n']);
    reveal_strlit("acos");
    assert("acos"@ =~= seq!['a', 'c', 'o', 's']);
    reveal_strlit("atan");
    assert("atan"@ =~= seq!['a', 't', 'a', 'n']);
    reveal_strlit("sqrt");
    assert("sqrt"@ =~= seq!['s', 'q', 'r', 't']);
    reveal_strlit("ln");
    assert("ln"@ =~= seq!['l', 'n']);
    reveal_strlit("sec");
    assert("sec"@ =~= seq!['s', 'e', 'c']);
}

/// The name a function displays as, as a string slice.
pub open spec fn function_text(f: Functions) -> &'static str {
    match f {
        Functions::Sin => "sin",
        Functions::Cos => "cos",
        Functions::Tan => "tan",
        Functions::Arcsin => "asin",
        Functions::Arccos => "acos",
        Functions::Arctan => "atan",
        Functions::SquareRoot => "sqrt",
        Functions::NaturalLog => "ln",
        Functions::Secant => "sec",
    }
}

impl Functions {
    /// Looks a function up by the name it is written with.
    pub fn from_name(name: &str) -> (res: Option<Self>)
        ensures
            res == function_named(name@),
    {
        proof {
            lemma_literal_names();
        }
        if same_text(name, "sin") {
            Some(Functions::Sin)
        } else if same_text(name, "cos") {
            Some(Functions::Cos)
        } else if same_text(name, "tan") {
            Some(Functions::Tan)
        } else if same_text(name, "asin") {
            Some(Functions::Arcsin)
        } else if same_text(name, "acos") {
            Some(Functions::Arccos)
        } else if same_text(name, "atan") {
            Some(Functions::Arctan)
        } else if same_text(name, "sqrt") {
            Some(Functions::SquareRoot)
        } else if same_text(name, "ln") {
            Some(Functions::NaturalLog)
        } else if same_text(name, "sec") {
            Some(Functions::Secant)
        } else {
            None
        }
    }

    /// The name the function is written with (what the function displays as).
    pub fn name(&self) -> (res: &'static str)
        ensures
            res == function_text(*self),
            res@ == function_name(*self),
    {
        proof {
            lemma_literal_names();
        }
        match self {
            Functions::Sin => "sin",
            Functions::Cos => "cos",
            Functions::Tan => "tan",
            Functions::Arcsin => "asin",
            Functions::Arccos => "acos",
            Functions::Arctan => "atan",
            Functions::SquareRoot => "sqrt",
            Functions::NaturalLog => "ln",
            Functions::Secant => "sec",
        }
    }
}

/// The names of the functions: `sin`, `cos`, `tan`, `asin`, `acos`, `atan`,
/// `sqrt`, `ln` and `sec`; each is written and displayed by that name and
/// looked up by it.
pub proof fn lemma_name_table()
    ensures
        function_name(Functions::Sin) == "sin"@,
        function_name(Functions::Cos) == "cos"@,
        function_name(Functions::Tan) == "tan"@,
        function_name(Functions::Arcsin) == "asin"@,
        function_name(Functions::Arccos) == "acos"@,
        function_name(Functions::Arctan) == "atan"@,
        function_name(Functions::SquareRoot) == "sqrt"@,
        function_name(Functions::NaturalLog) == "ln"@,
        function_name(Functions::Secant) == "sec"@,
        function_named("sin"@) == Some(Functions::Sin),
        function_named("cos"@) == Some(Functions::Cos),
        function_named("tan"@) == Some(Functions::Tan),
        function_named("asin"@) == Some(Functions::Arcsin),
        function_named("acos"@) == Some(Functions::Arccos),
        function_named("atan"@) == Some(Functions::Arctan),
        function_named("sqrt"@) == Some(Functions::SquareRoot),
        function_named("ln"@) == Some(Functions::NaturalLog),
        function_named("sec"@) == Some(Functions::Secant),
        forall|f: Functions| (#[trigger] function_text(f))@ == function_name(f),
{
    lemma_literal_names();
    assert forall|f: Functions| (#[trigger] function_text(f))@ == function_name(f) by {
        lemma_literal_names();
    }
}

/// Only the nine names denote functions: a name no longer than four
/// characters that starts with a character other than `s`, `c`, `t`, `a` and
/// `l` denotes none, and neither does any name of five characters or more.
pub proof fn lemma_unknown_names(name: Seq<char>)
    ensures
        name.len() > 4 ==> function_named(name) is None,
        name.len() < 2 ==> function_named(name) is None,
        name.len() > 0 && !(name[0] == 's' || name[0] == 'c' || name[0] == 't' || name[0] == 'a'
            || name[0] == 'l') ==> function_named(name) is None,
{
}

/// Every function is found again under the name it displays as.
pub proof fn lemma_name_round_trip(f: Functions)
    ensures
        function_named(function_name(f)) == Some(f),
{
}

/// A name that denotes a function is exactly that function's displayed name.
pub proof fn lemma_named_is_name(name: Seq<char>)
    ensures
        function_named(name) matches Some(f) ==> function_name(f) == name,
{
}

} // verus!
