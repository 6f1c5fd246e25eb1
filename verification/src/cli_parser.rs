//! The command line of the derivative calculator.

use vstd::prelude::*;

verus! {

/// The arguments the calculator takes.
pub struct CliParser {
    /// The input function to derive
    pub input_function: String,
    /// The derivation variable (`x` unless given)
    pub derivation_variable: String,
}

} // verus!
