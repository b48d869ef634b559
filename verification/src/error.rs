use vstd::prelude::*;

verus! {

/// The failure kinds of the pipeline.  Every one of them is fatal: the stage
/// that raises it aborts the whole run, and no later stage sees any output.
#[derive(Clone, Copy, Debug, PartialEq, Eq, Structural)]
pub enum Error {
    /// The text holds a character that is neither ASCII whitespace, an ASCII
    /// digit, nor one of the four operator characters.
    LexError,
    /// An operator with no defined precedence reached a precedence lookup.
    PrecedenceError,
    /// Fewer than two operands, or no pending operator, were at hand when the
    /// tree builder had to combine: the postfix sequence is malformed (or
    /// empty, or one the builder's single final combination cannot rebuild).
    TreeBuildError,
    /// A division whose right operand evaluated to zero.
    DivisionByZero,
    /// An operator outside `+ - * /` reached evaluation.
    InvalidOperator,
    /// Result extraction was attempted on a tree whose root is not a literal.
    NotFullyEvaluated,
}

} // verus!
