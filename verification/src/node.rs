//! The expression tree of one math fragment, as the translator reads it.
use vstd::prelude::*;

verus! {

/// One node of a parsed math expression.
///
/// A node owns its children. Where the translator may have to describe a node
/// in a diagnostic, the node carries that description as text.
#[derive(Debug)]
pub enum MathNode {
    /// Nodes written one after another.
    Sequence(Vec<MathNode>),
    /// A call such as `vec(x)`. The descriptions are those of the callee and of
    /// the whole argument list.
    FunctionCall {
        callee: Box<MathNode>,
        callee_description: String,
        args: Vec<CallArg>,
        args_description: String,
    },
    /// A quoted string.
    StringLiteral(String),
    /// A single character or a numeral.
    TextAtom(String),
    /// A field access such as `arrow.r`, which may chain onto another one.
    FieldAccess { target: Box<MathNode>, field: String, description: String },
    /// An identifier such as `alpha`.
    Identifier(String),
    /// A predefined special-symbol token, held as its replacement text.
    Shorthand(String),
    /// A base with optional primes, superscript and subscript.
    Attachment {
        base: Box<MathNode>,
        top: Option<Box<MathNode>>,
        bottom: Option<Box<MathNode>>,
        primes: Option<usize>,
    },
    /// A body between matched delimiters.
    Delimited { open: Box<MathNode>, body: Vec<MathNode>, close: Box<MathNode> },
    /// A fraction.
    Fraction { num: Box<MathNode>, denom: Box<MathNode> },
    /// An alignment point.
    AlignPoint,
    /// Whitespace between nodes.
    Whitespace,
    /// A forced line break.
    LineBreak,
    /// Any other construct, held as its description.
    Unsupported { description: String },
}

/// One argument of a function call.
#[derive(Debug)]
pub enum CallArg {
    /// A positional argument.
    Positional(MathNode),
    /// A named or spread argument, held as its description.
    Other { description: String },
}

/// What parsing one fragment gave.
#[derive(Debug)]
pub enum ParseOutcome {
    /// The fragment is an equation with this body; `block` tells display
    /// equations from inline ones.
    Equation { body: MathNode, block: bool },
    /// The fragment was parsed, but it does not start with an equation.
    NotEquation,
    /// The fragment could not be parsed.
    Failed,
}

} // verus!
