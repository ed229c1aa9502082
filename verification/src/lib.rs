//! Rewrites the math fragments of a page into MathJax notation.
//!
//! A page is plain text in which `$...$` spans hold Typst math. Each span is
//! handed to a Typst parser by the caller; the resulting expression tree is
//! modelled here as a [`MathNode`], translated against a [`SymbolDictionary`]
//! and wrapped for inline or display rendering. Whatever cannot be translated
//! becomes an HTML comment, so one bad symbol never spoils a page.
pub mod dictionary;
pub mod display;
pub mod extract;
pub mod laws;
pub mod node;
pub mod resolve;
pub mod text;
pub mod translate;

pub use dictionary::{dictionary_or_empty, load_dict, SymbolDictionary, SymbolEntry};
pub use display::{render_fragment, wrap_display};
pub use extract::{fragments, transform_from_typst};
pub use node::{CallArg, MathNode, ParseOutcome};
pub use resolve::{analysis_field_access, analysis_math_indent, probe_orderings};
pub use translate::{
    analysis_func_call, analysis_math, analysis_math_attach, analysis_math_delimited,
    analysis_math_frac, typst_to_mathjax,
};
pub use text::{diagnostic_text, join, repeat_char};
