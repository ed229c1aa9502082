//! The display wrapper: how a translated fragment is set into the page.
use vstd::prelude::*;
use crate::dictionary::{SymbolDictionary, SymbolEntry};
use crate::node::ParseOutcome;
use crate::text::{contains_char, diagnostic, diagnostic_text, enclose};
use crate::translate::{translation, typst_to_mathjax};

verus! {

/// A translated equation body in its wrapper: an `align*` environment for a
/// display equation written over several lines, `\[..\]` for any other
/// display equation, `\(..\)` for an inline one.
pub open spec fn display_text(body: Seq<char>, block: bool, multiline: bool) -> Seq<char> {
    if block {
        if multiline {
            "\\begin{align*}"@ + body + "\\end{align*}"@
        } else {
            "\\["@ + body + "\\]"@
        }
    } else {
        "\\("@ + body + "\\)"@
    }
}

/// What replaces the fragment `raw` in the page, given what parsing it gave.
pub open spec fn fragment_text(
    raw: Seq<char>,
    outcome: ParseOutcome,
    entries: Map<Seq<char>, SymbolEntry>,
) -> Seq<char> {
    match outcome {
        ParseOutcome::Equation { body, block } => display_text(
            translation(body, entries),
            block,
            raw.contains('\n'),
        ),
        ParseOutcome::NotEquation => diagnostic("no expr"@, raw),
        ParseOutcome::Failed => diagnostic("parse error"@, raw),
    }
}

/// Wraps a translated equation body for inline or display rendering.
pub fn wrap_display(body: &str, block: bool, multiline: bool) -> (out: String)
    ensures
        out@ == display_text(body@, block, multiline),
{
    if block {
        if multiline {
            enclose("\\begin{align*}", body, "\\end{align*}")
        } else {
            enclose("\\[", body, "\\]")
        }
    } else {
        enclose("\\(", body, "\\)")
    }
}

/// Renders one fragment: an equation is translated and wrapped, anything else
/// becomes a diagnostic that holds the fragment as it was written.
pub fn render_fragment(raw: &str, outcome: &ParseOutcome, dict: &SymbolDictionary) -> (out: String)
    ensures
        out@ == fragment_text(raw@, *outcome, dict@),
{
    match outcome {
        ParseOutcome::Equation { body, block } => {
            let body_text = typst_to_mathjax(body, dict);
            let multiline = contains_char(raw, '\n');
            wrap_display(body_text.as_str(), *block, multiline)
        },
        ParseOutcome::NotEquation => diagnostic_text("no expr", raw),
        ParseOutcome::Failed => diagnostic_text("parse error", raw),
    }
}

} // verus!
