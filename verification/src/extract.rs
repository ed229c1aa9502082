//! The fragment extractor: finding the `$...$` spans of a page and putting
//! their renderings in their place.
use vstd::prelude::*;
use crate::dictionary::{SymbolDictionary, SymbolEntry};
use crate::display::{fragment_text, render_fragment};
use crate::node::ParseOutcome;
use crate::text::{chars_of, push_chars, texts};

verus! {

/// The position of the first `$` of `text` at or behind `from`, or the length
/// of `text` where there is none.
pub open spec fn first_delimiter(text: Seq<char>, from: nat) -> nat
    decreases text.len() - from,
{
    if from >= text.len() {
        text.len()
    } else if text[from as int] == '$' {
        from
    } else {
        first_delimiter(text, from + 1)
    }
}

/// The next fragment of `text` at or behind `from`, as the position of its
/// opening `$` and the position behind its closing `$`.
///
/// A fragment opens at the first `$` and closes at the first `$` that leaves
/// at least one character between the two; it may span lines.
pub open spec fn next_span(text: Seq<char>, from: nat) -> Option<(nat, nat)> {
    let open = first_delimiter(text, from);
    let close = first_delimiter(text, open + 2);
    if close < text.len() {
        Some((open, (close + 1) as nat))
    } else {
        None
    }
}

/// What parsing the fragment of this index gave; a fragment for which nothing
/// was handed in counts as not parsed.
pub open spec fn outcome_at(outcomes: Seq<ParseOutcome>, index: nat) -> ParseOutcome {
    if index < outcomes.len() {
        outcomes[index as int]
    } else {
        ParseOutcome::Failed
    }
}

/// The fragments of `text` from `from` on, in their order.
pub open spec fn fragments_from(text: Seq<char>, from: nat) -> Seq<Seq<char>>
    decreases text.len() - from,
    via fragments_from_decreases
{
    match next_span(text, from) {
        Some((open, end)) => seq![text.subrange(open as int, end as int)] + fragments_from(
            text,
            end,
        ),
        None => Seq::empty(),
    }
}

#[via_fn]
proof fn fragments_from_decreases(text: Seq<char>, from: nat) {
    lemma_next_span(text, from);
}

/// The page from `from` on with each fragment replaced by its rendering, the
/// fragments counted from `index`; the text between fragments stays as it is.
pub open spec fn transformed_from(
    text: Seq<char>,
    from: nat,
    outcomes: Seq<ParseOutcome>,
    index: nat,
    entries: Map<Seq<char>, SymbolEntry>,
) -> Seq<char>
    decreases text.len() - from,
    via transformed_from_decreases
{
    match next_span(text, from) {
        Some((open, end)) => text.subrange(from as int, open as int) + fragment_text(
            text.subrange(open as int, end as int),
            outcome_at(outcomes, index),
            entries,
        ) + transformed_from(text, end, outcomes, index + 1, entries),
        None => text.skip(from as int),
    }
}

#[via_fn]
proof fn transformed_from_decreases(
    text: Seq<char>,
    from: nat,
    outcomes: Seq<ParseOutcome>,
    index: nat,
    entries: Map<Seq<char>, SymbolEntry>,
) {
    lemma_next_span(text, from);
}

/// `first_delimiter` returns a position from `from` on at which a `$` stands,
/// with no `$` before it, or the length of the text.
pub proof fn lemma_first_delimiter(text: Seq<char>, from: nat)
    requires
        from <= text.len(),
    ensures
        from <= first_delimiter(text, from) <= text.len(),
        first_delimiter(text, from) < text.len() ==> text[first_delimiter(text, from) as int]
            == '$',
        forall|k: int| from <= k < first_delimiter(text, from) ==> text[k] != '$',
    decreases text.len() - from,
{
    if from < text.len() && text[from as int] != '$' {
        lemma_first_delimiter(text, from + 1);
    }
}

/// A fragment lies behind `from` within the text and holds at least three
/// characters: its two delimiters and something between them.
pub proof fn lemma_next_span(text: Seq<char>, from: nat)
    ensures
        next_span(text, from) matches Some((open, end)) ==> from <= open && open + 3 <= end && end
            <= text.len() && text[open as int] == '$' && text[end - 1] == '$',
{
    if from <= text.len() {
        lemma_first_delimiter(text, from);
        let open = first_delimiter(text, from);
        if open + 2 <= text.len() {
            lemma_first_delimiter(text, open + 2);
        }
    }
}

/// Finds the first `$` at or behind `from`.
fn find_delimiter(chars: &Vec<char>, from: usize) -> (at: usize)
    requires
        from <= chars.len(),
    ensures
        at == first_delimiter(chars@, from as nat),
        from <= at <= chars.len(),
{
    let mut at: usize = from;
    while at < chars.len() && chars[at] != '$'
        invariant
            from <= at <= chars.len(),
            first_delimiter(chars@, from as nat) == first_delimiter(chars@, at as nat),
        decreases chars.len() - at,
    {
        at += 1;
    }
    at
}

/// Finds the next fragment at or behind `from`.
fn find_span(chars: &Vec<char>, from: usize) -> (span: Option<(usize, usize)>)
    requires
        from <= chars.len(),
    ensures
        match span {
            Some((open, end)) => next_span(chars@, from as nat) == Some((open as nat, end as nat)),
            None => next_span(chars@, from as nat) is None,
        },
{
    let open = find_delimiter(chars, from);
    if open >= chars.len() || chars.len() - open < 2 {
        return None;
    }
    let close = find_delimiter(chars, open + 2);
    if close < chars.len() {
        Some((open, close + 1))
    } else {
        None
    }
}

/// The fragments of a page, each with its delimiters, in their order.
pub fn fragments(input: &str) -> (spans: Vec<String>)
    ensures
        texts(spans@) == fragments_from(input@, 0),
{
    let chars = chars_of(input);
    let mut spans: Vec<String> = Vec::new();
    let mut from: usize = 0;
    assert(texts(spans@) =~= Seq::<Seq<char>>::empty());
    loop
        invariant
            chars@ == input@,
            from <= chars.len(),
            fragments_from(input@, 0) == texts(spans@) + fragments_from(input@, from as nat),
        ensures
            fragments_from(input@, 0) == texts(spans@),
        decreases chars.len() - from,
    {
        match find_span(&chars, from) {
            Some((open, end)) => {
                proof {
                    lemma_next_span(chars@, from as nat);
                }
                let mut raw = String::new();
                push_chars(&mut raw, &chars, open, end);
                let ghost before = texts(spans@);
                spans.push(raw);
                assert(texts(spans@) =~= before + seq![chars@.subrange(open as int, end as int)]);
                from = end;
            },
            None => {
                assert(texts(spans@) + Seq::<Seq<char>>::empty() =~= texts(spans@));
                break;
            },
        }
    }
    spans
}

/// Rewrites a page: every fragment is replaced by its rendering, and the text
/// around the fragments is passed through as it is.
///
/// `outcomes` holds what parsing each fragment gave, in the order of
/// [`fragments`]. A fragment for which it holds nothing is rendered as one
/// that could not be parsed.
pub fn transform_from_typst(
    input: &str,
    outcomes: &Vec<ParseOutcome>,
    dict: &SymbolDictionary,
) -> (out: String)
    ensures
        out@ == transformed_from(input@, 0, outcomes@, 0, dict@),
{
    let chars = chars_of(input);
    let failed = ParseOutcome::Failed;
    let mut out = String::new();
    let mut from: usize = 0;
    let mut index: usize = 0;
    assert(out@ + transformed_from(input@, 0, outcomes@, 0, dict@) =~= transformed_from(
        input@,
        0,
        outcomes@,
        0,
        dict@,
    ));
    loop
        invariant_except_break
            transformed_from(input@, 0, outcomes@, 0, dict@) == out@ + transformed_from(
                input@,
                from as nat,
                outcomes@,
                index as nat,
                dict@,
            ),
        invariant
            chars@ == input@,
            from <= chars.len(),
            index <= from,
            failed == ParseOutcome::Failed,
        ensures
            out@ == transformed_from(input@, 0, outcomes@, 0, dict@),
        decreases chars.len() - from,
    {
        match find_span(&chars, from) {
            Some((open, end)) => {
                proof {
                    lemma_next_span(chars@, from as nat);
                }
                let ghost before = out@;
                push_chars(&mut out, &chars, from, open);
                let mut raw = String::new();
                push_chars(&mut raw, &chars, open, end);
                let outcome = if index < outcomes.len() {
                    &outcomes[index]
                } else {
                    &failed
                };
                let rendering = render_fragment(raw.as_str(), outcome, dict);
                out.append(rendering.as_str());
                assert(out@ + transformed_from(
                    input@,
                    end as nat,
                    outcomes@,
                    (index + 1) as nat,
                    dict@,
                ) =~= before + transformed_from(
                    input@,
                    from as nat,
                    outcomes@,
                    index as nat,
                    dict@,
                ));
                from = end;
                index += 1;
            },
            None => {
                push_chars(&mut out, &chars, from, chars.len());
                assert(chars@.subrange(from as int, chars.len() as int) =~= chars@.skip(
                    from as int,
                ));
                break;
            },
        }
    }
    out
}

} // verus!
