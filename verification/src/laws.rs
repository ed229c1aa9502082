//! Laws of the translator, proved from the definitions that its contracts use.
use vstd::prelude::*;
use crate::dictionary::SymbolEntry;
use crate::extract::{first_delimiter, lemma_first_delimiter, transformed_from};
use crate::node::{MathNode, ParseOutcome};
use crate::resolve::{
    bound_text, chain_fields, chain_root, field_access_text, first_hit, is_ordering_of,
    lemma_first_hit, lists_every_ordering,
};
use crate::text::diagnostic;
use crate::translate::{translation, translation_of_all};

verus! {

/// A bare identifier whose key is bound to a literal text translates to
/// exactly that text.
pub proof fn lemma_literal_identifier(
    entries: Map<Seq<char>, SymbolEntry>,
    name: String,
    text: Seq<char>,
)
    requires
        entries.contains_key(name@),
        entries[name@] == SymbolEntry::Literal(text),
    ensures
        translation(MathNode::Identifier(name), entries) == text,
{
}

/// A bare identifier whose key is bound to variants, `main` among them,
/// translates to the text of `main`.
pub proof fn lemma_main_variant_identifier(
    entries: Map<Seq<char>, SymbolEntry>,
    name: String,
    variants: Map<Seq<char>, Seq<char>>,
)
    requires
        entries.contains_key(name@),
        entries[name@] == SymbolEntry::Variants(variants),
        variants.contains_key("main"@),
    ensures
        translation(MathNode::Identifier(name), entries) == variants["main"@],
{
}

/// Whether all orderings of `fields` that are bound among the variants of
/// `key` are bound to the same text.
pub open spec fn bound_orderings_agree(
    entries: Map<Seq<char>, SymbolEntry>,
    key: Seq<char>,
    fields: Seq<Seq<char>>,
) -> bool {
    forall|first: Seq<Seq<char>>, second: Seq<Seq<char>>|
        is_ordering_of(first, fields) && is_ordering_of(second, fields) && (#[trigger] bound_text(
            entries,
            key,
            first,
        )) is Some && (#[trigger] bound_text(entries, key, second)) is Some ==> bound_text(
            entries,
            key,
            first,
        ) == bound_text(entries, key, second)
}

/// Field chains resolve alike in whatever order their names were collected.
///
/// Two lists of the same field names, each probed through a list of all its
/// orderings, find the same text or both find none, provided that the
/// orderings that are bound at all are bound to one text. Without that
/// proviso the order of probing decides between the bound texts.
pub proof fn lemma_field_order_insensitive(
    entries: Map<Seq<char>, SymbolEntry>,
    key: Seq<char>,
    fields: Seq<Seq<char>>,
    reordered: Seq<Seq<char>>,
    orderings: Seq<Seq<Seq<char>>>,
    reordered_orderings: Seq<Seq<Seq<char>>>,
)
    requires
        is_ordering_of(reordered, fields),
        lists_every_ordering(orderings, fields),
        lists_every_ordering(reordered_orderings, reordered),
        bound_orderings_agree(entries, key, fields),
    ensures
        first_hit(entries, key, orderings) == first_hit(entries, key, reordered_orderings),
{
    lemma_first_hit(entries, key, orderings);
    lemma_first_hit(entries, key, reordered_orderings);
    match first_hit(entries, key, orderings) {
        Some(text) => {
            let i = choose|i: int|
                0 <= i < orderings.len() && #[trigger] bound_text(entries, key, orderings[i])
                    == Some(text);
            assert(is_ordering_of(orderings[i], fields));
            assert(is_ordering_of(orderings[i], reordered));
            assert(reordered_orderings.contains(orderings[i]));
            let j = choose|j: int|
                0 <= j < reordered_orderings.len() && reordered_orderings[j] == orderings[i];
            assert(bound_text(entries, key, reordered_orderings[j]) == Some(text));
            match first_hit(entries, key, reordered_orderings) {
                Some(other) => {
                    let k = choose|k: int|
                        0 <= k < reordered_orderings.len() && #[trigger] bound_text(
                            entries,
                            key,
                            reordered_orderings[k],
                        ) == Some(other);
                    assert(is_ordering_of(reordered_orderings[k], reordered));
                    assert(is_ordering_of(reordered_orderings[k], fields));
                },
                None => {},
            }
        },
        None => {
            match first_hit(entries, key, reordered_orderings) {
                Some(other) => {
                    let k = choose|k: int|
                        0 <= k < reordered_orderings.len() && #[trigger] bound_text(
                            entries,
                            key,
                            reordered_orderings[k],
                        ) == Some(other);
                    assert(is_ordering_of(reordered_orderings[k], reordered));
                    assert(is_ordering_of(reordered_orderings[k], fields));
                    assert(orderings.contains(reordered_orderings[k]));
                    let i = choose|i: int|
                        0 <= i < orderings.len() && orderings[i] == reordered_orderings[k];
                    assert(bound_text(entries, key, orderings[i]) is None);
                },
                None => {},
            }
        },
    }
}

/// Two chains on one identifier whose field names are the same, collected in
/// different orders, translate to the same text wherever one of them finds a
/// bound ordering, under the proviso of [`lemma_field_order_insensitive`].
pub proof fn lemma_equivalent_chains_resolve_alike(
    entries: Map<Seq<char>, SymbolEntry>,
    key: String,
    target: MathNode,
    field: Seq<char>,
    description: Seq<char>,
    other_target: MathNode,
    other_field: Seq<char>,
    other_description: Seq<char>,
    orderings: Seq<Seq<Seq<char>>>,
    other_orderings: Seq<Seq<Seq<char>>>,
)
    requires
        chain_root(target) == MathNode::Identifier(key),
        chain_root(other_target) == MathNode::Identifier(key),
        is_ordering_of(chain_fields(other_target, other_field), chain_fields(target, field)),
        lists_every_ordering(orderings, chain_fields(target, field)),
        lists_every_ordering(other_orderings, chain_fields(other_target, other_field)),
        bound_orderings_agree(entries, key@, chain_fields(target, field)),
        first_hit(entries, key@, orderings) is Some || first_hit(entries, key@, other_orderings)
            is Some,
    ensures
        field_access_text(entries, target, field, description, orderings) == field_access_text(
            entries,
            other_target,
            other_field,
            other_description,
            other_orderings,
        ),
{
    lemma_field_order_insensitive(
        entries,
        key@,
        chain_fields(target, field),
        chain_fields(other_target, other_field),
        orderings,
        other_orderings,
    );
}

/// The translation of a list of nodes is that of its front part followed by
/// that of its back part.
pub proof fn lemma_translation_of_all_concat(
    front: Seq<MathNode>,
    back: Seq<MathNode>,
    entries: Map<Seq<char>, SymbolEntry>,
)
    ensures
        translation_of_all(front + back, entries) == translation_of_all(front, entries)
            + translation_of_all(back, entries),
    decreases back.len(),
{
    if back.len() == 0 {
        assert(front + back =~= front);
        assert(translation_of_all(front, entries) + Seq::<char>::empty() =~= translation_of_all(
            front,
            entries,
        ));
    } else {
        lemma_translation_of_all_concat(front, back.drop_last(), entries);
        assert((front + back).drop_last() =~= front + back.drop_last());
        assert((front + back).last() == back.last());
        assert(translation_of_all(front + back, entries) =~= translation_of_all(front, entries)
            + translation_of_all(back, entries));
    }
}

/// Every child of a sequence contributes its own translation at its own
/// place, whatever its neighbours are.
pub proof fn lemma_sequence_child(
    children: Vec<MathNode>,
    i: int,
    entries: Map<Seq<char>, SymbolEntry>,
)
    requires
        0 <= i < children@.len(),
    ensures
        translation(MathNode::Sequence(children), entries) == translation_of_all(
            children@.take(i),
            entries,
        ) + translation(children@[i], entries) + translation_of_all(
            children@.skip(i + 1),
            entries,
        ),
{
    let front = children@.take(i);
    let one = seq![children@[i]];
    let back = children@.skip(i + 1);
    assert(children@ =~= front + one + back);
    lemma_translation_of_all_concat(front + one, back, entries);
    lemma_translation_of_all_concat(front, one, entries);
    assert(one.drop_last() =~= Seq::<MathNode>::empty());
    assert(translation_of_all(one.drop_last(), entries) =~= Seq::<char>::empty());
    assert(one.last() == children@[i]);
    assert(translation_of_all(one, entries) =~= translation(children@[i], entries));
}

/// An identifier that the dictionary does not know stops nothing: in its
/// place stands a diagnostic, and the children before and behind it are
/// translated as they would be without it.
pub proof fn lemma_unknown_identifier_is_local(
    children: Vec<MathNode>,
    i: int,
    name: String,
    entries: Map<Seq<char>, SymbolEntry>,
)
    requires
        0 <= i < children@.len(),
        children@[i] == MathNode::Identifier(name),
        !entries.contains_key(name@),
    ensures
        translation(MathNode::Sequence(children), entries) == translation_of_all(
            children@.take(i),
            entries,
        ) + diagnostic("no command"@, name@) + translation_of_all(children@.skip(i + 1), entries),
{
    lemma_sequence_child(children, i, entries);
}

/// Whether `text` is a single brace.
pub open spec fn is_brace(text: Seq<char>) -> bool {
    text == seq!['{'] || text == seq!['}']
}

/// A delimiter that translates to a brace is never written bare: behind
/// `\left` and `\right` it stands with a backslash before it.
pub proof fn lemma_brace_delimiters_are_escaped(
    open: MathNode,
    body: Vec<MathNode>,
    close: MathNode,
    entries: Map<Seq<char>, SymbolEntry>,
)
    requires
        is_brace(translation(open, entries)),
        is_brace(translation(close, entries)),
    ensures
        translation(
            MathNode::Delimited { open: Box::new(open), body, close: Box::new(close) },
            entries,
        ) == "{\\left"@ + seq!['\\'] + translation(open, entries) + translation_of_all(
            body@,
            entries,
        ) + "\\right"@ + seq!['\\'] + translation(close, entries) + "}"@,
{
    reveal_strlit("{");
    reveal_strlit("}");
    reveal_strlit("\\{");
    reveal_strlit("\\}");
    assert("{"@ =~= seq!['{']);
    assert("}"@ =~= seq!['}']);
    assert("\\{"@ =~= seq!['\\'] + seq!['{']);
    assert("\\}"@ =~= seq!['\\'] + seq!['}']);
    let left = translation(open, entries);
    let right = translation(close, entries);
    let inner = translation_of_all(body@, entries);
    assert("{\\left"@ + (seq!['\\'] + left) + inner + "\\right"@ + (seq!['\\'] + right) + "}"@
        =~= "{\\left"@ + seq!['\\'] + left + inner + "\\right"@ + seq!['\\'] + right + "}"@);
}

/// A diagnostic is an HTML comment and never empty.
pub proof fn lemma_diagnostic_is_a_comment(label: Seq<char>, detail: Seq<char>)
    ensures
        diagnostic(label, detail).len() == label.len() + detail.len() + 11,
        diagnostic(label, detail).take(5) == "<!-- "@,
        diagnostic(label, detail).skip(diagnostic(label, detail).len() - 4) == " -->"@,
{
    reveal_strlit("<!-- ");
    reveal_strlit(": ");
    reveal_strlit(" -->");
    let text = diagnostic(label, detail);
    assert(text.take(5) =~= "<!-- "@);
    assert(text.skip(text.len() - 4) =~= " -->"@);
}

/// A page without a `$` holds no fragment and is passed through as it is.
pub proof fn lemma_page_without_delimiter_is_unchanged(
    text: Seq<char>,
    outcomes: Seq<ParseOutcome>,
    entries: Map<Seq<char>, SymbolEntry>,
)
    requires
        !text.contains('$'),
    ensures
        transformed_from(text, 0, outcomes, 0, entries) == text,
{
    lemma_first_delimiter(text, 0);
    let open = first_delimiter(text, 0);
    if open < text.len() {
        assert(text[open as int] == '$');
    }
    assert(first_delimiter(text, open + 2) == text.len());
    assert(text.skip(0) =~= text);
}

} // verus!
