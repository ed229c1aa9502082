//! Symbol resolution: identifiers and field chains looked up in the dictionary.
use vstd::prelude::*;
use crate::dictionary::{literal_of, variant_of, SymbolDictionary, SymbolEntry};
use crate::node::MathNode;
use crate::text::{diagnostic, diagnostic_text, join, joined, texts};

verus! {

/// The text that a bare identifier named `name` stands for.
pub open spec fn identifier_text(entries: Map<Seq<char>, SymbolEntry>, name: Seq<char>) -> Seq<
    char,
> {
    match literal_of(entries, name) {
        Some(text) => text,
        None => match variant_of(entries, name, "main"@) {
            Some(text) => text,
            None => diagnostic("no command"@, name),
        },
    }
}

/// Resolves a bare identifier: a literal entry as it is, an entry with
/// variants by its `main` variant, anything else by a diagnostic that names
/// the identifier.
pub fn analysis_math_indent(name: &str, dict: &SymbolDictionary) -> (out: String)
    ensures
        out@ == identifier_text(dict@, name@),
        literal_of(dict@, name@) matches Some(text) ==> out@ == text,
        variant_of(dict@, name@, "main"@) matches Some(text) ==> out@ == text,
{
    match dict.literal(name) {
        Some(text) => text,
        None => match dict.variant(name, "main") {
            Some(text) => text,
            None => diagnostic_text("no command", name),
        },
    }
}

/// The field names that a chain of field accesses collects below `target`,
/// outermost first.
pub open spec fn inner_fields(target: MathNode) -> Seq<Seq<char>>
    decreases target,
{
    match target {
        MathNode::FieldAccess { target: inner, field, .. } => seq![field@] + inner_fields(*inner),
        _ => Seq::empty(),
    }
}

/// The field names of the whole chain that ends in `field`, in the order in
/// which they are met.
pub open spec fn chain_fields(target: MathNode, field: Seq<char>) -> Seq<Seq<char>> {
    seq![field] + inner_fields(target)
}

/// The node at which a chain of field accesses starts.
pub open spec fn chain_root(target: MathNode) -> MathNode
    decreases target,
{
    match target {
        MathNode::FieldAccess { target: inner, .. } => chain_root(*inner),
        _ => target,
    }
}

/// The description of the innermost field access of a chain.
pub open spec fn chain_description(target: MathNode, description: Seq<char>) -> Seq<char>
    decreases target,
{
    match target {
        MathNode::FieldAccess { target: inner, description: below, .. } => chain_description(
            *inner,
            below@,
        ),
        _ => description,
    }
}

/// The views of a list of orderings.
pub open spec fn orderings_view(orderings: Seq<Vec<String>>) -> Seq<Seq<Seq<char>>> {
    orderings.map_values(|ordering: Vec<String>| texts(ordering@))
}

/// The text bound to the first of `orderings` whose names, joined with `.`,
/// are a variant of `key`.
pub open spec fn first_hit(
    entries: Map<Seq<char>, SymbolEntry>,
    key: Seq<char>,
    orderings: Seq<Seq<Seq<char>>>,
) -> Option<Seq<char>>
    decreases orderings.len(),
{
    if orderings.len() == 0 {
        None
    } else {
        match variant_of(entries, key, joined(orderings.first(), "."@)) {
            Some(text) => Some(text),
            None => first_hit(entries, key, orderings.drop_first()),
        }
    }
}

/// Whether `ordering` holds the same names as `items`, each as often.
pub open spec fn is_ordering_of(ordering: Seq<Seq<char>>, items: Seq<Seq<char>>) -> bool {
    ordering.to_multiset() == items.to_multiset()
}

/// Whether `orderings` holds orderings of `items` only, and every one of them.
pub open spec fn lists_every_ordering(
    orderings: Seq<Seq<Seq<char>>>,
    items: Seq<Seq<char>>,
) -> bool {
    &&& forall|i: int|
        0 <= i < orderings.len() ==> is_ordering_of(#[trigger] orderings[i], items)
    &&& forall|ordering: Seq<Seq<char>>| #[trigger]
        is_ordering_of(ordering, items) ==> orderings.contains(ordering)
}

/// The orderings of `items` in the order in which `itertools` generates them.
pub uninterp spec fn generated_orderings(items: Seq<Seq<char>>) -> Seq<Seq<Seq<char>>>;

/// The text that `{:?}` formatting gives for a list of strings.
pub uninterp spec fn debug_list(items: Seq<Seq<char>>) -> Seq<char>;

/// Calls `itertools::Itertools::permutations` on the names, with their number
/// as the length, and collects what it yields.
///
/// Trusted: the call depends on the names alone, so the result is the named
/// [`generated_orderings`]; as documented, it iterates over all permutations
/// of the elements, so each item is an ordering of the names and every
/// ordering of them is among the items.
#[verifier::external_body]
fn field_orderings(fields: &Vec<String>) -> (orderings: Vec<Vec<String>>)
    ensures
        orderings_view(orderings@) == generated_orderings(texts(fields@)),
        lists_every_ordering(orderings_view(orderings@), texts(fields@)),
{
    itertools::Itertools::permutations(fields.iter().cloned(), fields.len()).collect()
}

/// Formats the names with `{:?}`, as `std` does for a `Vec<String>`.
///
/// Trusted: the text depends on the names alone, so it is the named
/// [`debug_list`].
#[verifier::external_body]
fn debug_list_text(fields: &Vec<String>) -> (out: String)
    ensures
        out@ == debug_list(texts(fields@)),
{
    format!("{:?}", fields)
}

/// Probes the variants of `key` with each ordering in turn, its names joined
/// with `.`, and returns the text of the first that is bound.
pub fn probe_orderings(dict: &SymbolDictionary, key: &str, orderings: &Vec<Vec<String>>) -> (found:
    Option<String>)
    ensures
        match found {
            Some(text) => first_hit(dict@, key@, orderings_view(orderings@)) == Some(text@),
            None => first_hit(dict@, key@, orderings_view(orderings@)) is None,
        },
{
    let ghost all = orderings_view(orderings@);
    let mut i: usize = 0;
    assert(all.skip(0) =~= all);
    while i < orderings.len()
        invariant
            i <= orderings.len(),
            all == orderings_view(orderings@),
            first_hit(dict@, key@, all) == first_hit(dict@, key@, all.skip(i as int)),
        decreases orderings.len() - i,
    {
        let name = join(&orderings[i], ".");
        proof {
            assert(all.skip(i as int).first() == texts(orderings@[i as int]@));
            assert(all.skip(i as int).drop_first() =~= all.skip(i + 1));
        }
        match dict.variant(key, name.as_str()) {
            Some(text) => {
                return Some(text);
            },
            None => {},
        }
        i += 1;
    }
    assert(all.skip(orderings.len() as int).len() == 0);
    None
}

/// The text that probing `ordering` finds among the variants of `key`.
pub open spec fn bound_text(
    entries: Map<Seq<char>, SymbolEntry>,
    key: Seq<char>,
    ordering: Seq<Seq<char>>,
) -> Option<Seq<char>> {
    variant_of(entries, key, joined(ordering, "."@))
}

/// The text that a chain of field accesses stands for, given the orderings of
/// its field names that are to be probed.
///
/// The chain must start at an identifier. The first ordering that is bound
/// among the variants of that identifier decides; where none is, or the
/// identifier has no variants, the diagnostic carries the description of the
/// innermost field access.
pub open spec fn field_access_text(
    entries: Map<Seq<char>, SymbolEntry>,
    target: MathNode,
    field: Seq<char>,
    description: Seq<char>,
    orderings: Seq<Seq<Seq<char>>>,
) -> Seq<char> {
    match chain_root(target) {
        MathNode::Identifier(key) => match first_hit(entries, key@, orderings) {
            Some(text) => text,
            None => diagnostic(
                "unsupported field target"@,
                chain_description(target, description),
            ),
        },
        _ => diagnostic("fields"@, debug_list(chain_fields(target, field))),
    }
}

/// Whether `out` is what a chain with these field names may resolve to: the
/// text bound to one of their orderings where any is bound, else `fallback`.
pub open spec fn resolves_chain(
    entries: Map<Seq<char>, SymbolEntry>,
    key: Seq<char>,
    fields: Seq<Seq<char>>,
    fallback: Seq<char>,
    out: Seq<char>,
) -> bool {
    if exists|ordering: Seq<Seq<char>>|
        is_ordering_of(ordering, fields) && #[trigger] bound_text(entries, key, ordering) is Some {
        exists|ordering: Seq<Seq<char>>|
            is_ordering_of(ordering, fields) && #[trigger] bound_text(entries, key, ordering)
                == Some(out)
    } else {
        out == fallback
    }
}

/// What `first_hit` returns is bound to one of the orderings, and it returns
/// `None` only where none of them is bound.
pub proof fn lemma_first_hit(
    entries: Map<Seq<char>, SymbolEntry>,
    key: Seq<char>,
    orderings: Seq<Seq<Seq<char>>>,
)
    ensures
        match first_hit(entries, key, orderings) {
            Some(text) => exists|i: int|
                0 <= i < orderings.len() && #[trigger] bound_text(entries, key, orderings[i])
                    == Some(text),
            None => forall|i: int|
                0 <= i < orderings.len() ==> #[trigger] bound_text(entries, key, orderings[i])
                    is None,
        },
    decreases orderings.len(),
{
    if orderings.len() > 0 {
        let rest = orderings.drop_first();
        lemma_first_hit(entries, key, rest);
        match bound_text(entries, key, orderings.first()) {
            Some(text) => {
                assert(bound_text(entries, key, orderings[0]) == Some(text));
            },
            None => {
                match first_hit(entries, key, rest) {
                    Some(text) => {
                        let i = choose|i: int|
                            0 <= i < rest.len() && #[trigger] bound_text(entries, key, rest[i])
                                == Some(text);
                        assert(rest[i] == orderings[i + 1]);
                        assert(bound_text(entries, key, orderings[i + 1]) == Some(text));
                    },
                    None => {
                        assert forall|i: int| 0 <= i < orderings.len() implies #[trigger] bound_text(
                            entries,
                            key,
                            orderings[i],
                        ) is None by {
                            if i > 0 {
                                assert(rest[i - 1] == orderings[i]);
                            }
                        }
                    },
                }
            },
        }
    }
}

/// Where `orderings` lists every ordering of `fields`, the first hit among
/// them is a text bound to one ordering of `fields`, and there is none only
/// where no ordering of `fields` is bound.
pub proof fn lemma_first_hit_resolves(
    entries: Map<Seq<char>, SymbolEntry>,
    key: Seq<char>,
    fields: Seq<Seq<char>>,
    orderings: Seq<Seq<Seq<char>>>,
    fallback: Seq<char>,
)
    requires
        lists_every_ordering(orderings, fields),
    ensures
        resolves_chain(
            entries,
            key,
            fields,
            fallback,
            match first_hit(entries, key, orderings) {
                Some(text) => text,
                None => fallback,
            },
        ),
{
    lemma_first_hit(entries, key, orderings);
    match first_hit(entries, key, orderings) {
        Some(text) => {
            let i = choose|i: int|
                0 <= i < orderings.len() && #[trigger] bound_text(entries, key, orderings[i])
                    == Some(text);
            assert(is_ordering_of(orderings[i], fields));
        },
        None => {
            assert forall|ordering: Seq<Seq<char>>| is_ordering_of(ordering, fields) implies !(
            #[trigger] bound_text(entries, key, ordering) is Some) by {
                assert(orderings.contains(ordering));
                let i = choose|i: int| 0 <= i < orderings.len() && orderings[i] == ordering;
                assert(bound_text(entries, key, orderings[i]) is None);
            }
        },
    }
}

/// Appends to `fields` the field names below `target`, outermost first.
fn collect_fields(target: &MathNode, fields: &mut Vec<String>)
    ensures
        texts(final(fields)@) == texts(old(fields)@) + inner_fields(*target),
    decreases *target,
{
    match target {
        MathNode::FieldAccess { target: inner, field, .. } => {
            fields.push(field.clone());
            let ghost pushed = fields@;
            collect_fields(inner, fields);
            assert(texts(fields@) =~= texts(old(fields)@) + inner_fields(*target)) by {
                assert(texts(pushed) =~= texts(old(fields)@) + seq![field@]);
            }
        },
        _ => {
            assert(texts(fields@) =~= texts(old(fields)@) + inner_fields(*target));
        },
    }
}

/// The node at which the chain starts, and the description of its innermost
/// field access.
fn chain_end<'a>(target: &'a MathNode, description: &'a str) -> (end: (&'a MathNode, &'a str))
    ensures
        *end.0 == chain_root(*target),
        end.1@ == chain_description(*target, description@),
    decreases *target,
{
    match target {
        MathNode::FieldAccess { target: inner, description: below, .. } => chain_end(
            inner,
            below.as_str(),
        ),
        _ => (target, description),
    }
}

/// Resolves a chain of field accesses that ends in `field` on `target`.
///
/// The field names of the chain are collected down to its root. A root that
/// is an identifier is looked up, and every ordering of the field names,
/// joined with `.`, is probed among its variants; the first that is bound
/// gives the result. Which ordering comes first is up to the generator, so the
/// result is stated twice: exactly, over the generator's order, and without
/// it, as the text of some bound ordering.
pub fn analysis_field_access(
    target: &MathNode,
    field: &str,
    description: &str,
    dict: &SymbolDictionary,
) -> (out: String)
    ensures
        out@ == field_access_text(
            dict@,
            *target,
            field@,
            description@,
            generated_orderings(chain_fields(*target, field@)),
        ),
        chain_root(*target) matches MathNode::Identifier(key) ==> resolves_chain(
            dict@,
            key@,
            chain_fields(*target, field@),
            diagnostic("unsupported field target"@, chain_description(*target, description@)),
            out@,
        ),
{
    let mut fields: Vec<String> = Vec::new();
    fields.push(String::from_str(field));
    assert(texts(fields@) =~= seq![field@]);
    collect_fields(target, &mut fields);
    let (root, innermost) = chain_end(target, description);
    match root {
        MathNode::Identifier(key) => {
            let orderings = field_orderings(&fields);
            proof {
                lemma_first_hit_resolves(
                    dict@,
                    key@,
                    texts(fields@),
                    orderings_view(orderings@),
                    diagnostic("unsupported field target"@, innermost@),
                );
            }
            match probe_orderings(dict, key.as_str(), &orderings) {
                Some(text) => text,
                None => diagnostic_text("unsupported field target", innermost),
            }
        },
        _ => {
            let listed = debug_list_text(&fields);
            diagnostic_text("fields", listed.as_str())
        },
    }
}

} // verus!
