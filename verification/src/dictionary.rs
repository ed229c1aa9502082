//! The symbol dictionary: which replacement text each symbol stands for.
//!
//! The dictionary is a JSON document handled by `serde_json`. Verus cannot
//! look inside a `serde_json::Value`, so what the translator reads from one is
//! given a name, [`json_entries`], and the few `serde_json` calls that touch it
//! are wrapped in functions whose contracts are stated over that name and are
//! taken on trust.
use vstd::prelude::*;

verus! {

#[verifier::external_type_specification]
#[verifier::external_body]
pub struct ExValue(serde_json::Value);

/// What a dictionary binds a symbol key to.
pub enum SymbolEntry {
    /// A replacement text.
    Literal(Seq<char>),
    /// Replacement texts by variant name; `main` is the variant of the bare symbol.
    Variants(Map<Seq<char>, Seq<char>>),
}

/// The entries that a JSON value offers as a dictionary.
///
/// For a JSON object, a member whose value is a string is bound as
/// [`SymbolEntry::Literal`]; a member whose value is an object is bound as
/// [`SymbolEntry::Variants`], holding those members of the inner object whose
/// values are strings. Members of any other kind are not bound.
pub uninterp spec fn json_entries(value: serde_json::Value) -> Map<Seq<char>, SymbolEntry>;

/// The entries of the document that `serde_json::from_str` reads from `text`,
/// or `None` where it rejects the text.
pub uninterp spec fn json_document(text: Seq<char>) -> Option<Map<Seq<char>, SymbolEntry>>;

/// The entries of a dictionary that binds nothing.
pub open spec fn no_entries() -> Map<Seq<char>, SymbolEntry> {
    Map::empty()
}

/// The replacement text that `entries` binds `key` to directly.
pub open spec fn literal_of(entries: Map<Seq<char>, SymbolEntry>, key: Seq<char>) -> Option<
    Seq<char>,
> {
    if entries.contains_key(key) {
        match entries[key] {
            SymbolEntry::Literal(text) => Some(text),
            SymbolEntry::Variants(_) => None,
        }
    } else {
        None
    }
}

/// The replacement text that `entries` binds the variant `variant` of `key` to.
pub open spec fn variant_of(
    entries: Map<Seq<char>, SymbolEntry>,
    key: Seq<char>,
    variant: Seq<char>,
) -> Option<Seq<char>> {
    if entries.contains_key(key) {
        match entries[key] {
            SymbolEntry::Literal(_) => None,
            SymbolEntry::Variants(variants) => if variants.contains_key(variant) {
                Some(variants[variant])
            } else {
                None
            },
        }
    } else {
        None
    }
}

/// The entries of a parsed document, or none at all where there is no document.
pub open spec fn entries_or_empty(document: Option<Map<Seq<char>, SymbolEntry>>) -> Map<
    Seq<char>,
    SymbolEntry,
> {
    match document {
        Some(entries) => entries,
        None => no_entries(),
    }
}

/// Calls `serde_json::from_str` to read a `Value` from `text`.
///
/// Trusted: the call depends on the text alone, so its outcome is the named
/// [`json_document`]: a value with those entries, or `None` for a text that
/// `serde_json` rejects.
#[verifier::external_body]
fn parse_json(text: &str) -> (parsed: Option<serde_json::Value>)
    ensures
        match parsed {
            Some(value) => json_document(text@) == Some(json_entries(value)),
            None => json_document(text@) is None,
        },
{
    serde_json::from_str::<serde_json::Value>(text).ok()
}

/// Builds the empty JSON object from `serde_json::Map::new`.
///
/// Trusted: an object without members binds nothing.
#[verifier::external_body]
fn empty_object() -> (value: serde_json::Value)
    ensures
        json_entries(value) == no_entries(),
{
    serde_json::Value::Object(serde_json::Map::new())
}

/// Calls `serde_json::Value::get` with a string key and returns a copy of the
/// member if it is a JSON string.
///
/// Trusted: `get` returns the member of that name of an object and `None` for
/// anything else, so the result is the literal bound to `key`, if there is one.
#[verifier::external_body]
fn lookup_literal(value: &serde_json::Value, key: &str) -> (found: Option<String>)
    ensures
        match found {
            Some(text) => literal_of(json_entries(*value), key@) == Some(text@),
            None => literal_of(json_entries(*value), key@) is None,
        },
{
    match value.get(key) {
        Some(serde_json::Value::String(text)) => Some(text.clone()),
        _ => None,
    }
}

/// Calls `serde_json::Value::get` for `key` and, where that member is an
/// object, `serde_json::Map::get` for `variant`, and returns a copy of what is
/// found there if it is a JSON string.
///
/// Trusted: the result is the text bound to that variant of `key`, if `key`
/// is bound to an object and the object binds `variant` to a string.
#[verifier::external_body]
fn lookup_variant(value: &serde_json::Value, key: &str, variant: &str) -> (found: Option<String>)
    ensures
        match found {
            Some(text) => variant_of(json_entries(*value), key@, variant@) == Some(text@),
            None => variant_of(json_entries(*value), key@, variant@) is None,
        },
{
    match value.get(key) {
        Some(serde_json::Value::Object(members)) => match members.get(variant) {
            Some(serde_json::Value::String(text)) => Some(text.clone()),
            _ => None,
        },
        _ => None,
    }
}

/// An immutable mapping from symbol keys to replacement texts.
pub struct SymbolDictionary {
    value: serde_json::Value,
}

impl View for SymbolDictionary {
    type V = Map<Seq<char>, SymbolEntry>;

    closed spec fn view(&self) -> Map<Seq<char>, SymbolEntry> {
        json_entries(self.value)
    }
}

impl SymbolDictionary {
    /// The dictionary that binds nothing.
    pub fn empty() -> (dict: SymbolDictionary)
        ensures
            dict@ == no_entries(),
    {
        SymbolDictionary { value: empty_object() }
    }

    /// The dictionary that a JSON value offers.
    pub fn from_value(value: serde_json::Value) -> (dict: SymbolDictionary)
        ensures
            dict@ == json_entries(value),
    {
        SymbolDictionary { value }
    }

    /// The replacement text bound to `key` directly.
    pub fn literal(&self, key: &str) -> (found: Option<String>)
        ensures
            match found {
                Some(text) => literal_of(self@, key@) == Some(text@),
                None => literal_of(self@, key@) is None,
            },
    {
        lookup_literal(&self.value, key)
    }

    /// The replacement text bound to the variant `variant` of `key`.
    pub fn variant(&self, key: &str, variant: &str) -> (found: Option<String>)
        ensures
            match found {
                Some(text) => variant_of(self@, key@, variant@) == Some(text@),
                None => variant_of(self@, key@, variant@) is None,
            },
    {
        lookup_variant(&self.value, key, variant)
    }
}

/// The dictionary of a parsed document; a document that could not be parsed
/// gives the empty dictionary.
pub fn dictionary_or_empty(parsed: Option<serde_json::Value>) -> (dict: SymbolDictionary)
    ensures
        dict@ == match parsed {
            Some(value) => json_entries(value),
            None => no_entries(),
        },
{
    match parsed {
        Some(value) => SymbolDictionary::from_value(value),
        None => SymbolDictionary::empty(),
    }
}

/// Reads the dictionary from its JSON text. Malformed text gives the empty
/// dictionary.
pub fn load_dict(text: &str) -> (dict: SymbolDictionary)
    ensures
        dict@ == entries_or_empty(json_document(text@)),
{
    dictionary_or_empty(parse_json(text))
}

} // verus!
