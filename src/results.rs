//! Reconstruction of search hits: the name and description of a record are
//! promoted out of its metadata.
use vstd::prelude::*;
use crate::ingest::{document_entries, text_view};
use crate::metadata::{
    Entries, MetaValue, MetaValueView, Metadata, decode_metadata, description_key,
    description_key_string, has_key, json_object_of, keys_unique, lemma_inserted_other,
    lemma_inserted_unique, lemma_keys_distinct, lemma_removed_other, lemma_removed_unique, lookup, name_key,
    name_key_string, removed,
};

verus! {

/// One search result, without its score.
pub struct SearchResult {
    pub id: String,
    pub name: String,
    pub content: String,
    pub metadata: Metadata,
    pub description: Option<String>,
}

/// The text that a value holds, where it is a string.
pub open spec fn text_in(v: Option<MetaValueView>) -> Option<Seq<char>> {
    match v {
        Some(MetaValueView::Text(s)) => Some(s),
        _ => None,
    }
}

/// The name that a record's metadata gives, empty where it gives none.
pub open spec fn promoted_name(m: Entries) -> Seq<char> {
    match text_in(lookup(m, name_key())) {
        Some(s) => s,
        None => Seq::empty(),
    }
}

/// The description that a record's metadata gives.
pub open spec fn promoted_description(m: Entries) -> Option<Seq<char>> {
    text_in(lookup(m, description_key()))
}

/// The metadata of a record without its name and description.
pub open spec fn remaining(m: Entries) -> Entries {
    removed(removed(m, name_key()), description_key())
}

/// The parsed metadata, or the empty object where it could not be parsed.
pub open spec fn parsed_or_empty(p: Option<Entries>) -> Entries {
    match p {
        Some(m) => m,
        None => Seq::empty(),
    }
}

/// The result for a hit whose stored metadata parsed to `parsed` (`None`
/// where it did not parse).
pub fn reconstruct(id: String, text: String, parsed: Option<Metadata>) -> (r: SearchResult)
    ensures
        r.id == id,
        r.content == text,
        ({
            let m = parsed_or_empty(
                match parsed {
                    Some(p) => Some(p@),
                    None => None,
                },
            );
            &&& r.metadata@ == remaining(m)
            &&& r.name@ == promoted_name(m)
            &&& text_view(r.description) == promoted_description(m)
        }),
{
    let mut meta = match parsed {
        Some(p) => p,
        None => Metadata::new(),
    };
    let ghost m = meta@;
    proof {
        use_type_invariant(&meta);
        lemma_keys_distinct();
        lemma_removed_other(m, name_key(), description_key());
    }
    let name = match meta.remove(&name_key_string()) {
        Some(MetaValue::Text(s)) => s,
        _ => String::new(),
    };
    proof {
        use_type_invariant(&meta);
    }
    let description = match meta.remove(&description_key_string()) {
        Some(MetaValue::Text(s)) => Some(s),
        _ => None,
    };
    SearchResult { id, name, content: text, metadata: meta, description }
}

/// The result for a hit whose metadata was stored as the text `stored`; text
/// that is no JSON object counts as the empty object.
pub fn reconstruct_stored(id: String, text: String, stored: &str) -> (r: SearchResult)
    ensures
        r.id == id,
        r.content == text,
        r.metadata@ == remaining(parsed_or_empty(json_object_of(stored@))),
        r.name@ == promoted_name(parsed_or_empty(json_object_of(stored@))),
        text_view(r.description) == promoted_description(parsed_or_empty(json_object_of(stored@))),
{
    reconstruct(id, text, decode_metadata(stored))
}

/// What a reconstructed result keeps of a record's metadata: no name and no
/// description, and every other key with the value it was stored with.
pub proof fn lemma_remaining_keeps_other_keys(m: Entries)
    requires
        keys_unique(m),
    ensures
        !has_key(remaining(m), name_key()),
        !has_key(remaining(m), description_key()),
        forall|k: Seq<char>|
            k != name_key() && k != description_key() ==> #[trigger] lookup(remaining(m), k)
                == lookup(m, k),
{
    lemma_keys_distinct();
    let without_name = removed(m, name_key());
    lemma_removed_unique(m, name_key());
    lemma_removed_unique(without_name, description_key());
    lemma_removed_other(without_name, description_key(), name_key());
    assert forall|k: Seq<char>|
        k != name_key() && k != description_key() implies #[trigger] lookup(remaining(m), k)
        == lookup(m, k) by {
        lemma_removed_other(m, name_key(), k);
        lemma_removed_other(without_name, description_key(), k);
    }
}

/// The metadata of a document's chunks holds its name and description, which
/// the results for those chunks report, and the shared metadata under every
/// other key (a document without a description leaves the shared one).
pub proof fn lemma_document_fields_promoted(
    name: Seq<char>,
    description: Option<Seq<char>>,
    base: Entries,
)
    requires
        keys_unique(base),
    ensures
        keys_unique(document_entries(name, description, base)),
        promoted_name(document_entries(name, description, base)) == name,
        description is Some ==> promoted_description(document_entries(name, description, base))
            == description,
        description is None ==> promoted_description(document_entries(name, description, base))
            == promoted_description(base),
        forall|k: Seq<char>|
            k != name_key() && k != description_key() ==> #[trigger] lookup(
                document_entries(name, description, base),
                k,
            ) == lookup(base, k),
{
    lemma_keys_distinct();
    let with_name = crate::metadata::inserted(base, name_key(), MetaValueView::Text(name));
    lemma_inserted_unique(base, name_key(), MetaValueView::Text(name));
    match description {
        Some(d) => {
            lemma_inserted_unique(with_name, description_key(), MetaValueView::Text(d));
            lemma_inserted_other(with_name, description_key(), MetaValueView::Text(d), name_key());
        },
        None => {
            lemma_inserted_other(base, name_key(), MetaValueView::Text(name), description_key());
        },
    }
    assert forall|k: Seq<char>| k != name_key() && k != description_key() implies #[trigger] lookup(
        document_entries(name, description, base),
        k,
    ) == lookup(base, k) by {
        lemma_inserted_other(base, name_key(), MetaValueView::Text(name), k);
        match description {
            Some(d) => {
                lemma_inserted_other(with_name, description_key(), MetaValueView::Text(d), k);
            },
            None => {},
        }
    }
}

} // verus!
