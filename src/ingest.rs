//! Expansion of documents into one record input per chunk.
use vstd::prelude::*;
use crate::metadata::{
    Entries, MetaValue, MetaValueView, Metadata, description_key, description_key_string,
    inserted, name_key, name_key_string,
};

verus! {

/// A document as a caller hands it in: a name, an optional description, its
/// text chunks and metadata shared by all of them.
pub struct Document {
    pub name: String,
    pub description: Option<String>,
    pub chunks: Vec<String>,
    pub metadata: Option<Metadata>,
}

pub open spec fn text_view(o: Option<String>) -> Option<Seq<char>> {
    match o {
        Some(s) => Some(s@),
        None => None,
    }
}

/// The shared metadata of a document, or the empty object where it has none.
pub open spec fn base_entries(m: Option<Metadata>) -> Entries {
    match m {
        Some(m) => m@,
        None => Seq::empty(),
    }
}

/// The shared metadata with the name set, then the description where there
/// is one.
pub open spec fn document_entries(
    name: Seq<char>,
    description: Option<Seq<char>>,
    base: Entries,
) -> Entries {
    let with_name = inserted(base, name_key(), MetaValueView::Text(name));
    match description {
        Some(d) => inserted(with_name, description_key(), MetaValueView::Text(d)),
        None => with_name,
    }
}

pub open spec fn entries_of(doc: Document) -> Entries {
    document_entries(doc.name@, text_view(doc.description), base_entries(doc.metadata))
}

/// The chunks of all documents, in order.
pub open spec fn chunk_texts(docs: Seq<Document>) -> Seq<Seq<char>>
    decreases docs.len(),
{
    if docs.len() == 0 {
        Seq::empty()
    } else {
        chunk_texts(docs.drop_last()) + docs.last().chunks@.map_values(|c: String| c@)
    }
}

/// For each chunk of `chunk_texts(docs)`, the metadata of its document.
pub open spec fn chunk_entries(docs: Seq<Document>) -> Seq<Entries>
    decreases docs.len(),
{
    if docs.len() == 0 {
        Seq::empty()
    } else {
        chunk_entries(docs.drop_last()) + Seq::new(
            docs.last().chunks@.len(),
            |i: int| entries_of(docs.last()),
        )
    }
}

/// The metadata that each chunk of `doc` is stored with.
pub fn document_metadata(doc: &Document) -> (r: Metadata)
    ensures
        r@ == entries_of(*doc),
{
    let mut m = match &doc.metadata {
        Some(base) => base.duplicate(),
        None => Metadata::new(),
    };
    m.insert(name_key_string(), MetaValue::Text(doc.name.clone()));
    match &doc.description {
        Some(d) => {
            m.insert(description_key_string(), MetaValue::Text(d.clone()));
        },
        None => {},
    }
    m
}

/// The texts and metadata of all chunks of all documents, in order: one
/// entry per chunk in each of the two.
pub fn flatten_documents(docs: &Vec<Document>) -> (r: (Vec<String>, Vec<Metadata>))
    ensures
        r.0@.map_values(|t: String| t@) == chunk_texts(docs@),
        r.1@.map_values(|m: Metadata| m@) == chunk_entries(docs@),
{
    let mut texts: Vec<String> = Vec::new();
    let mut metas: Vec<Metadata> = Vec::new();
    let mut i: usize = 0;
    while i < docs.len()
        invariant
            i <= docs@.len(),
            texts@.map_values(|t: String| t@) == chunk_texts(docs@.subrange(0, i as int)),
            metas@.map_values(|m: Metadata| m@) == chunk_entries(docs@.subrange(0, i as int)),
        decreases docs.len() - i,
    {
        let doc = &docs[i];
        let base = document_metadata(doc);
        let ghost texts0 = texts@.map_values(|t: String| t@);
        let ghost metas0 = metas@.map_values(|m: Metadata| m@);
        let ghost n0 = texts0.len() as int;
        let ghost m0 = metas0.len() as int;
        let mut j: usize = 0;
        while j < doc.chunks.len()
            invariant
                j <= doc.chunks@.len(),
                base@ == entries_of(*doc),
                n0 == texts0.len(),
                m0 == metas0.len(),
                texts@.len() == n0 + j,
                metas@.len() == m0 + j,
                forall|k: int| 0 <= k < n0 ==> texts@[k]@ == texts0[k],
                forall|k: int| 0 <= k < m0 ==> metas@[k]@ == metas0[k],
                forall|k: int| n0 <= k < n0 + j ==> texts@[k]@ == doc.chunks@[k - n0]@,
                forall|k: int| m0 <= k < m0 + j ==> metas@[k]@ == entries_of(*doc),
            decreases doc.chunks.len() - j,
        {
            let ghost t_before = texts@;
            let ghost m_before = metas@;
            texts.push(doc.chunks[j].clone());
            metas.push(base.duplicate());
            assert forall|k: int| n0 <= k < n0 + j + 1 implies texts@[k]@ == doc.chunks@[k
                - n0]@ by {
                if k < n0 + j {
                    assert(texts@[k] == t_before[k]);
                }
            }
            assert forall|k: int| m0 <= k < m0 + j + 1 implies metas@[k]@ == entries_of(*doc) by {
                if k < m0 + j {
                    assert(metas@[k] == m_before[k]);
                }
            }
            j = j + 1;
        }
        proof {
            let prefix = docs@.subrange(0, i as int + 1);
            assert(prefix.drop_last() =~= docs@.subrange(0, i as int));
            assert(prefix.last() == *doc);
            assert(texts@.map_values(|t: String| t@) =~= chunk_texts(prefix));
            assert(metas@.map_values(|m: Metadata| m@) =~= chunk_entries(prefix));
        }
        i = i + 1;
    }
    assert(docs@.subrange(0, docs@.len() as int) =~= docs@);
    (texts, metas)
}

} // verus!
