use lance_mcp::embedding::{check_batch, order_by_index, EmbedError};
use lance_mcp::ingest::{document_metadata, flatten_documents, Document};
use lance_mcp::metadata::{MetaValue, Metadata};
use lance_mcp::packing::{pack_batch, pack_tokenized, prepare_local_batch, TokenizedText};
use lance_mcp::response::ApiResponse;
use lance_mcp::results::{reconstruct, reconstruct_stored};
use lance_mcp::store::{
    batch_dimension, build_records, metadata_text, search_table, table_action, StoreError,
    TableAction,
};

fn text_of(v: Option<&MetaValue>) -> Option<String> {
    match v {
        Some(MetaValue::Text(s)) => Some(s.clone()),
        _ => None,
    }
}

fn keys(m: &Metadata) -> Vec<String> {
    m.entries().iter().map(|e| e.0.clone()).collect()
}

fn doc(name: &str, description: Option<&str>, chunks: &[&str], metadata: Option<Metadata>) -> Document {
    Document {
        name: name.to_string(),
        description: description.map(|d| d.to_string()),
        chunks: chunks.iter().map(|c| c.to_string()).collect(),
        metadata,
    }
}

#[test]
fn metadata_insert_replaces_in_place() {
    let mut m = Metadata::new();
    m.insert("a".to_string(), MetaValue::Text("1".to_string()));
    m.insert("b".to_string(), MetaValue::Text("2".to_string()));
    m.insert("a".to_string(), MetaValue::Text("3".to_string()));
    assert_eq!(keys(&m), vec!["a".to_string(), "b".to_string()]);
    assert_eq!(text_of(m.get(&"a".to_string())), Some("3".to_string()));
    assert_eq!(m.len(), 2);
}

#[test]
fn metadata_remove_keeps_others() {
    let mut m = Metadata::new();
    m.insert("a".to_string(), MetaValue::Text("1".to_string()));
    m.insert("b".to_string(), MetaValue::Other(serde_json::Value::from(7)));
    let taken = m.remove(&"a".to_string());
    assert_eq!(text_of(taken.as_ref()), Some("1".to_string()));
    assert!(m.remove(&"a".to_string()).is_none());
    assert_eq!(keys(&m), vec!["b".to_string()]);
}

#[test]
fn document_metadata_injects_name_and_description() {
    let mut base = Metadata::new();
    base.insert("source".to_string(), MetaValue::Text("web".to_string()));
    let d = doc("N", Some("D"), &["c1", "c2"], Some(base));
    let m = document_metadata(&d);
    assert_eq!(keys(&m), vec!["source".to_string(), "name".to_string(), "description".to_string()]);
    assert_eq!(text_of(m.get(&"name".to_string())), Some("N".to_string()));
    assert_eq!(text_of(m.get(&"description".to_string())), Some("D".to_string()));
}

#[test]
fn document_without_metadata_gets_name_only() {
    let d = doc("", None, &["x"], None);
    let m = document_metadata(&d);
    assert_eq!(keys(&m), vec!["name".to_string()]);
    assert_eq!(text_of(m.get(&"name".to_string())), Some(String::new()));
}

#[test]
fn two_chunks_report_name_and_description() {
    let mut base = Metadata::new();
    base.insert("lang".to_string(), MetaValue::Text("en".to_string()));
    let docs = vec![doc("N", Some("D"), &["c1", "c2"], Some(base)), doc("M", None, &[], None)];
    let (texts, metas) = flatten_documents(&docs);
    assert_eq!(texts, vec!["c1".to_string(), "c2".to_string()]);
    assert_eq!(metas.len(), 2);
    for (i, m) in metas.into_iter().enumerate() {
        let r = reconstruct(format!("id{}", i), texts[i].clone(), Some(m));
        assert_eq!(r.name, "N");
        assert_eq!(r.description, Some("D".to_string()));
        assert_eq!(r.content, texts[i]);
        assert_eq!(keys(&r.metadata), vec!["lang".to_string()]);
    }
}

#[test]
fn flatten_keeps_document_order() {
    let docs = vec![doc("A", None, &["a1"], None), doc("B", None, &["b1", "b2"], None)];
    let (texts, metas) = flatten_documents(&docs);
    assert_eq!(texts, vec!["a1".to_string(), "b1".to_string(), "b2".to_string()]);
    let names: Vec<Option<String>> = metas.iter().map(|m| text_of(m.get(&"name".to_string()))).collect();
    assert_eq!(names, vec![Some("A".to_string()), Some("B".to_string()), Some("B".to_string())]);
}

#[test]
fn unparsable_metadata_reads_as_empty() {
    let r = reconstruct_stored("id".to_string(), "t".to_string(), "not json");
    assert_eq!(r.metadata.len(), 0);
    assert_eq!(r.name, "");
    assert_eq!(r.description, None);
    assert_eq!(r.content, "t");
    let r = reconstruct_stored("id".to_string(), "t".to_string(), "[1, 2]");
    assert_eq!(r.metadata.len(), 0);
}

#[test]
fn stored_metadata_is_promoted() {
    let stored = r#"{"name":"N","description":"D","page":3}"#;
    let r = reconstruct_stored("x".to_string(), "body".to_string(), stored);
    assert_eq!(r.id, "x");
    assert_eq!(r.name, "N");
    assert_eq!(r.description, Some("D".to_string()));
    assert_eq!(keys(&r.metadata), vec!["page".to_string()]);
    match r.metadata.get(&"page".to_string()) {
        Some(MetaValue::Other(v)) => assert_eq!(*v, serde_json::Value::from(3)),
        _ => panic!("page lost"),
    }
}

#[test]
fn non_string_name_is_dropped() {
    let r = reconstruct_stored("x".to_string(), "b".to_string(), r#"{"name":5,"k":"v"}"#);
    assert_eq!(r.name, "");
    assert_eq!(keys(&r.metadata), vec!["k".to_string()]);
}

#[test]
fn metadata_round_trips_through_text() {
    let mut m = Metadata::new();
    m.insert("name".to_string(), MetaValue::Text("N".to_string()));
    m.insert("n".to_string(), MetaValue::Other(serde_json::Value::from(2)));
    let text = metadata_text(&vec![m], 0);
    assert_eq!(text, r#"{"n":2,"name":"N"}"#);
    let back = reconstruct_stored("i".to_string(), "t".to_string(), &text);
    assert_eq!(back.name, "N");
    assert_eq!(keys(&back.metadata), vec!["n".to_string()]);
    let broken = reconstruct_stored("i".to_string(), "t".to_string(), "{");
    assert_eq!(broken.metadata.len(), 0);
}

#[test]
fn round_trip_keeps_content_and_other_keys() {
    let mut m = Metadata::new();
    m.insert("name".to_string(), MetaValue::Text("N".to_string()));
    m.insert("tag".to_string(), MetaValue::Text("t".to_string()));
    let texts = vec!["hello".to_string()];
    let records = build_records(2, &texts, vec![vec![1u8, 2u8]], &vec![m]).ok().unwrap();
    let r = reconstruct_stored(records[0].id.clone(), records[0].text.clone(), &records[0].metadata);
    assert_eq!(r.content, "hello");
    assert_eq!(r.name, "N");
    assert_eq!(keys(&r.metadata), vec!["tag".to_string()]);
}

#[test]
fn records_default_to_empty_metadata() {
    let texts = vec!["a".to_string(), "b".to_string()];
    let mut m = Metadata::new();
    m.insert("k".to_string(), MetaValue::Text("v".to_string()));
    let records = build_records(1, &texts, vec![vec![10i32], vec![20i32]], &vec![m]).ok().unwrap();
    assert_eq!(records.len(), 2);
    assert_eq!(records[0].metadata, r#"{"k":"v"}"#);
    assert_eq!(records[1].metadata, "{}");
    assert_eq!(records[1].vector, vec![20]);
    assert_eq!(records[0].id.len(), 36);
    assert_ne!(records[0].id, records[1].id);
    assert_eq!(metadata_text(&vec![], 0), "{}");
}

#[test]
fn wrong_dimension_fails_ingestion() {
    let texts = vec!["a".to_string(), "b".to_string()];
    let r = build_records(2, &texts, vec![vec![1u8, 2u8], vec![3u8]], &vec![]);
    assert!(matches!(r, Err(StoreError::DimensionMismatch { row: 1, expected: 2, found: 1 })));
}

#[test]
fn vector_count_must_match_texts() {
    let texts = vec!["a".to_string()];
    let r = build_records(1, &texts, Vec::<Vec<u8>>::new(), &vec![]);
    assert!(matches!(r, Err(StoreError::CountMismatch { texts: 1, vectors: 0 })));
}

#[test]
fn batch_dimension_is_first_length() {
    assert_eq!(batch_dimension(&vec![vec![0u8; 4], vec![0u8; 4]]), Some(4));
    assert_eq!(batch_dimension::<u8>(&vec![]), None);
}

#[test]
fn existing_table_is_opened_not_recreated() {
    let existing = vec!["a".to_string()];
    assert!(matches!(table_action(&existing, &"a".to_string(), 8), TableAction::Open));
    assert!(matches!(
        table_action(&existing, &"b".to_string(), 8),
        TableAction::Create { dimension: 8 }
    ));
}

#[test]
fn created_tables_are_listed() {
    let mut names: Vec<String> = Vec::new();
    for (name, dim) in [("a", 3usize), ("b", 4usize), ("a", 5usize)] {
        if let TableAction::Create { .. } = table_action(&names, &name.to_string(), dim) {
            names.push(name.to_string());
        }
    }
    assert_eq!(names, vec!["a".to_string(), "b".to_string()]);
}

#[test]
fn search_on_missing_table_is_not_found() {
    let existing = vec!["a".to_string()];
    assert!(search_table(&existing, &"a".to_string()).is_ok());
    assert!(matches!(search_table(&existing, &"zzz".to_string()), Err(StoreError::TableNotFound)));
}

#[test]
fn packing_marks_text_boundaries() {
    let texts = vec![
        TokenizedText { ids: vec![5, 6], type_ids: vec![0, 0] },
        TokenizedText { ids: vec![7, 8, 9], type_ids: vec![0, 1, 1] },
        TokenizedText { ids: vec![], type_ids: vec![] },
    ];
    let b = pack_batch(&texts);
    assert_eq!(b.input_ids, vec![5, 6, 7, 8, 9]);
    assert_eq!(b.token_type_ids, vec![0, 0, 0, 1, 1]);
    assert_eq!(b.position_ids, vec![0, 1, 0, 1, 2]);
    assert_eq!(b.cumulative_seq_lengths, vec![0, 2, 5, 5]);
    assert_eq!(b.max_length, 3);
    assert_eq!(b.pooled_indices, vec![0, 1, 2]);
    assert!(b.raw_indices.is_empty());
}

#[test]
fn packing_empty_batch() {
    let b = pack_batch(&vec![]);
    assert_eq!(b.cumulative_seq_lengths, vec![0]);
    assert_eq!(b.max_length, 0);
    assert!(b.input_ids.is_empty());
}

#[test]
fn backend_entries_are_put_in_text_order() {
    let entries = vec![(2usize, Some("c")), (0, Some("a")), (1, None), (9, Some("z"))];
    let r = order_by_index(3, entries);
    assert_eq!(r, vec![Some("a"), None, Some("c")]);
}

#[test]
fn embedding_batch_has_one_vector_per_text() {
    let ok = check_batch(2, vec![vec![1u8, 2], vec![3, 4]]);
    assert_eq!(ok.ok().unwrap().len(), 2);
    assert!(matches!(
        check_batch(3, vec![vec![1u8]]),
        Err(EmbedError::WrongCount { expected: 3, found: 1 })
    ));
    assert!(matches!(
        check_batch(2, vec![vec![1u8, 2], vec![3]]),
        Err(EmbedError::RaggedDimension { row: 1, expected: 2, found: 1 })
    ));
}

#[test]
fn empty_embedding_batch_is_empty() {
    let r = check_batch::<u8>(0, vec![]);
    assert!(r.ok().unwrap().is_empty());
}

#[test]
fn success_envelope() {
    let r = ApiResponse::success(vec![1, 2]);
    assert_eq!(r.code, 0);
    assert_eq!(r.message, "success");
    assert_eq!(r.data, Some(vec![1, 2]));
}

fn word_tokenizer() -> tokenizers::Tokenizer {
    let vocab = [("[UNK]", 0u32), ("hello", 1), ("world", 2)]
        .into_iter()
        .map(|(w, i)| (w.to_string(), i))
        .collect();
    let model = tokenizers::models::wordlevel::WordLevel::builder()
        .vocab(vocab)
        .unk_token("[UNK]".to_string())
        .build()
        .unwrap();
    let mut tokenizer = tokenizers::Tokenizer::new(model);
    tokenizer.with_pre_tokenizer(Some(tokenizers::pre_tokenizers::whitespace::Whitespace));
    tokenizer
}

#[test]
fn local_batch_is_tokenized_and_packed() {
    let tokenizer = word_tokenizer();
    let texts = vec!["hello world".to_string(), "world".to_string(), "nothing".to_string()];
    let b = prepare_local_batch(&tokenizer, texts).ok().unwrap();
    assert_eq!(b.input_ids, vec![1, 2, 2, 0]);
    assert_eq!(b.token_type_ids, vec![0, 0, 0, 0]);
    assert_eq!(b.position_ids, vec![0, 1, 0, 0]);
    assert_eq!(b.cumulative_seq_lengths, vec![0, 2, 3, 4]);
    assert_eq!(b.max_length, 2);
    assert_eq!(b.pooled_indices, vec![0, 1, 2]);
}

#[test]
fn tokenized_texts_within_bounds_are_packed() {
    let texts = vec![TokenizedText { ids: vec![4], type_ids: vec![1] }];
    let b = pack_tokenized(&texts).ok().unwrap();
    assert_eq!(b.input_ids, vec![4]);
    assert_eq!(b.token_type_ids, vec![1]);
    assert_eq!(b.cumulative_seq_lengths, vec![0, 1]);
}
