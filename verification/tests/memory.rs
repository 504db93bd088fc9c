use govdoc::database::StoreError;
use govdoc::generation::{generate_document_json, Generation, GenerationOptions};
use govdoc::ingest::{
    derive_summary, example_summary, scanned_example, store_memory_record,
    structure_document_from_text,
};
use govdoc::json::Json;
use govdoc::memory::{
    examples_or_none, retrieve, retrieve_by_similarity, retrieve_examples, Retrieval,
};
use govdoc::mock::FakeLlmProvider;
use govdoc::schemas::{DocRequest, DocType, RecipientClass};
use govdoc::sqlite::{NewMemoryRecord, SqliteStore};
use govdoc::vectors::{
    best_vectors, HnswIndex, InMemoryVectorIndex, PersistentVectorIndex, VectorHit,
};

fn json(text: &str) -> Json {
    Json::parse(text).unwrap()
}

fn vector(text: &str) -> Vec<f32> {
    text.trim_matches(|c| c == '[' || c == ']')
        .split(',')
        .map(|n| n.trim().parse().unwrap())
        .collect()
}

/// A whole number that orders as the cosine of the angle does.
fn similarity(a: &str, b: &[f32]) -> i64 {
    let a = vector(a);
    let dot: f32 = a.iter().zip(b).map(|(x, y)| x * y).sum();
    let norm = |v: &[f32]| v.iter().map(|x| x * x).sum::<f32>().sqrt();
    let score = dot / (norm(&a) * norm(b));
    let bits = score.to_bits() as i32;
    (bits ^ (((bits >> 31) as u32) >> 1) as i32) as i64
}

fn remember(store: &mut SqliteStore, summary: &str, fields: &Json, embedding: Option<&str>) {
    store
        .store_memory(NewMemoryRecord {
            doc_type: "ภายนอก",
            summary_text: summary,
            fields,
            recipient_class: None,
            agency: None,
            template_id: None,
            raw_text: None,
            embedding,
        })
        .unwrap();
}

#[test]
fn in_memory_index_returns_nearest_vector() {
    let mut index = InMemoryVectorIndex::new();
    index.add(1, "[1.0,0.0]");
    index.add(2, "[0.0,1.0]");

    let scores = index
        .vectors
        .iter()
        .map(|(_, v)| similarity(v, &[0.9, 0.1]))
        .collect();
    let hits = index.search(&scores, 1);

    assert_eq!(hits[0].id, 1);
    assert_eq!(hits.len(), 1);
    assert!(index.save().is_ok());
}

#[test]
fn searches_within_doc_type_only() {
    let mut index = PersistentVectorIndex::load(None, None);
    assert!(index.is_empty());
    index.add(1, "ภายนอก", "[1.0,0.0]");
    index.add(2, "ภายนอก", "[0.0,1.0]");
    index.add(3, "คำสั่ง", "[1.0,0.0]");

    let scores = index
        .entries
        .iter()
        .map(|e| similarity(&e.vector, &[0.9, 0.1]))
        .collect();
    let hits = index.search("ภายนอก", &scores, 5);
    assert_eq!(hits, vec![1, 2]); // the third is of another kind; nearest first
}

#[test]
fn an_index_is_healed_from_the_database() {
    let rows = vec![
        (1i64, "ภายนอก".to_string(), "[1.0]".to_string()),
        (2i64, "ภายใน".to_string(), "[2.0]".to_string()),
    ];
    let mut index = PersistentVectorIndex::load(Some("index.json".to_string()), None);
    assert!(index.heal(rows.clone()));
    assert_eq!(index.len(), 2);
    assert!(!index.heal(rows.clone()));
    assert_eq!(index.entries[1].vector, "[2.0]");
    index.add(2, "ภายใน", "[3.0]");
    assert_eq!(index.len(), 3);
    assert_eq!(index.entries[2].vector, "[3.0]");
    index.rebuild(rows[..1].to_vec());
    assert_eq!(index.len(), 1);
}

#[test]
fn persists_and_reloads_from_disk() {
    let path = Some("govdoc-index-test-7b1c2.json".to_string());
    let mut index = PersistentVectorIndex::load(path.clone(), None);
    index.add(10, "ภายนอก", "[0.2,0.8]");
    let file = index.to_file();

    let index = PersistentVectorIndex::load(path, Some(&file));
    assert_eq!(index.len(), 1);
    let scores = index
        .entries
        .iter()
        .map(|e| similarity(&e.vector, &[0.2, 0.8]))
        .collect();
    assert_eq!(index.search("ภายนอก", &scores, 1), vec![10]);
    assert_eq!(index.entries[0].vector, "[0.2,0.8]");
}

#[test]
fn a_file_that_holds_no_index_is_an_empty_one() {
    let path = Some("index.json".to_string());
    for text in [
        "",
        "not json",
        "{}",
        r#"[{"id":1,"doc_type":"a"}]"#,
        r#"[{"id":1.5,"doc_type":"a","vector":[1]}]"#,
        r#"[{"id":18446744073709551615,"doc_type":"a","vector":[1]}]"#,
        r#"[{"id":1,"doc_type":2,"vector":[1]}]"#,
        r#"[{"id":1,"doc_type":"a","vector":[null]}]"#,
        r#"[{"id":1,"doc_type":"a","vector":"[1]"}]"#,
        r#"[[1,"a",[1],4]]"#,
        r#"[{"id":1,"doc_type":"a","vector":[1]},7]"#,
    ] {
        let mut index = PersistentVectorIndex::load(path.clone(), Some(text));
        assert!(index.is_empty(), "{text}");
        assert_eq!(index.path, path);
        index.add(1, "a", "[1]");
        assert_eq!(
            PersistentVectorIndex::load(None, Some(&index.to_file())).len(),
            1
        );
    }
}

#[test]
fn an_index_is_written_and_read_back() {
    let mut index = PersistentVectorIndex::load(None, None);
    assert_eq!(index.to_file(), "[]");
    index.add(-7, "ภายใน", "[1, -2]");
    index.add(i64::MAX, "คำสั่ง", "[]");
    assert_eq!(
        index.to_file(),
        [
            r#"[{"doc_type":"ภายใน","id":-7,"vector":[1,-2]},"#,
            r#"{"doc_type":"คำสั่ง","id":9223372036854775807,"vector":[]}]"#,
        ]
        .concat()
    );
    let again = PersistentVectorIndex::load(None, Some(&index.to_file()));
    let parts = |i: usize| {
        let e = &again.entries[i];
        (e.id, e.doc_type.clone(), e.vector.clone())
    };
    assert_eq!(again.len(), 2);
    assert_eq!(parts(0), (-7, "ภายใน".to_string(), "[1,-2]".to_string()));
    assert_eq!(parts(1), (i64::MAX, "คำสั่ง".to_string(), "[]".to_string()));

    let listed = PersistentVectorIndex::load(None, Some(r#" [ [5, "a", [0.5]] ] "#));
    assert_eq!(listed.entries[0].id, 5);
    assert_eq!(listed.entries[0].vector, "[0.5]");
}

#[test]
fn nothing_is_found_where_something_failed() {
    assert!(examples_or_none(Err(StoreError::NoRow)).is_empty());
    assert_eq!(examples_or_none(Ok(vec![json("1")]))[0].to_text(), "1");

    let mut store = SqliteStore::open_memory().unwrap();
    remember(&mut store, "a", &json(r#"{"subject":"ก"}"#), Some("[1.0,0.0]"));
    remember(&mut store, "b", &json(r#"{"subject":"ข"}"#), Some("[0.0,1.0]"));
    let mut found = |readable: bool| match retrieve_examples(&mut store, DocType::External, true) {
        Retrieval::Compare(pending) => {
            let scores = pending
                .index
                .vectors
                .iter()
                .map(|(_, v)| similarity(v, &[0.1, 0.9]))
                .collect();
            pending.examples(&mut store, if readable { Some(&scores) } else { None })
        }
        Retrieval::Examples(_) => panic!("there are vectors"),
    };
    assert!(found(false).is_empty());
    let examples = found(true);
    assert_eq!(examples.len(), 2);
    assert_eq!(examples[0].get("subject").unwrap().as_str(), Some("ข"));
}

#[test]
fn equally_similar_hits_stay_in_order() {
    let hits: Vec<VectorHit> = [(1, 5), (2, 9), (3, 5), (4, i64::MIN), (5, i64::MAX)]
        .iter()
        .map(|&(id, score)| VectorHit { id, score })
        .collect();
    let ids: Vec<i64> = best_vectors(&hits, 10).iter().map(|h| h.id).collect();
    assert_eq!(ids, vec![5, 2, 1, 3, 4]);
    assert!(best_vectors(&hits, 0).is_empty());
}

#[test]
fn similarity_returns_nearest_example_for_doc_type() {
    let mut store = SqliteStore::open_memory().unwrap();
    remember(&mut store, "near", &json(r#"{"subject":"ใกล้"}"#), Some("[1.0,0.0]"));
    remember(&mut store, "far", &json(r#"{"subject":"ไกล"}"#), Some("[0.0,1.0]"));

    let hits = match retrieve_by_similarity(&mut store, DocType::External, 1).unwrap() {
        Retrieval::Compare(pending) => {
            let scores = pending
                .index
                .vectors
                .iter()
                .map(|(_, v)| similarity(v, &[0.9, 0.1]))
                .collect();
            pending.compared(&mut store, &scores).unwrap()
        }
        Retrieval::Examples(_) => panic!("there are vectors"),
    };

    assert_eq!(hits.len(), 1);
    assert_eq!(hits[0].get("subject").unwrap().as_str(), Some("ใกล้"));
}

#[test]
fn similarity_falls_back_to_recent_when_no_embeddings() {
    let mut store = SqliteStore::open_memory().unwrap();
    remember(&mut store, "plain", &json(r#"{"subject":"ไม่มีเวกเตอร์"}"#), None);

    let hits = match retrieve_by_similarity(&mut store, DocType::External, 3).unwrap() {
        Retrieval::Examples(hits) => hits,
        Retrieval::Compare(_) => panic!("there are no vectors"),
    };

    assert_eq!(hits.len(), 1);
    assert_eq!(hits[0].get("subject").unwrap().as_str(), Some("ไม่มีเวกเตอร์"));
}

#[test]
fn ingested_example_is_used_during_generate() {
    let mut store = SqliteStore::open_memory().unwrap();
    let mut index = PersistentVectorIndex::load(None, None);
    let fields = json(
        r#"{"doc_type":"ภายนอก","subject":"ตัวอย่างหนังสือเชิญประชุม","body":["ย่อหน้าตัวอย่าง"]}"#,
    );
    let summary = example_summary(DocType::External, &fields, None);
    store_memory_record(
        &mut store,
        &mut index,
        DocType::External,
        &summary,
        &fields,
        None,
        None,
        None,
        None,
    )
    .unwrap();
    assert!(index.is_empty());

    let mut req = DocRequest::new(DocType::External);
    req.subject = "ขอเชิญประชุมประจำเดือน".to_string();
    req.recipient_class = RecipientClass::Executive;
    let examples = match retrieve_examples(&mut store, req.doc_type, false) {
        Retrieval::Examples(list) => list,
        Retrieval::Compare(_) => panic!("nothing is embedded"),
    };
    let options = GenerationOptions::for_request(&req);
    let state = generate_document_json(&req, &examples, json("{}"), json("{}"), options);
    let pending = match state {
        Generation::Draft(pending) => pending,
        other => panic!("{other:?}"),
    };
    let draft = FakeLlmProvider.complete_json(&pending.call.system, &pending.call.user);
    let pending = match pending.drafted(Ok(draft)) {
        Generation::Review(pending) => pending,
        other => panic!("{other:?}"),
    };
    let reply = govdoc::generation::ReviewReply::Review(govdoc::schemas::CriticReview {
        passed: true,
        issues: Vec::new(),
        suggestions: Vec::new(),
    });
    let pending = match pending.reviewed(reply) {
        Generation::Validate(pending) => pending,
        other => panic!("{other:?}"),
    };
    match pending.validated(Ok(())) {
        Generation::Done(end) => {
            assert_eq!(end.trace[0].step, "retrieval");
            assert_eq!(end.trace[0].detail.get("examples").unwrap().to_text(), "1");
        }
        other => panic!("{other:?}"),
    }
}

#[test]
fn embedded_examples_are_indexed() {
    let mut store = SqliteStore::open_memory().unwrap();
    let mut index = PersistentVectorIndex::load(None, None);
    let id = store_memory_record(
        &mut store,
        &mut index,
        DocType::Order,
        "s",
        &json("{}"),
        Some("a"),
        Some("monk"),
        Some("raw"),
        Some("[0.5]"),
    )
    .unwrap();
    assert_eq!(index.len(), 1);
    assert_eq!(index.entries[0].id, id);
    assert_eq!(index.entries[0].doc_type, "คำสั่ง");
    assert_eq!(retrieve(&mut store, DocType::Order, 3).unwrap().len(), 1);
    assert!(retrieve(&mut store, DocType::External, 3).unwrap().is_empty());
    assert!(matches!(
        retrieve_examples(&mut store, DocType::Order, true),
        Retrieval::Compare(_)
    ));
}

#[test]
fn examples_have_a_summary() {
    let fields = json(r#"{"subject":"ก","title":"ข"}"#);
    let derived = derive_summary(DocType::External, &fields);
    assert_eq!(derived, "ประเภท: ภายนอก | เรื่อง: ก");
    let fields = json(r#"{"subject":"","title":"ข"}"#);
    assert_eq!(
        derive_summary(DocType::Order, &fields),
        "ประเภท: คำสั่ง | เรื่อง: ข"
    );
    assert_eq!(derive_summary(DocType::Order, &json("[]")), "ประเภท: คำสั่ง");
    assert_eq!(example_summary(DocType::External, &fields, Some("มี")), "มี");
    assert_eq!(
        example_summary(DocType::External, &fields, None),
        "ประเภท: ภายนอก | เรื่อง: ข"
    );
}

#[test]
fn scans_become_examples() {
    let call = structure_document_from_text(DocType::Order, "ข้อความ", &json("{}"));
    assert!(call.user.contains("ข้อความ"));
    let text = "ก".repeat(2001);
    let plain = scanned_example(DocType::Order, "scan.pdf", &text, None);
    assert!(!plain.structured);
    assert_eq!(plain.summary, "ก".repeat(2000));
    assert_eq!(
        plain.fields.to_text(),
        format!(r#"{{"content":"{text}","doc_type":"คำสั่ง","source":"scan.pdf"}}"#)
    );
    let read = scanned_example(
        DocType::Order,
        "scan.pdf",
        &text,
        Some(json(r#"{"title":"t"}"#)),
    );
    assert!(read.structured);
    assert_eq!(read.fields.to_text(), r#"{"title":"t"}"#);
    assert_eq!(read.summary, "ประเภท: คำสั่ง | เรื่อง: t");
}
