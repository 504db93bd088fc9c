use govdoc::blocks::{block_records, fallback_text_blocks};
use govdoc::database::StoreError;
use govdoc::general_store::{NewGeneralDocument, NewGeneralDocumentBlock};
use govdoc::json::Json;
use govdoc::sqlite::{NewMemoryRecord, NewTemplateRecord, SqliteStore};

fn json(text: &str) -> Json {
    Json::parse(text).unwrap()
}

fn remember(store: &mut SqliteStore, doc_type: &str, fields: &Json, embedding: Option<&str>) -> i64 {
    store
        .store_memory(NewMemoryRecord {
            doc_type,
            summary_text: "summary",
            fields,
            recipient_class: None,
            agency: None,
            template_id: None,
            raw_text: None,
            embedding,
        })
        .unwrap()
}

fn template(store: &mut SqliteStore, name: &str, path: &str, agency: Option<&str>, is_default: bool) -> i64 {
    store
        .create_template(NewTemplateRecord {
            doc_type: "ภายนอก",
            name,
            file_path: path,
            agency,
            is_default,
        })
        .unwrap()
}

fn general(store: &mut SqliteStore, page_count: i64) -> i64 {
    store
        .create_general_document(NewGeneralDocument {
            filename: "manual.pdf",
            file_path: "app-data/general-documents/manual.pdf",
            page_count,
        })
        .unwrap()
}

#[test]
fn stores_memory_fields_as_json() {
    let mut store = SqliteStore::open_memory().unwrap();
    let id = remember(&mut store, "ภายนอก", &json(r#"{"subject":"ทดสอบ"}"#), None);

    let fields = store.get_memory_fields(id).unwrap().unwrap();

    assert_eq!(fields.get("subject").unwrap().as_str(), Some("ทดสอบ"));
}

#[test]
fn stores_and_reads_back_embeddings_per_doc_type() {
    let mut store = SqliteStore::open_memory().unwrap();
    remember(
        &mut store,
        "ภายนอก",
        &json(r#"{"subject":"ก"}"#),
        Some("[1.0,0.0,0.0]"),
    );
    // Another kind, and a row without an embedding: neither counts.
    remember(
        &mut store,
        "คำสั่ง",
        &json(r#"{"title":"ข"}"#),
        Some("[0.0,1.0,0.0]"),
    );
    remember(&mut store, "ภายนอก", &json(r#"{"subject":"ค"}"#), None);

    let embeddings = store.memory_embeddings(Some("ภายนอก")).unwrap();
    assert_eq!(embeddings.len(), 1);
    assert_eq!(embeddings[0].1, "[1.0,0.0,0.0]");

    let recent = store.recent_memory_fields(Some("ภายนอก"), 5).unwrap();
    assert_eq!(recent.len(), 2);
}

#[test]
fn examples_are_listed_newest_first() {
    let mut store = SqliteStore::open_memory().unwrap();
    let first = remember(&mut store, "ภายนอก", &json(r#"{"n":1}"#), Some("[1.0]"));
    let second = remember(&mut store, "ภายใน", &json(r#"{"n":2}"#), Some("[2.0]"));
    let third = remember(&mut store, "ภายนอก", &json(r#"{"n":3}"#), None);
    let texts = |list: Vec<Json>| list.iter().map(Json::to_text).collect::<Vec<_>>();
    assert_eq!(
        texts(store.recent_memory_fields(None, 2).unwrap()),
        vec![r#"{"n":3}"#, r#"{"n":2}"#]
    );
    assert_eq!(
        texts(store.memory_fields_by_ids(&vec![third, 99, first]).unwrap()),
        vec![r#"{"n":3}"#, r#"{"n":1}"#]
    );
    assert_eq!(
        store.memory_embeddings(None).unwrap(),
        vec![(first, "[1.0]".to_string()), (second, "[2.0]".to_string())]
    );
    assert_eq!(
        store.memory_vectors().unwrap()[1],
        (second, "ภายใน".to_string(), "[2.0]".to_string())
    );
    assert!(store.get_memory_fields(99).unwrap().is_none());
}

#[test]
fn resolves_agency_default_before_central_default() {
    let mut store = SqliteStore::open_memory().unwrap();
    template(&mut store, "กลาง", "templates/central.docx", None, true);
    template(
        &mut store,
        "หน่วยงาน",
        "templates/agency.docx",
        Some("โรงเรียน"),
        true,
    );

    let found = store
        .resolve_default("ภายนอก", Some("โรงเรียน"))
        .unwrap()
        .unwrap();

    assert_eq!(found.file_path, "templates/agency.docx");
}

#[test]
fn a_new_default_takes_the_place_of_the_old_one() {
    let mut store = SqliteStore::open_memory().unwrap();
    let old = template(&mut store, "a", "a.docx", None, true);
    let agency = template(&mut store, "b", "b.docx", Some("x"), true);
    let new = template(&mut store, "c", "c.docx", None, true);
    assert!(!store.get_template(old).unwrap().unwrap().is_default);
    assert!(store.get_template(agency).unwrap().unwrap().is_default);
    assert_eq!(store.resolve_default("ภายนอก", None).unwrap().unwrap().id, new);
    assert_eq!(
        store.resolve_default("ภายนอก", Some("other")).unwrap().unwrap().id,
        new
    );
    assert!(store.resolve_default("ภายใน", None).unwrap().is_none());
    let names = |list: Vec<govdoc::sqlite::TemplateRecord>| {
        list.into_iter().map(|t| t.name).collect::<Vec<_>>()
    };
    assert_eq!(names(store.list_templates(None, Some("x")).unwrap()), vec!["b"]);
    assert_eq!(store.list_templates(None, None).unwrap().len(), 3);
}

#[test]
fn lists_come_in_their_order() {
    let mut store = SqliteStore::open_memory().unwrap();
    template(&mut store, "a", "a.docx", None, false);
    template(&mut store, "b", "b.docx", Some("x"), false);
    template(&mut store, "c", "c.docx", Some("x"), false);
    store
        .create_template(NewTemplateRecord {
            doc_type: "คำสั่ง",
            name: "d",
            file_path: "d.docx",
            agency: Some("x"),
            is_default: false,
        })
        .unwrap();
    let mut names = |doc_type: Option<&str>, agency: Option<&str>| {
        store
            .list_templates(doc_type, agency)
            .unwrap()
            .into_iter()
            .map(|t| t.name)
            .collect::<Vec<_>>()
            .concat()
    };
    assert_eq!(names(None, None), "dcba");
    assert_eq!(names(Some("ภายนอก"), None), "cba");
    assert_eq!(names(None, Some("x")), "dcb");
    assert_eq!(names(Some("ภายนอก"), Some("x")), "cb");

    let first = general(&mut store, 0);
    let second = general(&mut store, 0);
    let ids: Vec<i64> = store.list_general_documents().unwrap().iter().map(|d| d.id).collect();
    assert_eq!(ids, vec![second, first]);

    for page in [3, 1] {
        store.ensure_general_document_pages(first, page).unwrap();
        let block = |index: i64| NewGeneralDocumentBlock {
            document_id: first,
            page_number: page,
            block_index: index,
            block_type: "paragraph",
            text: None,
            bbox_json: None,
            style_json: None,
            image_path: None,
            embedding: None,
        };
        store
            .replace_general_page_blocks(first, page, &vec![block(4), block(2)])
            .unwrap();
    }
    let pages: Vec<i64> = store
        .list_general_document_pages(first)
        .unwrap()
        .iter()
        .map(|p| p.page_number)
        .collect();
    assert_eq!(pages, vec![1, 2, 3]);
    let mut places = |page: Option<i64>| {
        store
            .list_general_document_blocks(first, page)
            .unwrap()
            .iter()
            .map(|b| (b.page_number, b.block_index))
            .collect::<Vec<_>>()
    };
    assert_eq!(places(None), vec![(1, 2), (1, 4), (3, 2), (3, 4)]);
    assert_eq!(places(Some(3)), vec![(3, 2), (3, 4)]);
}

#[test]
fn a_new_default_leaves_other_kinds_and_agencies_alone() {
    let mut store = SqliteStore::open_memory().unwrap();
    let old = template(&mut store, "a", "a.docx", None, true);
    let agency = template(&mut store, "b", "b.docx", Some("x"), true);
    let order = store
        .create_template(NewTemplateRecord {
            doc_type: "คำสั่ง",
            name: "c",
            file_path: "c.docx",
            agency: None,
            is_default: true,
        })
        .unwrap();
    let mut defaults = |store: &mut SqliteStore| {
        [old, agency, order].map(|id| store.get_template(id).unwrap().unwrap().is_default)
    };
    template(&mut store, "d", "d.docx", None, false);
    assert_eq!(defaults(&mut store), [true, true, true]);
    template(&mut store, "e", "e.docx", None, true);
    assert_eq!(defaults(&mut store), [false, true, true]);
    assert_eq!(store.get_template(old).unwrap().unwrap().file_path, "a.docx");
}

#[test]
fn saves_lists_gets_and_deletes_documents() {
    let mut store = SqliteStore::open_memory().unwrap();
    let id = store
        .save_document(
            "ภายนอก",
            Some("ขอเชิญประชุม"),
            &json(r#"{"subject":"ขอเชิญประชุม","body":["..."]}"#),
        )
        .unwrap();
    store
        .save_document("คำสั่ง", None, &json(r#"{"title":"คำสั่งที่ 1"}"#))
        .unwrap();

    let all = store.list_documents(None).unwrap();
    assert_eq!(all.len(), 2);
    assert_eq!(all[0].doc_type, "คำสั่ง"); // newest first

    let external = store.list_documents(Some("ภายนอก")).unwrap();
    assert_eq!(external.len(), 1);
    assert_eq!(external[0].title.as_deref(), Some("ขอเชิญประชุม"));

    let doc = store.get_document(id).unwrap().unwrap();
    assert_eq!(doc.doc_json.get("subject").unwrap().as_str(), Some("ขอเชิญประชุม"));

    assert!(store
        .update_document(
            id,
            "ภายนอก",
            Some("ขอเชิญประชุมฉบับแก้ไข"),
            &json(r#"{"subject":"ขอเชิญประชุมฉบับแก้ไข"}"#),
        )
        .unwrap());
    let updated = store.get_document(id).unwrap().unwrap();
    assert_eq!(updated.title.as_deref(), Some("ขอเชิญประชุมฉบับแก้ไข"));
    assert_eq!(
        updated.doc_json.get("subject").unwrap().as_str(),
        Some("ขอเชิญประชุมฉบับแก้ไข")
    );
    assert!(!store
        .update_document(999, "ภายนอก", Some("ไม่มี"), &json(r#"{"subject":"ไม่มี"}"#))
        .unwrap());

    assert!(store.delete_document(id).unwrap());
    assert!(!store.delete_document(id).unwrap()); // already gone
    assert_eq!(store.list_documents(None).unwrap().len(), 1);
}

#[test]
fn stores_general_documents_pages_and_revisions() {
    let mut store = SqliteStore::open_memory().unwrap();
    let id = general(&mut store, 2);

    let docs = store.list_general_documents().unwrap();
    assert_eq!(docs.len(), 1);
    assert_eq!(docs[0].page_count, 2);

    let pages = store.list_general_document_pages(id).unwrap();
    assert_eq!(pages.len(), 2);
    assert_eq!(pages[0].status, "pending");

    store
        .update_general_page_ocr(id, 1, "succeeded", Some("ข้อความหน้า 1"), None, None)
        .unwrap();
    store
        .update_general_page_asset(
            id,
            1,
            Some("app-data/general-documents/1/pages/page-001.png"),
            Some(1000),
            Some(1400),
            None,
        )
        .unwrap();
    let block = NewGeneralDocumentBlock {
        document_id: id,
        page_number: 1,
        block_index: 0,
        block_type: "paragraph",
        text: Some("ข้อความหน้า 1"),
        bbox_json: Some("[0,0,100,20]"),
        style_json: None,
        image_path: None,
        embedding: Some("[0.1,0.2,0.3]"),
    };
    store.replace_general_page_blocks(id, 1, &vec![block]).unwrap();
    store
        .save_general_revision(id, 1, "ตรวจคำผิด", "ข้อความหน้า 1 แก้แล้ว")
        .unwrap();

    let page = store.get_general_document_page(id, 1).unwrap().unwrap();
    assert_eq!(page.ocr_text.as_deref(), Some("ข้อความหน้า 1"));
    assert_eq!(page.edited_text.as_deref(), Some("ข้อความหน้า 1 แก้แล้ว"));
    assert_eq!(page.page_width, Some(1000));
    let blocks = store.list_general_document_blocks(id, Some(1)).unwrap();
    assert_eq!(blocks.len(), 1);
    assert_eq!(blocks[0].block_type, "paragraph");
    assert_eq!(blocks[0].embedding.as_deref(), Some("[0.1,0.2,0.3]"));
    assert_eq!(
        store.get_general_document(id).unwrap().unwrap().status,
        "running"
    );
}

#[test]
fn lists_templates_by_doc_type() {
    let mut store = SqliteStore::open_memory().unwrap();
    let id = template(&mut store, "กลาง", "templates/central.docx", None, true);

    let templates = store.list_templates(Some("ภายนอก"), None).unwrap();

    assert_eq!(templates.len(), 1);
    assert_eq!(templates[0].id, id);
}

#[test]
fn the_status_follows_from_the_pages() {
    let mut store = SqliteStore::open_memory().unwrap();
    let id = general(&mut store, 2);
    let status = |store: &mut SqliteStore| store.get_general_document(id).unwrap().unwrap().status;
    assert_eq!(status(&mut store), "pending");
    store
        .update_general_page_ocr(id, 1, "failed", None, None, Some("no"))
        .unwrap();
    assert_eq!(status(&mut store), "partial");
    store
        .update_general_page_ocr(id, 1, "pending", None, None, None)
        .unwrap();
    assert_eq!(status(&mut store), "pending");
    store
        .update_general_page_ocr(id, 2, "succeeded", Some("x"), Some(&json("{}")), None)
        .unwrap();
    assert_eq!(status(&mut store), "running");
    store
        .update_general_page_ocr(id, 1, "succeeded", Some("y"), None, None)
        .unwrap();
    assert_eq!(status(&mut store), "succeeded");
    let page = store.get_general_document_page(id, 1).unwrap().unwrap();
    assert_eq!((page.error, page.ocr_text.as_deref()), (None, Some("y")));
}

#[test]
fn blocks_are_replaced_as_a_whole_or_not_at_all() {
    let mut store = SqliteStore::open_memory().unwrap();
    let id = general(&mut store, 1);
    let mut drafts = fallback_text_blocks("a\n\nb");
    for (i, draft) in drafts.iter_mut().enumerate() {
        draft.document_id = id;
        draft.page_number = 1;
        draft.block_index = i as i64;
    }
    store
        .replace_general_page_blocks(id, 1, &block_records(&drafts))
        .unwrap();
    drafts[1].block_index = 0;
    assert!(store
        .replace_general_page_blocks(id, 1, &block_records(&drafts))
        .is_err());
    let kept = store.list_general_document_blocks(id, None).unwrap();
    assert_eq!(
        kept.iter().map(|b| b.text.as_deref().unwrap()).collect::<Vec<_>>(),
        vec!["a", "b"]
    );
    assert!(store.update_general_block_text(id, 1, 1, "c").unwrap());
    assert!(!store.update_general_block_text(id, 1, 7, "c").unwrap());
    let kept = store.list_general_document_blocks(id, Some(1)).unwrap();
    assert_eq!(kept[1].text.as_deref(), Some("c"));
}

#[test]
fn a_deleted_general_document_leaves_nothing() {
    let mut store = SqliteStore::open_memory().unwrap();
    let id = general(&mut store, 3);
    store.ensure_general_document_pages(id, 5).unwrap();
    assert_eq!(store.list_general_document_pages(id).unwrap().len(), 5);
    store.update_general_document_file_path(id, "moved.pdf").unwrap();
    assert_eq!(
        store.get_general_document(id).unwrap().unwrap().file_path,
        "moved.pdf"
    );
    assert!(store.delete_general_document(id).unwrap());
    assert!(!store.delete_general_document(id).unwrap());
    assert!(store.get_general_document(id).unwrap().is_none());
    assert!(store.list_general_document_pages(id).unwrap().is_empty());
    assert!(store.list_general_document_blocks(id, None).unwrap().is_empty());
}

#[test]
fn an_unreadable_database_is_an_error() {
    match SqliteStore::open("/") {
        Err(StoreError::Database(_)) => {}
        other => panic!("{:?}", other.err()),
    }
    let mut store = SqliteStore::open_memory().unwrap();
    assert!(store.migrate().is_ok());
    let broken = store
        .save_document("ภายนอก", None, &json("[1,2]"))
        .unwrap();
    assert_eq!(
        store.get_document(broken).unwrap().unwrap().doc_json.to_text(),
        "[1,2]"
    );
}

/// Makes a file hold no examples.
fn forget(path: &str) {
    rusqlite::Connection::open(path)
        .unwrap()
        .execute_batch("DROP TABLE IF EXISTS gov_doc_memory")
        .unwrap();
}

#[test]
fn persists_memory_across_reopen() {
    let path = "/tmp/govdoc-persist-test-9f3a2.sqlite3";
    forget(path);

    {
        let mut store = SqliteStore::open(path).unwrap();
        store
            .store_memory(NewMemoryRecord {
                doc_type: "ภายนอก",
                summary_text: "persisted",
                fields: &json(r#"{"subject":"ถาวร"}"#),
                recipient_class: None,
                agency: None,
                template_id: None,
                raw_text: None,
                embedding: Some("[0.5,0.5]"),
            })
            .unwrap();
    }

    let mut store = SqliteStore::open(path).unwrap();
    let recent = store.recent_memory_fields(Some("ภายนอก"), 5).unwrap();
    assert_eq!(recent.len(), 1);
    assert_eq!(recent[0].get("subject").unwrap().as_str(), Some("ถาวร"));
    assert_eq!(store.memory_embeddings(Some("ภายนอก")).unwrap().len(), 1);

    let mut elsewhere = SqliteStore::open_memory().unwrap();
    assert!(elsewhere.recent_memory_fields(None, 5).unwrap().is_empty());

    drop(store);
    forget(path);
}

#[test]
fn failures_say_what_the_database_and_the_parser_say() {
    let path = "file:govdoc-failures?mode=memory&cache=shared";
    let mut store = SqliteStore::open(path).unwrap();
    let id = store.save_document("ภายนอก", None, &json("{}")).unwrap();
    let other = rusqlite::Connection::open(path).unwrap();
    other.execute("UPDATE document SET doc_json = '{x'", []).unwrap();
    let said = |r: Result<(), StoreError>| r.unwrap_err().message();
    assert_eq!(
        said(store.get_document(id).map(|_| ())),
        "key must be a string at line 1 column 2"
    );
    assert_eq!(Json::parse("{x").unwrap_err(), "key must be a string at line 1 column 2");
    other.execute_batch("DROP TABLE document").unwrap();
    assert_eq!(
        said(store.delete_document(id).map(|_| ())),
        "no such table: document"
    );
    assert!(said(store.get_document(id).map(|_| ())).starts_with("no such table: document"));
    assert_eq!(
        said(store.save_document("ภายนอก", None, &json("{}")).map(|_| ())),
        "no such table: document"
    );
    assert_eq!(StoreError::NoRow.message(), "Query returned no rows");
    assert!(SqliteStore::open("/").err().unwrap().message().contains("unable to open"));
}
