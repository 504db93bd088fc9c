use govdoc::json::Json;
use govdoc::requests::{
    create_template, delete_document, get_document, list_documents, list_templates,
    resolve_default_template, resolve_template_path, save_document, update_document,
};
use govdoc::schemas::{DocType, RenderRequest};
use govdoc::sqlite::{NewTemplateRecord, SqliteStore};

fn json(text: &str) -> Json {
    Json::parse(text).unwrap()
}

fn external<'a>(name: &'a str, path: &'a str, agency: Option<&'a str>) -> NewTemplateRecord<'a> {
    NewTemplateRecord {
        doc_type: "ภายนอก",
        name,
        file_path: path,
        agency,
        is_default: true,
    }
}

fn render(template_id: Option<i64>) -> RenderRequest {
    RenderRequest {
        doc_type: DocType::External,
        doc_data: json("{}"),
        template_id,
    }
}

#[test]
fn documents_save_list_get_delete() {
    let mut store = SqliteStore::open_memory().unwrap();
    let id = save_document(
        &mut store,
        DocType::External,
        Some("ขอเชิญประชุม"),
        &json(r#"{"subject":"ขอเชิญประชุม"}"#),
    )
    .unwrap();

    let list = list_documents(&mut store, None).unwrap();
    assert_eq!(list[0].title.as_deref(), Some("ขอเชิญประชุม"));

    let doc = get_document(&mut store, id).unwrap();
    assert_eq!(doc.doc_json.get("subject").unwrap().as_str(), Some("ขอเชิญประชุม"));

    let same = update_document(
        &mut store,
        id,
        DocType::External,
        Some("ขอเชิญประชุมฉบับแก้ไข"),
        &json(r#"{"subject":"ขอเชิญประชุมฉบับแก้ไข"}"#),
    )
    .unwrap();
    assert_eq!(same, id);

    let doc = get_document(&mut store, id).unwrap();
    assert_eq!(doc.title.as_deref(), Some("ขอเชิญประชุมฉบับแก้ไข"));
    assert_eq!(
        doc.doc_json.get("subject").unwrap().as_str(),
        Some("ขอเชิญประชุมฉบับแก้ไข")
    );

    assert!(delete_document(&mut store, id).is_ok());
    let missing = get_document(&mut store, id).unwrap_err();
    assert_eq!(missing.status, 404);
    assert_eq!(missing.detail, format!("Document {id} not found"));
    assert_eq!(delete_document(&mut store, id).unwrap_err().status, 404);
    let refused = update_document(&mut store, id, DocType::Order, None, &json("{}"));
    assert_eq!(refused.unwrap_err().status, 404);
}

#[test]
fn template_store_creates_lists_and_resolves_default() {
    let mut store = SqliteStore::open_memory().unwrap();
    create_template(&mut store, external("กลาง", "templates/external.docx", None)).unwrap();

    let list = list_templates(&mut store, Some("ภายนอก"), None).unwrap();
    assert_eq!(list.len(), 1);

    let found = resolve_default_template(&mut store, "ภายนอก", None).unwrap();
    assert_eq!(found.name, "กลาง");
    assert!(found.is_default);
}

#[test]
fn template_default_resolution_prefers_agency_then_central() {
    let mut store = SqliteStore::open_memory().unwrap();
    create_template(&mut store, external("กลาง", "templates/central.docx", None)).unwrap();
    create_template(
        &mut store,
        external("กรมตัวอย่าง", "templates/agency.docx", Some("กรมตัวอย่าง")),
    )
    .unwrap();

    let agency = resolve_default_template(&mut store, "ภายนอก", Some("กรมตัวอย่าง")).unwrap();
    assert_eq!(agency.file_path, "templates/agency.docx");

    let central = resolve_default_template(&mut store, "ภายนอก", Some("กรมอื่น")).unwrap();
    assert_eq!(central.file_path, "templates/central.docx");
}

#[test]
fn rendering_uses_the_template_asked_for() {
    let mut store = SqliteStore::open_memory().unwrap();
    assert_eq!(resolve_template_path(&mut store, &render(None)).unwrap(), None);
    let refused = resolve_template_path(&mut store, &render(Some(7))).unwrap_err();
    assert_eq!((refused.status, refused.detail.as_str()), (404, "Template 7 not found"));
    let refused = resolve_default_template(&mut store, "ภายใน", None).unwrap_err();
    assert_eq!(refused.status, 404);
    let made = create_template(&mut store, external("a", "a.docx", None)).unwrap();
    assert_eq!(
        resolve_template_path(&mut store, &render(Some(made.id))).unwrap().as_deref(),
        Some("a.docx")
    );
    assert_eq!(
        resolve_template_path(&mut store, &render(None)).unwrap().as_deref(),
        Some("a.docx")
    );
    let order = RenderRequest {
        doc_type: DocType::Order,
        doc_data: json("{}"),
        template_id: Some(made.id),
    };
    let refused = resolve_template_path(&mut store, &order).unwrap_err();
    assert_eq!(refused.status, 400);
    assert_eq!(
        refused.detail,
        format!("Template {} is for ภายนอก, not คำสั่ง", made.id)
    );
}
