use govdoc::edit::{edit_document_json, Edit, EditError, EDITOR_SYSTEM_PROMPT};
use govdoc::json::Json;
use govdoc::mock::FakeLlmProvider;
use govdoc::schemas::default_target_fields;

fn json(text: &str) -> Json {
    Json::parse(text).unwrap()
}

fn fields(list: &[&str]) -> Vec<String> {
    list.iter().map(|s| s.to_string()).collect()
}

fn edited(doc: &str, instructions: &str, targets: &Vec<String>) -> Edit {
    let mut state = edit_document_json(json(doc), instructions, targets);
    while let Edit::Ask(pending) = state {
        let answer = FakeLlmProvider.complete(EDITOR_SYSTEM_PROMPT, &pending.prompt);
        state = pending.answered(Ok(answer));
    }
    state
}

#[test]
fn edit_updates_targeted_body_field() {
    let doc = r#"{"doc_type":"ภายนอก","subject":"เรื่องเดิม","body":["ย่อหน้าเดิม"]}"#;
    match edited(doc, "เพิ่มความสุภาพ", &fields(&["body"])) {
        Edit::Done(doc) => {
            assert_eq!(
                doc.get("body").unwrap().at(0).unwrap().as_str(),
                Some("ย่อหน้าเดิม (แก้ไข: เพิ่มความสุภาพ)")
            );
            assert_eq!(doc.get("subject").unwrap().as_str(), Some("เรื่องเดิม"));
        }
        other => panic!("{other:?}"),
    }
}

#[test]
fn edit_defaults_to_body_field_and_preserves_other_fields() {
    let doc = r#"{
        "doc_type": "ภายนอก",
        "subject": "เรื่องเดิม",
        "body": ["ย่อหน้าแรก", "ย่อหน้าที่สอง"],
        "closing": "ขอแสดงความนับถือ"
    }"#;
    match edited(doc, "ปรับให้เป็นทางการ", &default_target_fields()) {
        Edit::Done(doc) => {
            assert_eq!(doc.get("subject").unwrap().as_str(), Some("เรื่องเดิม"));
            assert_eq!(doc.get("closing").unwrap().as_str(), Some("ขอแสดงความนับถือ"));
            assert_eq!(
                doc.get("body").unwrap().to_text(),
                r#"["ย่อหน้าแรก (แก้ไข: ปรับให้เป็นทางการ)","ย่อหน้าที่สอง (แก้ไข: ปรับให้เป็นทางการ)"]"#
            );
        }
        other => panic!("{other:?}"),
    }
}

#[test]
fn scalar_fields_are_trimmed() {
    match edit_document_json(json(r#"{"subject":"เดิม"}"#), "แก้", &fields(&["subject"])) {
        Edit::Ask(pending) => {
            assert!(pending.prompt.contains("เดิม"));
            match pending.answered(Ok("  ใหม่ \n".to_string())) {
                Edit::Done(doc) => assert_eq!(doc.get("subject").unwrap().as_str(), Some("ใหม่")),
                other => panic!("{other:?}"),
            }
        }
        other => panic!("{other:?}"),
    }
}

#[test]
fn edits_fail_with_a_reason() {
    let message = |state: Edit| match state {
        Edit::Failed(e) => e.message(),
        other => panic!("{other:?}"),
    };
    assert_eq!(
        message(edited("{}", "x", &fields(&["body"]))),
        "Document has no field 'body'"
    );
    assert_eq!(
        message(edited(r#"{"n":1}"#, "x", &fields(&["n"]))),
        "Unsupported field type for 'n'"
    );
    assert_eq!(
        message(edited("[]", "x", &fields(&["body"]))),
        "Unsupported field type for '<root>'"
    );
    match edit_document_json(json(r#"{"a":"b"}"#), "x", &fields(&["a"])) {
        Edit::Ask(pending) => {
            let state = pending.answered(Err("down".to_string()));
            assert!(matches!(&state, Edit::Failed(EditError::Llm(_))));
            assert_eq!(message(state), "LLM error: down");
        }
        other => panic!("{other:?}"),
    }
}

#[test]
fn fields_are_edited_in_order() {
    let doc = r#"{"a":"1","b":["2"],"c":"3"}"#;
    let mut asked = Vec::new();
    let mut state = edit_document_json(json(doc), "x", &fields(&["b", "a"]));
    while let Edit::Ask(pending) = state {
        asked.push(pending.field.clone());
        state = pending.answered(Ok("new".to_string()));
    }
    assert_eq!(asked, vec!["b".to_string(), "a".to_string()]);
    match state {
        Edit::Done(doc) => assert_eq!(doc.to_text(), r#"{"a":"new","b":["new"],"c":"3"}"#),
        other => panic!("{other:?}"),
    }
}
