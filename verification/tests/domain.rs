use govdoc::json::Json;
use govdoc::rules::{lookup_closing, lookup_salutation};
use govdoc::schemas::{default_target_fields, DocRequest, DocType, RecipientClass};

const CLASSES: [RecipientClass; 6] = [
    RecipientClass::GeneralPublic,
    RecipientClass::JuniorOfficial,
    RecipientClass::SeniorOfficial,
    RecipientClass::Executive,
    RecipientClass::Monk,
    RecipientClass::Royal,
];

#[test]
fn executive_salutation_matches_python_rule() {
    assert_eq!(lookup_salutation(&RecipientClass::Executive), "กราบเรียน");
}

#[test]
fn monk_closing_matches_python_rule() {
    assert_eq!(
        lookup_closing(&RecipientClass::Monk),
        "ขอนมัสการด้วยความเคารพ"
    );
}

#[test]
fn every_class_has_its_forms() {
    let salutations: Vec<&str> = CLASSES.iter().map(lookup_salutation).collect();
    assert_eq!(
        salutations,
        vec!["เรียน", "เรียน", "เรียน", "กราบเรียน", "กราบนมัสการ", "กราบบังคมทูล"]
    );
    let closings: Vec<&str> = CLASSES.iter().map(lookup_closing).collect();
    assert_eq!(
        closings,
        vec![
            "ขอแสดงความนับถือ",
            "ขอแสดงความนับถือ",
            "ขอแสดงความนับถืออย่างยิ่ง",
            "ขอแสดงความนับถืออย่างยิ่ง",
            "ขอนมัสการด้วยความเคารพ",
            "ขอแสดงความนับถืออย่างยิ่ง",
        ]
    );
}

#[test]
fn doc_type_serializes_to_thai_values() {
    let json = Json::text(DocType::External.as_thai()).to_text();
    assert_eq!(json, "\"ภายนอก\"");
}

#[test]
fn doc_request_defaults_recipient_class() {
    let req = DocRequest::new(DocType::from_thai("ภายนอก").unwrap());
    assert_eq!(req.recipient_class, RecipientClass::GeneralPublic);
}

#[test]
fn names_tell_the_kinds_apart() {
    for kind in [
        DocType::External,
        DocType::Internal,
        DocType::Order,
        DocType::Announcement,
    ] {
        assert_eq!(DocType::from_thai(kind.as_thai()), Some(kind));
    }
    assert_eq!(DocType::from_thai("external"), None);
    assert_eq!(DocType::from_thai(""), None);
    assert!(DocType::External.has_recipient());
    assert!(!DocType::Order.has_recipient());
}

#[test]
fn edits_go_to_the_body_by_default() {
    assert_eq!(default_target_fields(), vec!["body".to_string()]);
}
