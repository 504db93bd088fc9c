use govdoc::generation::{
    apply_deterministic_rules, build_query_summary, generate_document_json, Generation,
    GenerationError, GenerationOptions, ReviewReply, CRITIC_SYSTEM_PROMPT,
    GENERATOR_SYSTEM_PROMPT,
};
use govdoc::json::Json;
use govdoc::mock::FakeLlmProvider;
use govdoc::schemas::{CriticReview, DocRequest, DocType, RecipientClass};

fn schema() -> Json {
    Json::object().with("type", Json::text("object"))
}

fn request(doc_type: DocType, subject: &str) -> DocRequest {
    let mut req = DocRequest::new(doc_type);
    req.subject = subject.to_string();
    req
}

fn review(passed: bool, suggestions: &[&str]) -> ReviewReply {
    ReviewReply::Review(CriticReview {
        passed,
        issues: vec!["ข้อติง".to_string()],
        suggestions: suggestions.iter().map(|s| s.to_string()).collect(),
    })
}

fn passed(answer: &Json) -> bool {
    answer.get("passed").and_then(Json::as_bool).unwrap_or(false)
}

/// Runs a request to its end with the provider that answers by rule.
fn run(req: &DocRequest, examples: &Vec<Json>) -> Generation {
    let llm = FakeLlmProvider;
    let options = GenerationOptions::for_request(req);
    let mut state = generate_document_json(req, examples, schema(), schema(), options);
    loop {
        state = match state {
            Generation::Draft(pending) => {
                assert_eq!(pending.call.system, GENERATOR_SYSTEM_PROMPT);
                let answer = llm.complete_json(&pending.call.system, &pending.call.user);
                pending.drafted(Ok(answer))
            }
            Generation::Review(pending) => {
                assert_eq!(pending.call.system, CRITIC_SYSTEM_PROMPT);
                let answer = llm.complete_json(&pending.call.system, &pending.call.user);
                let reply = review(passed(&answer), &[]);
                pending.reviewed(reply)
            }
            Generation::Validate(pending) => pending.validated(Ok(())),
            end => return end,
        };
    }
}

#[test]
fn query_summary_matches_python_shape() {
    let req = DocRequest {
        doc_type: DocType::External,
        subject: "ขอเชิญร่วมงาน".into(),
        purpose: "แจ้งกำหนดการ".into(),
        recipient_name: "ผู้ปกครอง".into(),
        recipient_class: Default::default(),
        recipient_agency: String::new(),
        sender_name: String::new(),
        sender_position: String::new(),
        additional_context: "ช่วงเดือนมกราคม".into(),
        use_critic: None,
    };

    assert_eq!(
        build_query_summary(&req),
        "ประเภท: ภายนอก | เรื่อง: ขอเชิญร่วมงาน | จุดประสงค์: แจ้งกำหนดการ | ผู้รับ: ผู้ปกครอง | บริบท: ช่วงเดือนมกราคม"
    );
}

#[test]
fn generate_returns_document_json_and_trace() {
    let mut req = request(DocType::External, "ขอเชิญร่วมงานวันเด็ก");
    req.purpose = "แจ้งกำหนดการและขอความร่วมมือ".into();
    req.recipient_name = "ผู้ปกครองนักเรียน".into();
    req.recipient_class = RecipientClass::Executive;
    req.sender_name = "นายสมชาย รักเด็ก".into();
    req.sender_position = "ผู้อำนวยการโรงเรียน".into();
    match run(&req, &Vec::new()) {
        Generation::Done(end) => {
            assert_eq!(end.doc.get("doc_type").unwrap().as_str(), Some("ภายนอก"));
            assert_eq!(
                end.doc.get("subject").unwrap().as_str(),
                Some("ขอเชิญร่วมงานวันเด็ก")
            );
            assert_eq!(end.doc.get("salutation").unwrap().as_str(), Some("กราบเรียน"));
            assert_eq!(end.trace[0].step, "retrieval");
        }
        other => panic!("{other:?}"),
    }
}

#[test]
fn generate_contract_matches_supported_document_types() {
    let cases = [
        ("ภายนอก", "subject", "ขอเชิญประชุม"),
        ("ภายใน", "subject", "รายงานความคืบหน้า"),
        ("คำสั่ง", "title", "แต่งตั้งคณะทำงาน"),
        ("ประกาศ", "title", "แจ้งวันหยุดราชการ"),
    ];
    for (doc_type, title_field, subject) in cases {
        let mut req = request(DocType::from_thai(doc_type).unwrap(), subject);
        req.purpose = "แจ้งเพื่อทราบ".into();
        req.recipient_name = "หัวหน้าส่วนราชการ".into();
        req.sender_name = "นายสมชาย".into();
        req.sender_position = "ผู้อำนวยการ".into();
        req.use_critic = Some(false);
        match run(&req, &Vec::new()) {
            Generation::Done(end) => {
                assert_eq!(end.doc.get("doc_type").unwrap().as_str(), Some(doc_type));
                assert_eq!(end.doc.get(title_field).unwrap().as_str(), Some(subject));
                assert_eq!(end.trace[0].step, "retrieval");
                assert_eq!(end.trace[1].step, "generate");
                assert_eq!(end.trace[2].step, "critic");
                assert_eq!(
                    end.trace[2].detail.get("skipped").unwrap().as_bool(),
                    Some(true)
                );
            }
            other => panic!("{doc_type}: {other:?}"),
        }
    }
}

#[test]
fn generate_applies_deterministic_recipient_rules_after_llm_output() {
    let cases = [
        (RecipientClass::Executive, "กราบเรียน", "ขอแสดงความนับถืออย่างยิ่ง"),
        (RecipientClass::Monk, "กราบนมัสการ", "ขอนมัสการด้วยความเคารพ"),
        (RecipientClass::SeniorOfficial, "เรียน", "ขอแสดงความนับถืออย่างยิ่ง"),
    ];
    for (class, salutation, closing) in cases {
        let mut req = request(DocType::External, "ขอความอนุเคราะห์");
        req.purpose = "ขอรับการสนับสนุน".into();
        req.recipient_name = "ผู้รับ".into();
        req.recipient_class = class;
        req.sender_name = "นายสมชาย".into();
        req.sender_position = "ผู้อำนวยการ".into();
        req.use_critic = Some(false);
        match run(&req, &Vec::new()) {
            Generation::Done(end) => {
                assert_eq!(end.doc.get("salutation").unwrap().as_str(), Some(salutation));
                assert_eq!(end.doc.get("closing").unwrap().as_str(), Some(closing));
            }
            other => panic!("{class:?}: {other:?}"),
        }
    }
}

#[test]
fn examples_are_counted_in_the_trace() {
    let examples = vec![Json::object().with("subject", Json::text("ตัวอย่าง"))];
    match run(&request(DocType::External, "ขอเชิญประชุมประจำเดือน"), &examples) {
        Generation::Done(end) => {
            assert_eq!(end.trace[0].step, "retrieval");
            assert_eq!(end.trace[0].detail.to_text(), "{\"examples\":1}");
        }
        other => panic!("{other:?}"),
    }
}

#[test]
fn a_review_that_does_not_pass_sends_the_draft_back() {
    let req = request(DocType::Order, "แต่งตั้ง");
    let options = GenerationOptions::default();
    let state = generate_document_json(&req, &Vec::new(), schema(), schema(), options);
    let Generation::Draft(first) = state else {
        panic!()
    };
    let prompt = first.call.user.clone();
    let Generation::Review(pending) = first.drafted(Ok(Json::object())) else {
        panic!()
    };
    assert_eq!(pending.number, 1);
    let Generation::Draft(second) = pending.reviewed(review(false, &["เพิ่มวันที่"])) else {
        panic!()
    };
    assert!(second.call.user.starts_with(&prompt));
    assert!(second.call.user.contains("เพิ่มวันที่"));
    let Generation::Review(pending) = second.drafted(Ok(Json::object())) else {
        panic!()
    };
    assert_eq!(pending.number, 2);
    let Generation::Validate(pending) = pending.reviewed(review(true, &[])) else {
        panic!()
    };
    let Generation::Done(end) = pending.validated(Ok(())) else {
        panic!()
    };
    let steps: Vec<&str> = end.trace.iter().map(|t| t.step.as_str()).collect();
    assert_eq!(
        steps,
        vec!["retrieval", "generate", "critic", "generate", "critic"]
    );
}

#[test]
fn rounds_run_out() {
    let req = request(DocType::Order, "แต่งตั้ง");
    let options = GenerationOptions::default();
    let mut state = generate_document_json(&req, &Vec::new(), schema(), schema(), options);
    let mut reviews = 0;
    loop {
        state = match state {
            Generation::Draft(pending) => pending.drafted(Ok(Json::object())),
            Generation::Review(pending) => {
                reviews += 1;
                pending.reviewed(review(false, &[]))
            }
            Generation::Failed(end) => {
                assert!(matches!(end.error, GenerationError::CriticLoopExceeded(3)));
                assert_eq!(
                    end.error.message(),
                    "ไม่ผ่านการตรวจหลัง 3 รอบ ส่งต่อให้มนุษย์ตรวจสอบ"
                );
                break;
            }
            other => panic!("{other:?}"),
        };
    }
    assert_eq!(reviews, 3);
}

#[test]
fn failures_end_the_run() {
    let begin = || {
        let req = request(DocType::Order, "แต่งตั้ง");
        let options = GenerationOptions::default();
        match generate_document_json(&req, &Vec::new(), schema(), schema(), options) {
            Generation::Draft(pending) => pending,
            other => panic!("{other:?}"),
        }
    };
    let message = |state: Generation| match state {
        Generation::Failed(end) => end.error.message(),
        other => panic!("{other:?}"),
    };
    assert_eq!(message(begin().drafted(Err("x".into()))), "LLM error: x");
    let reviewing = || match begin().drafted(Ok(Json::object())) {
        Generation::Review(pending) => pending,
        other => panic!("{other:?}"),
    };
    assert_eq!(
        message(reviewing().reviewed(ReviewReply::Unavailable("y".into()))),
        "LLM error: y"
    );
    assert_eq!(
        message(reviewing().reviewed(ReviewReply::Malformed("z".into()))),
        "validation error: z"
    );
    let Generation::Validate(pending) = reviewing().reviewed(review(true, &[])) else {
        panic!()
    };
    assert_eq!(
        message(pending.validated(Err("w".into()))),
        "validation error: w"
    );
}

#[test]
fn rules_put_the_forms_of_address_into_objects() {
    let mut draft = Json::parse("{\"salutation\":\"x\",\"closing\":\"y\",\"body\":[]}").unwrap();
    apply_deterministic_rules(&mut draft, &RecipientClass::Royal);
    assert_eq!(draft.get("salutation").unwrap().as_str(), Some("กราบบังคมทูล"));
    assert_eq!(
        draft.get("closing").unwrap().as_str(),
        Some("ขอแสดงความนับถืออย่างยิ่ง")
    );
    let mut order = Json::parse("{\"title\":\"t\"}").unwrap();
    apply_deterministic_rules(&mut order, &RecipientClass::Royal);
    assert_eq!(
        order.to_text(),
        "{\"closing\":\"ขอแสดงความนับถืออย่างยิ่ง\",\"salutation\":\"กราบบังคมทูล\",\"title\":\"t\"}"
    );
    let mut text = Json::parse("\"x\"").unwrap();
    apply_deterministic_rules(&mut text, &RecipientClass::Royal);
    assert_eq!(text.to_text(), "\"x\"");
}
