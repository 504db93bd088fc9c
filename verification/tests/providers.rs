use govdoc::json::{Json, JsonNumber};
use govdoc::providers::{
    after_poll, endpoint_url, extract_json, json_system, models_url, natural_text,
    parse_ocr_response, read_chat, read_embedding, read_json_answer, read_ocr, EmbeddingConfig,
    Env, HttpReply, OcrConfig, Sampling, TyphoonConfig, Wait, JSON_ONLY,
};

fn json(text: &str) -> Json {
    Json::parse(text).unwrap()
}

fn env(vars: &[(&str, &str)]) -> Env {
    Env {
        vars: vars
            .iter()
            .map(|(k, v)| (k.to_string(), v.to_string()))
            .collect(),
    }
}

fn sampling() -> Sampling {
    Sampling {
        temperature: Json::Number(JsonNumber::Decimal("0.3".to_string())),
        top_p: None,
    }
}

fn answer(status: u16, payload: &str) -> HttpReply {
    HttpReply::Answer {
        status,
        status_text: format!("{status} Words"),
        payload: payload.to_string(),
    }
}

#[test]
fn extract_json_handles_plain_object() {
    let value = extract_json(r#"{"passed": true}"#).unwrap();
    assert_eq!(value.get("passed").unwrap().as_bool(), Some(true));
}

#[test]
fn extract_json_strips_code_fence() {
    let value = extract_json("```json\n{\"a\": 1}\n```").unwrap();
    assert!(matches!(
        value.get("a").unwrap(),
        Json::Number(JsonNumber::Unsigned(1))
    ));
}

#[test]
fn extract_json_recovers_from_surrounding_prose() {
    let value = extract_json("นี่คือผลลัพธ์:\n{\"passed\": false, \"issues\": []}\nจบ").unwrap();
    assert_eq!(value.get("passed").unwrap().as_bool(), Some(false));
}

#[test]
fn extract_json_errors_without_object() {
    assert!(extract_json("ไม่มี JSON เลย").is_err());
    assert_eq!(
        extract_json("ไม่มี JSON เลย").unwrap_err(),
        "no JSON object found in LLM output"
    );
    assert_eq!(
        extract_json("x {not json} y").unwrap_err(),
        "substring between first '{' and last '}' was not valid JSON"
    );
    assert_eq!(
        read_json_answer("ไม่มี").unwrap_err(),
        "could not parse JSON from LLM output: ไม่มี"
    );
}

#[test]
fn ocr_parses_natural_text_and_plain_pages() {
    let payload = json(
        r#"{
            "results": [
                {
                    "success": true,
                    "message": {
                        "choices": [
                            { "message": { "content": "{\"natural_text\": \"หน้า 1\"}" } }
                        ]
                    }
                },
                {
                    "success": true,
                    "message": { "choices": [ { "message": { "content": "หน้า 2" } } ] }
                }
            ]
        }"#,
    );
    assert_eq!(parse_ocr_response(&payload).unwrap(), "หน้า 1\n\nหน้า 2");
}

#[test]
fn ocr_surfaces_page_errors() {
    let payload = json(
        r#"{
            "results": [
                { "success": false, "filename": "scan.pdf", "error": "bad page" }
            ]
        }"#,
    );
    let err = parse_ocr_response(&payload).unwrap_err();
    assert!(err.contains("scan.pdf"));
    assert!(err.contains("bad page"));
    assert_eq!(err, "OCR failed for scan.pdf: bad page");
}

#[test]
fn ocr_answers_without_text_are_refused() {
    assert_eq!(
        parse_ocr_response(&json(r#"{"results":[]}"#)).unwrap_err(),
        "OCR returned no text"
    );
    assert_eq!(
        parse_ocr_response(&json(r#"{"a":1}"#)).unwrap_err(),
        "OCR response missing results array: {\"a\":1}"
    );
    assert_eq!(
        parse_ocr_response(&json(r#"{"results":[{}]}"#)).unwrap_err(),
        "OCR failed for page: unknown error"
    );
    assert_eq!(natural_text(r#"{"other":1}"#), r#"{"other":1}"#);
    assert_eq!(natural_text(r#"{"natural_text":"ก"}"#), "ก");
}

#[test]
fn chat_answers_are_read() {
    let good = r#"{"choices":[{"message":{"content":"สวัสดี"}}]}"#;
    assert_eq!(read_chat("u", answer(200, good)).unwrap(), "สวัสดี");
    assert_eq!(
        read_chat("u", answer(200, "{}")).unwrap_err(),
        "LLM response missing choices[0].message.content: {}"
    );
    assert_eq!(
        read_chat("u", answer(200, "x")).unwrap_err(),
        "LLM response was not valid JSON"
    );
    assert_eq!(
        read_chat("u", answer(503, "busy")).unwrap_err(),
        "LLM server returned 503 Words: busy"
    );
    assert_eq!(
        read_chat("u", HttpReply::Unreachable).unwrap_err(),
        "request to u failed"
    );
    assert_eq!(
        read_chat("u", HttpReply::Unreadable).unwrap_err(),
        "failed to read LLM response body"
    );
}

#[test]
fn embedding_answers_are_read() {
    let good = r#"{"data":[{"embedding":[1,-2,0.5]}]}"#;
    let vector = read_embedding("u", answer(200, good)).unwrap();
    assert!(matches!(vector[0], JsonNumber::Unsigned(1)));
    assert!(matches!(vector[1], JsonNumber::Negative(-2)));
    assert!(matches!(&vector[2], JsonNumber::Decimal(t) if t == "0.5"));
    assert_eq!(
        read_embedding("u", answer(200, r#"{"data":[{"embedding":["x"]}]}"#)).unwrap_err(),
        "embedding vector contained a non-number"
    );
    assert_eq!(
        read_embedding("u", answer(200, "{}")).unwrap_err(),
        "embedding response missing data[0].embedding: {}"
    );
    assert_eq!(
        read_embedding("u", answer(200, "")).unwrap_err(),
        "embedding response was not valid JSON"
    );
}

#[test]
fn scans_are_read() {
    let good = r#"{"results":[{"success":true,"message":{"choices":[{"message":{"content":"ก"}}]}}]}"#;
    let page = read_ocr("u", answer(200, good)).unwrap();
    assert_eq!(page.text, "ก");
    assert!(page.raw_json.get("results").is_some());
    assert_eq!(
        read_ocr("u", answer(200, "?")).unwrap_err(),
        "OCR response was not valid JSON"
    );
    assert_eq!(
        read_ocr("u", answer(401, "no")).unwrap_err(),
        "OCR server returned 401 Words: no"
    );
}

#[test]
fn services_are_configured_from_the_environment() {
    let local = TyphoonConfig::local(&env(&[]), &sampling());
    assert_eq!(local.base_url, "http://127.0.0.1:8080/v1");
    assert_eq!(local.model, "typhoon-ai/typhoon2.5-qwen3-4b");
    assert_eq!(local.api_key, None);
    let cloud = TyphoonConfig::cloud(
        &env(&[("LLM_API_KEY", "k"), ("LLM_MODEL", "m"), ("LLM_API_KEY", "last")]),
        &sampling(),
    );
    assert_eq!(cloud.base_url, "https://api.opentyphoon.ai/v1");
    assert_eq!(cloud.model, "m");
    assert_eq!(cloud.api_key.as_deref(), Some("last"));
    let embedding = EmbeddingConfig::from_env(&env(&[("LLM_BASE_URL", "b"), ("EMBEDDING_DIM", "x")]));
    assert_eq!(embedding.base_url, "b");
    assert_eq!(embedding.dimensions, 1024);
    assert_eq!(embedding.embedding_url(), "b/embeddings");
    assert_eq!(
        embedding.embedding_request("ก").to_text(),
        r#"{"input":"ก","model":"text-embedding-3-small"}"#
    );
    let ocr = OcrConfig::from_env(&env(&[("LLM_API_KEY", "")]));
    assert_eq!(ocr.model, "typhoon-ocr");
    assert_eq!(ocr.api_key, None);
    assert_eq!(
        ocr.page_request(None).unwrap_err(),
        "OCR requires LLM_API_KEY"
    );
    let ocr = OcrConfig::from_env(&env(&[("LLM_API_KEY", "k")]));
    let request = ocr.page_request(Some(3)).unwrap();
    assert_eq!(request.url, "https://api.opentyphoon.ai/v1/ocr");
    assert_eq!(request.form[0], ("model".to_string(), "typhoon-ocr".to_string()));
    assert_eq!(
        request.form.last().unwrap(),
        &("page_num".to_string(), "3".to_string())
    );
}

#[test]
fn chat_requests_say_what_is_asked() {
    let mut config = TyphoonConfig::local(&env(&[("LLM_BASE_URL", "http://h/v1//")]), &sampling());
    assert_eq!(config.chat_url(), "http://h/v1/chat/completions");
    config.top_p = Some(Json::Number(JsonNumber::Decimal("0.9".to_string())));
    assert_eq!(
        config.chat_request("s", "u", 16).to_text(),
        concat_parts(&[
            r#"{"max_tokens":16,"messages":[{"content":"s","role":"system"},"#,
            r#"{"content":"u","role":"user"}],"model":"typhoon-ai/typhoon2.5-qwen3-4b","#,
            r#""stream":false,"temperature":0.3,"top_p":0.9}"#,
        ])
    );
    assert_eq!(json_system("s"), format!("s{JSON_ONLY}"));
    assert_eq!(endpoint_url("http://h/", "/x"), "http://h/x");
}

fn concat_parts(parts: &[&str]) -> String {
    parts.concat()
}

#[test]
fn a_local_service_is_waited_for() {
    assert_eq!(models_url("http://h/v1/"), "http://h/v1/models");
    assert!(matches!(after_poll("u", 5, true, true), Wait::Ready));
    assert!(matches!(after_poll("u", 5, false, false), Wait::Again(2)));
    match after_poll("u", 180, false, true) {
        Wait::TimedOut(e) => assert_eq!(
            e,
            format!(
                "local LLM server at u did not become ready within {:?}",
                std::time::Duration::from_secs(180)
            )
        ),
        other => panic!("{other:?}"),
    }
    match after_poll("u", 0, false, true) {
        Wait::TimedOut(e) => assert!(e.ends_with(&format!(
            "{:?}",
            std::time::Duration::from_secs(0)
        ))),
        other => panic!("{other:?}"),
    }
}
