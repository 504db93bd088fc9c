use govdoc::json::{Json, JsonNumber};
use govdoc::providers::{Env, Sampling};
use govdoc::settings::{
    build_ocr, env_flag, general_docs_dir, health, optional_env_or_existing_path,
    render_exports_dir, renderer_cmd_from_env, serve_plan, shell_quote_path, status,
    templates_dir, EmbeddingBackend, LlmBackend,
};

fn env(vars: &[(&str, &str)]) -> Env {
    Env {
        vars: vars
            .iter()
            .map(|(k, v)| (k.to_string(), v.to_string()))
            .collect(),
    }
}

fn sampling() -> Sampling {
    Sampling {
        temperature: Json::Number(JsonNumber::Decimal("0.3".to_string())),
        top_p: None,
    }
}

#[test]
fn status_reports_default_backends() {
    let env = env(&[]);
    let llm = LlmBackend::from_env(&env, &sampling());
    let embedding = EmbeddingBackend::from_env(&env);
    let report = status("govdoc-generator-rust", &llm, &embedding, false, &env);
    assert_eq!(
        report.get("llm").unwrap().get("backend").unwrap().as_str(),
        Some("fake")
    );
    assert_eq!(
        report
            .get("embedding")
            .unwrap()
            .get("backend")
            .unwrap()
            .as_str(),
        Some("fake")
    );
    assert_eq!(
        report.to_text(),
        r#"{"app":"govdoc-generator-rust","embedding":{"backend":"fake"},"llm":{"backend":"fake","ready":true},"ocr":{"ready":false},"persistent":false,"renderer_configured":false}"#
    );
}

#[test]
fn health_endpoint_keeps_contract() {
    let body = health("govdoc-generator-rust");
    assert_eq!(body.get("status").unwrap().as_str(), Some("ok"));
    assert_eq!(
        body.get("app").unwrap().as_str(),
        Some("govdoc-generator-rust")
    );
}

#[test]
fn backends_are_selected_by_name() {
    for name in ["typhoon-cloud", "cloud", "key"] {
        let backend = LlmBackend::from_env(&env(&[("LLM_BACKEND", name)]), &sampling());
        assert!(matches!(backend, LlmBackend::TyphoonCloud(_)));
        let refusal = backend.check().unwrap_err();
        assert_eq!(refusal.status, 500);
        assert_eq!(
            refusal.detail,
            "LLM_BACKEND=typhoon-cloud requires LLM_API_KEY"
        );
        let keyed = env(&[("LLM_BACKEND", name), ("LLM_API_KEY", "k")]);
        assert!(LlmBackend::from_env(&keyed, &sampling()).check().is_ok());
    }
    for name in ["typhoon-local", "typhoon", "local"] {
        let backend = LlmBackend::from_env(&env(&[("LLM_BACKEND", name)]), &sampling());
        assert!(matches!(backend, LlmBackend::TyphoonLocal(_)));
        assert!(backend.check().is_ok());
    }
    let backend = LlmBackend::from_env(&env(&[("LLM_BACKEND", "other")]), &sampling());
    assert!(matches!(backend, LlmBackend::Fake));
    for name in ["typhoon", "openai", "remote", "cloud"] {
        let backend = EmbeddingBackend::from_env(&env(&[("EMBEDDING_BACKEND", name)]));
        assert!(matches!(backend, EmbeddingBackend::Remote(_)));
        assert!(backend.compares_vectors());
    }
    let backend = EmbeddingBackend::from_env(&env(&[("EMBEDDING_BACKEND", "local")]));
    assert!(matches!(backend, EmbeddingBackend::Fake));
    assert!(!backend.compares_vectors());
    assert_eq!(
        build_ocr(&env(&[])).unwrap_err().detail,
        "OCR ingestion requires LLM_API_KEY"
    );
    assert!(build_ocr(&env(&[("LLM_API_KEY", "k")])).is_ok());
}

#[test]
fn a_local_model_is_started_only_when_asked_for() {
    assert!(serve_plan(&env(&[("LLM_AUTO_SERVE", "1")]), &sampling()).is_none());
    assert!(serve_plan(&env(&[("LLM_BACKEND", "local")]), &sampling()).is_none());
    let plan = serve_plan(
        &env(&[("LLM_BACKEND", "local"), ("LLM_AUTO_SERVE", "yes")]),
        &sampling(),
    )
    .unwrap();
    assert_eq!(plan.script, "scripts/serve_llm.sh");
    assert_eq!(plan.timeout, 180);
    let plan = serve_plan(
        &env(&[
            ("LLM_BACKEND", "local"),
            ("LLM_AUTO_SERVE", "true"),
            ("LLM_SERVE_TIMEOUT_SECS", "7"),
            ("LLM_SERVE_CMD", "x.sh"),
        ]),
        &sampling(),
    )
    .unwrap();
    assert_eq!((plan.script.as_str(), plan.timeout), ("x.sh", 7));
    assert!(!env_flag(&env(&[("F", "TRUE")]), "F"));
}

#[test]
fn paths_are_quoted_for_the_shell() {
    assert_eq!(shell_quote_path("/a b/c"), "'/a b/c'");
    assert_eq!(shell_quote_path("it's"), "'it'\\''s'");
    assert_eq!(
        renderer_cmd_from_env(&env(&[]), Some("/s/r.py")).as_deref(),
        Some("python3 '/s/r.py'")
    );
    assert_eq!(
        renderer_cmd_from_env(&env(&[("GOVDOC_RENDERER_CMD", "run")]), Some("x")).as_deref(),
        Some("run")
    );
    assert_eq!(renderer_cmd_from_env(&env(&[]), None), None);
}

#[test]
fn directories_have_defaults() {
    assert_eq!(templates_dir(&env(&[])), "app-data/templates");
    assert_eq!(general_docs_dir(&env(&[])), "app-data/general-documents");
    assert_eq!(
        general_docs_dir(&env(&[("GOVDOC_GENERAL_DOCS_DIR", "/d")])),
        "/d"
    );
    assert_eq!(render_exports_dir(&env(&[]), None), "app-data/exports");
    assert_eq!(
        render_exports_dir(&env(&[("HOME", "/h")]), Some("/h/Downloads")),
        "/h/Downloads"
    );
    assert_eq!(
        render_exports_dir(&env(&[("GOVDOC_EXPORTS_DIR", "/e"), ("HOME", "/h")]), Some("/x")),
        "/e"
    );
    assert_eq!(
        optional_env_or_existing_path(&env(&[("P", "")]), "P", Some("found")).as_deref(),
        Some("found")
    );
}
