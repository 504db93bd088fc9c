//! What the environment selects: the services in use, where files go, and how
//! the renderer is called.
use vstd::prelude::*;

use crate::error::internal;
use crate::error::INTERNAL_SERVER_ERROR;
use crate::error::ApiError;
use crate::json::empty_object;
use crate::json::Json;
use crate::json::JsonView;
use crate::number::parse_u64;
use crate::number::parsed;
use crate::providers::cloud_service;
use crate::providers::embedding_service;
use crate::providers::local_service;
use crate::providers::ocr_service;
use crate::providers::ChatView;
use crate::providers::EmbeddingConfig;
use crate::providers::Env;
use crate::providers::OcrConfig;
use crate::providers::Sampling;
use crate::providers::TyphoonConfig;
use crate::text::begins_with;
use crate::text::cat2;
use crate::text::cat3;
use crate::text::chars_of;
use crate::text::lemma_begins_with_concat;
use crate::text::opt_str;
use crate::text::opt_text;
use crate::text::replaced;
use crate::text::same;

verus! {

// ---------------------------------------------------------------------------
// The language model
// ---------------------------------------------------------------------------

/// The language model in use.
#[derive(Debug)]
pub enum LlmBackend {
    /// The one that answers by rule.
    Fake,
    TyphoonLocal(TyphoonConfig),
    TyphoonCloud(TyphoonConfig),
}

/// What the language model in use is.
pub enum LlmView {
    Fake,
    Local(ChatView),
    Cloud(ChatView),
}

/// The language model that the environment selects.
pub open spec fn selected_llm(env: Env, sampling: Sampling) -> LlmView {
    match env.value("LLM_BACKEND"@) {
        Some(name) => if name == "typhoon-cloud"@ || name == "cloud"@ || name == "key"@ {
            LlmView::Cloud(cloud_service(env, sampling))
        } else if name == "typhoon-local"@ || name == "typhoon"@ || name == "local"@ {
            LlmView::Local(local_service(env, sampling))
        } else {
            LlmView::Fake
        },
        None => LlmView::Fake,
    }
}

impl LlmBackend {
    pub open spec fn view(&self) -> LlmView {
        match self {
            LlmBackend::Fake => LlmView::Fake,
            LlmBackend::TyphoonLocal(c) => LlmView::Local(c@),
            LlmBackend::TyphoonCloud(c) => LlmView::Cloud(c@),
        }
    }

    /// The language model that the environment selects.
    pub fn from_env(env: &Env, sampling: &Sampling) -> (r: LlmBackend)
        ensures
            r@ == selected_llm(*env, *sampling),
    {
        match env.var("LLM_BACKEND") {
            Some(name) => {
                if same(name, "typhoon-cloud") || same(name, "cloud") || same(name, "key") {
                    LlmBackend::TyphoonCloud(TyphoonConfig::cloud(env, sampling))
                } else if same(name, "typhoon-local") || same(name, "typhoon") || same(
                    name,
                    "local",
                ) {
                    LlmBackend::TyphoonLocal(TyphoonConfig::local(env, sampling))
                } else {
                    LlmBackend::Fake
                }
            },
            None => LlmBackend::Fake,
        }
    }

    /// Whether the language model can be asked: a hosted one needs a key.
    pub fn check(&self) -> (r: Result<(), ApiError>)
        ensures
            match r {
                Ok(_) => !(self@ matches LlmView::Cloud(c) && c.api_key is None),
                Err(e) => (self@ matches LlmView::Cloud(c) && c.api_key is None) && e@ == internal(
                    "LLM_BACKEND=typhoon-cloud requires LLM_API_KEY"@,
                ),
            },
    {
        match self {
            LlmBackend::TyphoonCloud(config) => match &config.api_key {
                Some(_) => Ok(()),
                None => Err(
                    ApiError::new(
                        INTERNAL_SERVER_ERROR,
                        "LLM_BACKEND=typhoon-cloud requires LLM_API_KEY",
                    ),
                ),
            },
            _ => Ok(()),
        }
    }
}

// ---------------------------------------------------------------------------
// The embedding model and the reader of scans
// ---------------------------------------------------------------------------

/// The embedding model in use.
#[derive(Debug)]
pub enum EmbeddingBackend {
    /// The one whose vectors are zero.
    Fake,
    Remote(EmbeddingConfig),
}

/// Whether the environment selects an embedding service.
pub open spec fn embeds_remotely(env: Env) -> bool {
    match env.value("EMBEDDING_BACKEND"@) {
        Some(name) => name == "typhoon"@ || name == "openai"@ || name == "remote"@ || name
            == "cloud"@,
        None => false,
    }
}

impl EmbeddingBackend {
    /// Whether examples are looked for by their vectors: not where the service
    /// is a stand-in, whose vectors mean nothing.
    pub fn compares_vectors(&self) -> (r: bool)
        ensures
            r == (self is Remote),
    {
        match self {
            EmbeddingBackend::Remote(_) => true,
            EmbeddingBackend::Fake => false,
        }
    }

    /// The embedding model that the environment selects.
    pub fn from_env(env: &Env) -> (r: EmbeddingBackend)
        ensures
            match r {
                EmbeddingBackend::Fake => !embeds_remotely(*env),
                EmbeddingBackend::Remote(config) => embeds_remotely(*env) && config@
                    == embedding_service(*env),
            },
    {
        match env.var("EMBEDDING_BACKEND") {
            Some(name) => {
                if same(name, "typhoon") || same(name, "openai") || same(name, "remote") || same(
                    name,
                    "cloud",
                ) {
                    EmbeddingBackend::Remote(EmbeddingConfig::from_env(env))
                } else {
                    EmbeddingBackend::Fake
                }
            },
            None => EmbeddingBackend::Fake,
        }
    }
}

/// The reader of scans that the environment describes, which needs a key.
pub fn build_ocr(env: &Env) -> (r: Result<OcrConfig, ApiError>)
    ensures
        match r {
            Ok(config) => config@ == ocr_service(*env) && config@.api_key is Some,
            Err(e) => ocr_service(*env).api_key is None && e@ == internal(
                "OCR ingestion requires LLM_API_KEY"@,
            ),
        },
{
    let config = OcrConfig::from_env(env);
    match &config.api_key {
        Some(_) => Ok(config),
        None => Err(ApiError::new(INTERNAL_SERVER_ERROR, "OCR ingestion requires LLM_API_KEY")),
    }
}

// ---------------------------------------------------------------------------
// Starting a local model
// ---------------------------------------------------------------------------

/// Whether a variable is set to yes.
pub open spec fn is_flag(env: Env, name: Seq<char>) -> bool {
    match env.value(name) {
        Some(v) => v == "1"@ || v == "true"@ || v == "yes"@,
        None => false,
    }
}

/// Whether a variable is set to yes.
pub fn env_flag(env: &Env, name: &str) -> (r: bool)
    ensures
        r == is_flag(*env, name@),
{
    match env.var(name) {
        Some(v) => same(v, "1") || same(v, "true") || same(v, "yes"),
        None => false,
    }
}

/// How the local model is started.
#[derive(Debug)]
pub struct ServePlan {
    pub script: String,
    pub base_url: String,
    /// How long to wait for it, in seconds.
    pub timeout: u64,
}

/// How the local model is started, if it is to be.
pub fn serve_plan(env: &Env, sampling: &Sampling) -> (r: Option<ServePlan>)
    ensures
        match r {
            Some(plan) => {
                &&& is_flag(*env, "LLM_AUTO_SERVE"@)
                &&& selected_llm(*env, *sampling) is Local
                &&& plan.script@ == env.value_or("LLM_SERVE_CMD"@, "scripts/serve_llm.sh"@)
                &&& plan.base_url@ == local_service(*env, *sampling).base_url
                &&& plan.timeout == (match env.value("LLM_SERVE_TIMEOUT_SECS"@) {
                    Some(raw) => match parsed(raw, u64::MAX as nat) {
                        Some(n) => n,
                        None => 180nat,
                    },
                    None => 180nat,
                })
            },
            None => !is_flag(*env, "LLM_AUTO_SERVE"@) || !(selected_llm(
                *env,
                *sampling,
            ) is Local),
        },
{
    if !env_flag(env, "LLM_AUTO_SERVE") {
        return None;
    }
    let config = match LlmBackend::from_env(env, sampling) {
        LlmBackend::TyphoonLocal(config) => config,
        _ => {
            return None;
        },
    };
    let timeout: u64 = match env.var("LLM_SERVE_TIMEOUT_SECS") {
        Some(raw) => match parse_u64(raw) {
            Some(n) => n,
            None => 180,
        },
        None => 180,
    };
    Some(
        ServePlan {
            script: env.var_or("LLM_SERVE_CMD", "scripts/serve_llm.sh"),
            base_url: config.base_url,
            timeout,
        },
    )
}

// ---------------------------------------------------------------------------
// Status
// ---------------------------------------------------------------------------

/// The name of the language model in use, and whether it can be asked.
pub open spec fn llm_status(llm: LlmView) -> JsonView {
    let (name, ready) = match llm {
        LlmView::Fake => ("fake"@, true),
        LlmView::Local(_) => ("typhoon-local"@, true),
        LlmView::Cloud(c) => ("typhoon-cloud"@, c.api_key is Some),
    };
    empty_object().with("backend"@, JsonView::Text(name)).with("ready"@, JsonView::Bool(ready))
}

/// What is told about the services in use.
pub open spec fn status_report(
    app: Seq<char>,
    llm: LlmView,
    remote: bool,
    renderer: bool,
    env: Env,
) -> JsonView {
    empty_object().with("app"@, JsonView::Text(app)).with("llm"@, llm_status(llm)).with(
        "embedding"@,
        empty_object().with(
            "backend"@,
            JsonView::Text(
                if remote {
                    "remote"@
                } else {
                    "fake"@
                },
            ),
        ),
    ).with(
        "ocr"@,
        empty_object().with("ready"@, JsonView::Bool(env.setting("LLM_API_KEY"@) is Some)),
    ).with("renderer_configured"@, JsonView::Bool(renderer)).with(
        "persistent"@,
        JsonView::Bool(env.setting("SQLITE_PATH"@) is Some),
    )
}

/// What is told about the services in use.
pub fn status(
    app: &str,
    llm: &LlmBackend,
    embedding: &EmbeddingBackend,
    renderer: bool,
    env: &Env,
) -> (r: Json)
    ensures
        r@ == status_report(app@, llm@, embedding is Remote, renderer, *env),
{
    let (name, ready) = match llm {
        LlmBackend::Fake => ("fake", true),
        LlmBackend::TyphoonLocal(_) => ("typhoon-local", true),
        LlmBackend::TyphoonCloud(config) => ("typhoon-cloud", config.api_key.is_some()),
    };
    let model = match embedding {
        EmbeddingBackend::Fake => "fake",
        EmbeddingBackend::Remote(_) => "remote",
    };
    let ocr_ready = env.optional_env("LLM_API_KEY").is_some();
    let persistent = env.optional_env("SQLITE_PATH").is_some();
    let mut report = Json::object();
    report.insert("app", Json::text(app));
    report.insert(
        "llm",
        Json::object().with("backend", Json::text(name)).with("ready", Json::Bool(ready)),
    );
    report.insert("embedding", Json::object().with("backend", Json::text(model)));
    report.insert("ocr", Json::object().with("ready", Json::Bool(ocr_ready)));
    report.insert("renderer_configured", Json::Bool(renderer));
    report.insert("persistent", Json::Bool(persistent));
    report
}

/// What is told to a caller who asks whether the service is up.
pub fn health(app: &str) -> (r: Json)
    ensures
        r@ == empty_object().with("status"@, JsonView::Text("ok"@)).with(
            "app"@,
            JsonView::Text(app@),
        ),
{
    Json::object().with("status", Json::text("ok")).with("app", Json::text(app))
}

// ---------------------------------------------------------------------------
// The renderer and the directories
// ---------------------------------------------------------------------------

/// What a character of a path becomes between single quotes.
pub open spec fn quote_char(c: char) -> Seq<char> {
    if c == '\'' {
        "'\\''"@
    } else {
        seq![c]
    }
}

/// A path as one word of a shell command.
pub open spec fn quoted(path: Seq<char>) -> Seq<char> {
    "'"@ + replaced(path, |c: char| quote_char(c)) + "'"@
}

/// A path as one word of a shell command.
pub fn shell_quote_path(path: &str) -> (r: String)
    ensures
        r@ == quoted(path@),
{
    let cs = chars_of(path);
    let ghost f = |c: char| quote_char(c);
    let mut inner = String::new();
    assert(inner@ =~= replaced(cs@.take(0), f));
    let mut i: usize = 0;
    while i < cs.len()
        invariant
            i <= cs@.len(),
            f == (|c: char| quote_char(c)),
            inner@ == replaced(cs@.take(i as int), f),
        decreases cs@.len() - i,
    {
        assert(cs@.take(i as int + 1).drop_last() =~= cs@.take(i as int));
        if cs[i] == '\'' {
            inner.append("'\\''");
        } else {
            inner.push(cs[i]);
        }
        assert(inner@ =~= replaced(cs@.take(i as int + 1), f));
        i += 1;
    }
    assert(cs@.take(cs@.len() as int) =~= cs@);
    cat3("'", inner.as_str(), "'")
}

/// The word that a POSIX shell reads from a text of single quotes, backslashes
/// and other characters. There is none when a quote is not closed, when nothing
/// follows a backslash, or when a character has a meaning of its own to the
/// shell and stands outside quotes.
pub open spec fn shell_word(s: Seq<char>, quoting: bool) -> Option<Seq<char>>
    decreases s.len(),
{
    if s.len() == 0 {
        if quoting {
            None
        } else {
            Some(Seq::empty())
        }
    } else if s[0] == '\'' {
        shell_word(s.drop_first(), !quoting)
    } else if quoting {
        match shell_word(s.drop_first(), quoting) {
            Some(rest) => Some(seq![s[0]] + rest),
            None => None,
        }
    } else if s[0] == '\\' && s.len() > 1 {
        match shell_word(s.skip(2), quoting) {
            Some(rest) => Some(seq![s[1]] + rest),
            None => None,
        }
    } else {
        None
    }
}

proof fn lemma_quoted_inside(path: Seq<char>, tail: Seq<char>)
    requires
        shell_word(tail, true) is Some,
    ensures
        shell_word(replaced(path, |c: char| quote_char(c)) + tail, true) == Some(
            path + shell_word(tail, true)->0,
        ),
    decreases path.len(),
{
    let f = |c: char| quote_char(c);
    if path.len() == 0 {
        assert(replaced(path, f) + tail =~= tail);
        assert(path + shell_word(tail, true)->0 =~= shell_word(tail, true)->0);
    } else {
        let c = path.last();
        let q = quote_char(c);
        let more = q + tail;
        reveal_strlit("'\\''");
        if c == '\'' {
            assert(q =~= seq!['\'', '\\', '\'', '\'']);
            let s1 = more.drop_first();
            assert(s1 =~= seq!['\\', '\'', '\''] + tail);
            let s2 = s1.skip(2);
            assert(s2 =~= seq!['\''] + tail);
            assert(s2.drop_first() =~= tail);
            assert(shell_word(s2, false) == shell_word(tail, true));
            assert(shell_word(s1, false) == Some(seq!['\''] + shell_word(tail, true)->0));
            assert(shell_word(more, true) == shell_word(s1, false));
        } else {
            assert(more.drop_first() =~= tail);
        }
        assert(shell_word(more, true) == Some(seq![c] + shell_word(tail, true)->0));
        lemma_quoted_inside(path.drop_last(), more);
        assert(replaced(path, f) + tail =~= replaced(path.drop_last(), f) + more);
        assert(path.drop_last() + (seq![c] + shell_word(tail, true)->0) =~= path + shell_word(
            tail,
            true,
        )->0);
    }
}

/// Whatever characters a path holds, a shell reads the quoted path as one word
/// that is the path.
pub proof fn law_shell_reads_quoted_path_back(path: Seq<char>)
    ensures
        shell_word(quoted(path), false) == Some(path),
{
    reveal_strlit("'");
    let tail = "'"@;
    assert(tail =~= seq!['\'']);
    assert(tail.drop_first() =~= Seq::empty());
    assert(shell_word(Seq::<char>::empty(), false) == Some(Seq::<char>::empty()));
    assert(shell_word(tail, true) == Some(Seq::<char>::empty()));
    lemma_quoted_inside(path, tail);
    let body = replaced(path, |c: char| quote_char(c)) + tail;
    assert(quoted(path) =~= seq!['\''] + body);
    assert(quoted(path).drop_first() =~= body);
    assert(path + Seq::<char>::empty() =~= path);
}

/// The command of the renderer: the one that is set, else the script that was
/// found, run by Python.
pub open spec fn renderer_command(env: Env, script: Option<Seq<char>>) -> Option<Seq<char>> {
    match env.setting("GOVDOC_RENDERER_CMD"@) {
        Some(command) => Some(command),
        None => match script {
            Some(path) => Some("python3 "@ + quoted(path)),
            None => None,
        },
    }
}

/// The command of the renderer, where `script` is the path of the script that
/// comes with the program, if it was found.
pub fn renderer_cmd_from_env(env: &Env, script: Option<&str>) -> (r: Option<String>)
    ensures
        opt_text(r) == renderer_command(*env, opt_str(script)),
{
    match env.optional_env("GOVDOC_RENDERER_CMD") {
        Some(command) => Some(command),
        None => match script {
            Some(path) => Some(cat2("python3 ", shell_quote_path(path).as_str())),
            None => None,
        },
    }
}

/// A setting, or a path that was found in its place.
pub fn optional_env_or_existing_path(env: &Env, name: &str, found: Option<&str>) -> (r: Option<
    String,
>)
    ensures
        opt_text(r) == (match env.setting(name@) {
            Some(v) => Some(v),
            None => opt_str(found),
        }),
{
    match env.optional_env(name) {
        Some(v) => Some(v),
        None => crate::text::own(found),
    }
}

/// The directory that exports go to: the one that is set, else the downloads of
/// the user where there are any, else one of the program's own.
pub fn render_exports_dir(env: &Env, downloads: Option<&str>) -> (r: String)
    ensures
        r@ == (match env.setting("GOVDOC_EXPORTS_DIR"@) {
            Some(dir) => dir,
            None => match opt_str(downloads) {
                Some(dir) => if env.setting("HOME"@) is Some {
                    dir
                } else {
                    "app-data/exports"@
                },
                None => "app-data/exports"@,
            },
        }),
{
    match env.optional_env("GOVDOC_EXPORTS_DIR") {
        Some(dir) => dir,
        None => match downloads {
            Some(dir) => if env.optional_env("HOME").is_some() {
                dir.to_owned()
            } else {
                "app-data/exports".to_owned()
            },
            None => "app-data/exports".to_owned(),
        },
    }
}

/// The directory that uploaded templates go to.
pub fn templates_dir(env: &Env) -> (r: String)
    ensures
        r@ == env.value_or("GOVDOC_TEMPLATES_DIR"@, "app-data/templates"@),
{
    env.var_or("GOVDOC_TEMPLATES_DIR", "app-data/templates")
}

/// The directory that general documents go to.
pub fn general_docs_dir(env: &Env) -> (r: String)
    ensures
        r@ == (match env.setting("GOVDOC_GENERAL_DOCS_DIR"@) {
            Some(dir) => dir,
            None => "app-data/general-documents"@,
        }),
{
    match env.optional_env("GOVDOC_GENERAL_DOCS_DIR") {
        Some(dir) => dir,
        None => "app-data/general-documents".to_owned(),
    }
}

/// The language model is the one that the environment names, and the stand-in
/// where it names none that is known.
pub proof fn law_model_is_chosen_by_name(env: Env, sampling: Sampling, name: Seq<char>)
    requires
        env.value("LLM_BACKEND"@) == Some(name),
    ensures
        name == "cloud"@ || name == "key"@ || name == "typhoon-cloud"@ ==> selected_llm(
            env,
            sampling,
        ) == LlmView::Cloud(cloud_service(env, sampling)),
        name == "local"@ || name == "typhoon"@ || name == "typhoon-local"@ ==> selected_llm(
            env,
            sampling,
        ) == LlmView::Local(local_service(env, sampling)),
        name == "fake"@ || name.len() == 0 ==> selected_llm(env, sampling) is Fake,
        env.value("EMBEDDING_BACKEND"@) == Some(name) ==> (embeds_remotely(env) <==> (name
            == "typhoon"@ || name == "openai"@ || name == "remote"@ || name == "cloud"@)),
{
    reveal_strlit("cloud");
    reveal_strlit("key");
    reveal_strlit("typhoon-cloud");
    reveal_strlit("local");
    reveal_strlit("typhoon");
    reveal_strlit("typhoon-local");
    reveal_strlit("fake");
    assert("cloud"@.len() == 5 && "cloud"@[0] == 'c');
    assert("local"@.len() == 5 && "local"@[0] == 'l');
    assert("key"@.len() == 3);
    assert("fake"@.len() == 4);
    assert("typhoon"@.len() == 7);
    assert("typhoon-cloud"@.len() == 13 && "typhoon-cloud"@[8] == 'c');
    assert("typhoon-local"@.len() == 13 && "typhoon-local"@[8] == 'l');
}

/// Without a choice the stand-ins are used.
pub proof fn law_stand_ins_are_the_default(env: Env, sampling: Sampling)
    ensures
        env.value("LLM_BACKEND"@) is None ==> selected_llm(env, sampling) is Fake,
        env.value("EMBEDDING_BACKEND"@) is None ==> !embeds_remotely(env),
        env.value("LLM_AUTO_SERVE"@) is None ==> !is_flag(env, "LLM_AUTO_SERVE"@),
{
}

/// The names in the report are six.
proof fn lemma_report_names_differ()
    ensures
        "app"@ != "llm"@,
        "app"@ != "embedding"@,
        "app"@ != "ocr"@,
        "app"@ != "renderer_configured"@,
        "app"@ != "persistent"@,
        "llm"@ != "embedding"@,
        "llm"@ != "ocr"@,
        "llm"@ != "renderer_configured"@,
        "llm"@ != "persistent"@,
        "embedding"@ != "ocr"@,
        "embedding"@ != "renderer_configured"@,
        "embedding"@ != "persistent"@,
        "ocr"@ != "renderer_configured"@,
        "ocr"@ != "persistent"@,
        "renderer_configured"@ != "persistent"@,
        "backend"@ != "ready"@,
{
    reveal_strlit("app");
    reveal_strlit("llm");
    reveal_strlit("embedding");
    reveal_strlit("ocr");
    reveal_strlit("renderer_configured");
    reveal_strlit("persistent");
    reveal_strlit("backend");
    reveal_strlit("ready");
    assert("app"@.len() == 3 && "app"@[0] == 'a');
    assert("llm"@.len() == 3 && "llm"@[0] == 'l');
    assert("ocr"@.len() == 3 && "ocr"@[0] == 'o');
    assert("embedding"@.len() == 9);
    assert("persistent"@.len() == 10);
    assert("renderer_configured"@.len() == 19);
    assert("backend"@.len() == 7);
    assert("ready"@.len() == 5);
}

/// The report tells the truth about each service: a hosted model is ready only with
/// a key, scans can be read only with a key, and what is kept lasts only where
/// there is a path to keep it.
pub proof fn law_report_tells_what_is_ready(
    app: Seq<char>,
    llm: LlmView,
    remote: bool,
    renderer: bool,
    env: Env,
)
    ensures
        ({
            let report = status_report(app, llm, remote, renderer, env);
            &&& report.member("app"@) == Some(JsonView::Text(app))
            &&& report.member("llm"@) matches Some(model) && {
                &&& model.member("backend"@) == Some(
                    JsonView::Text(
                        match llm {
                            LlmView::Fake => "fake"@,
                            LlmView::Local(_) => "typhoon-local"@,
                            LlmView::Cloud(_) => "typhoon-cloud"@,
                        },
                    ),
                )
                &&& model.member("ready"@) == Some(
                    JsonView::Bool(llm matches LlmView::Cloud(c) ==> c.api_key is Some),
                )
            }
            &&& report.member("embedding"@) matches Some(model) && model.member("backend"@) == Some(
                JsonView::Text(
                    if remote {
                        "remote"@
                    } else {
                        "fake"@
                    },
                ),
            )
            &&& report.member("ocr"@) matches Some(reader) && reader.member("ready"@) == Some(
                JsonView::Bool(ocr_service(env).api_key is Some),
            )
            &&& report.member("renderer_configured"@) == Some(JsonView::Bool(renderer))
            &&& report.member("persistent"@) == Some(
                JsonView::Bool(
                    env.value("SQLITE_PATH"@) matches Some(path) && path.len() > 0,
                ),
            )
        }),
{
    lemma_report_names_differ();
}

/// The command of the renderer is the one that is set; where none is set it runs
/// the script that was found, whose path the shell reads as it is.
pub proof fn law_renderer_command(env: Env, script: Seq<char>, command: Seq<char>)
    ensures
        env.value("GOVDOC_RENDERER_CMD"@) == Some(command) && command.len() > 0
            ==> renderer_command(env, Some(script)) == Some(command) && renderer_command(env, None)
            == Some(command),
        env.value("GOVDOC_RENDERER_CMD"@) is None ==> renderer_command(env, None) is None && (
        renderer_command(env, Some(script)) matches Some(c) && begins_with(c, "python3 "@)
            && c.skip("python3 "@.len() as int) == quoted(script)),
{
    lemma_begins_with_concat("python3 "@, quoted(script));
}

/// A variable means yes in three spellings, and in no other.
pub proof fn law_flags_are_spelled_out(env: Env, name: Seq<char>, value: Seq<char>)
    requires
        env.value(name) == Some(value),
    ensures
        value == "1"@ || value == "true"@ || value == "yes"@ ==> is_flag(env, name),
        value == "0"@ || value == "false"@ || value == "no"@ || value.len() == 0 ==> !is_flag(
            env,
            name,
        ),
{
    reveal_strlit("1");
    reveal_strlit("true");
    reveal_strlit("yes");
    reveal_strlit("0");
    reveal_strlit("false");
    reveal_strlit("no");
    assert("1"@.len() == 1 && "1"@[0] == '1');
    assert("true"@.len() == 4);
    assert("yes"@.len() == 3);
    assert("0"@.len() == 1 && "0"@[0] == '0');
    assert("false"@.len() == 5);
    assert("no"@.len() == 2);
}

} // verus!
