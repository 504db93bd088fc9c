//! The services that the library turns to: how they are configured, what they
//! are sent, and what is read from their answers. Sending is left to the
//! caller.
//!
//! Chat and embedding services speak the OpenAI contract, so that local and
//! hosted services differ only in address, model and key.
use vstd::prelude::*;

use crate::fields::lookup;
use crate::fields::lookup_nonempty;
use crate::fields::nonempty;
use crate::fields::value_at;
use crate::json::empty_object;
use crate::json::json_text;
use crate::json::parsed_json;
use crate::json::Json;
use crate::json::JsonNumber;
use crate::json::JsonView;
use crate::json::NumberView;
use crate::number::digits;
use crate::number::law_parse_reads_numeral;
use crate::number::parse_usize;
use crate::number::parsed;
use crate::number::show_u64;
use crate::number::show_usize;
use crate::text::begins_with;
use crate::text::cat2;
use crate::text::cat3;
use crate::text::cat4;
use crate::text::chars_of;
use crate::text::find;
use crate::text::find_last;
use crate::text::find_text;
use crate::text::finishes_with;
use crate::text::has_text;
use crate::text::is_space;
use crate::text::join;
use crate::text::joined;
use crate::text::lacks;
use crate::text::lemma_assoc;
use crate::text::lemma_begins_otherwise;
use crate::text::lemma_begins_with_concat;
use crate::text::lemma_end_off;
use crate::text::lemma_end_stands;
use crate::text::lemma_first_separator;
use crate::text::lemma_front_holds;
use crate::text::lemma_lead_taken;
use crate::text::lemma_no_lead;
use crate::text::lemma_no_trail;
use crate::text::lemma_stands_between;
use crate::text::lemma_trail_taken;
use crate::text::lemma_trimmed_around;
use crate::text::lemma_trimmed_plain;
use crate::text::opt_text;
use crate::text::own;
use crate::text::plain;
use crate::text::push_text;
use crate::text::rfind;
use crate::text::substring;
use crate::text::texts;
use crate::text::trim;
use crate::text::trim_end_matches;
use crate::text::trim_start_matches;
use crate::text::trimmed;
use crate::text::without_leading;
use crate::text::without_trailing;

verus! {

// ---------------------------------------------------------------------------
// The environment
// ---------------------------------------------------------------------------

/// The variables that the process was started with.
#[derive(Debug)]
pub struct Env {
    pub vars: Vec<(String, String)>,
}

impl Env {
    /// The value of a variable.
    pub open spec fn value(self, name: Seq<char>) -> Option<Seq<char>> {
        value_at(self.vars@, name)
    }

    /// The value of a variable, or a default where it is not set.
    pub open spec fn value_or(self, name: Seq<char>, default: Seq<char>) -> Seq<char> {
        match self.value(name) {
            Some(v) => v,
            None => default,
        }
    }

    /// The value of a variable that is set and not empty.
    pub open spec fn setting(self, name: Seq<char>) -> Option<Seq<char>> {
        nonempty(self.value(name))
    }

    /// The value of a variable.
    pub fn var(&self, name: &str) -> (r: Option<&str>)
        ensures
            crate::text::opt_str(r) == self.value(name@),
    {
        lookup(&self.vars, name)
    }

    /// The value of a variable, or a default where it is not set.
    pub fn var_or(&self, name: &str, default: &str) -> (r: String)
        ensures
            r@ == self.value_or(name@, default@),
    {
        match self.var(name) {
            Some(v) => v.to_owned(),
            None => default.to_owned(),
        }
    }

    /// The value of a variable that is set and not empty.
    pub fn optional_env(&self, name: &str) -> (r: Option<String>)
        ensures
            opt_text(r) == self.setting(name@),
    {
        own(lookup_nonempty(&self.vars, name))
    }
}

// ---------------------------------------------------------------------------
// Configuration
// ---------------------------------------------------------------------------

/// How a language model is to sample, in the values that it is sent: numbers,
/// or `null` for what is not a finite number.
#[derive(Debug)]
pub struct Sampling {
    pub temperature: Json,
    pub top_p: Option<Json>,
}

/// The view of an optional value.
pub open spec fn opt_value(value: Option<Json>) -> Option<JsonView> {
    match value {
        Some(v) => Some(v@),
        None => None,
    }
}

/// A copy of an optional value.
fn copy_value(value: &Option<Json>) -> (r: Option<Json>)
    ensures
        opt_value(r) == opt_value(*value),
{
    match value {
        Some(v) => Some(v.copy()),
        None => None,
    }
}

/// A chat service.
#[derive(Debug)]
pub struct TyphoonConfig {
    /// The address up to the version, such as `http://127.0.0.1:8080/v1`.
    pub base_url: String,
    pub model: String,
    /// A local service needs no key.
    pub api_key: Option<String>,
    pub temperature: Json,
    /// Sent only when set.
    pub top_p: Option<Json>,
}

/// What a chat service is.
pub struct ChatView {
    pub base_url: Seq<char>,
    pub model: Seq<char>,
    pub api_key: Option<Seq<char>>,
    pub temperature: JsonView,
    pub top_p: Option<JsonView>,
}

/// A chat service as the environment describes it, with defaults.
pub open spec fn chat_service(
    env: Env,
    sampling: Sampling,
    default_url: Seq<char>,
    default_model: Seq<char>,
) -> ChatView {
    ChatView {
        base_url: env.value_or("LLM_BASE_URL"@, default_url),
        model: env.value_or("LLM_MODEL"@, default_model),
        api_key: env.setting("LLM_API_KEY"@),
        temperature: sampling.temperature@,
        top_p: opt_value(sampling.top_p),
    }
}

/// The local chat service.
pub open spec fn local_service(env: Env, sampling: Sampling) -> ChatView {
    chat_service(
        env,
        sampling,
        "http://127.0.0.1:8080/v1"@,
        "typhoon-ai/typhoon2.5-qwen3-4b"@,
    )
}

/// The hosted chat service.
pub open spec fn cloud_service(env: Env, sampling: Sampling) -> ChatView {
    chat_service(
        env,
        sampling,
        "https://api.opentyphoon.ai/v1"@,
        "typhoon-v2.5-30b-a3b-instruct"@,
    )
}

impl TyphoonConfig {
    pub open spec fn view(&self) -> ChatView {
        ChatView {
            base_url: self.base_url@,
            model: self.model@,
            api_key: opt_text(self.api_key),
            temperature: self.temperature@,
            top_p: opt_value(self.top_p),
        }
    }

    /// The chat service that the environment describes, with defaults.
    fn from_env_with_defaults(
        env: &Env,
        sampling: &Sampling,
        default_url: &str,
        default_model: &str,
    ) -> (r: TyphoonConfig)
        ensures
            r@ == chat_service(*env, *sampling, default_url@, default_model@),
    {
        TyphoonConfig {
            base_url: env.var_or("LLM_BASE_URL", default_url),
            model: env.var_or("LLM_MODEL", default_model),
            api_key: env.optional_env("LLM_API_KEY"),
            temperature: sampling.temperature.copy(),
            top_p: copy_value(&sampling.top_p),
        }
    }

    /// The local chat service.
    pub fn local(env: &Env, sampling: &Sampling) -> (r: TyphoonConfig)
        ensures
            r@ == local_service(*env, *sampling),
    {
        TyphoonConfig::from_env_with_defaults(
            env,
            sampling,
            "http://127.0.0.1:8080/v1",
            "typhoon-ai/typhoon2.5-qwen3-4b",
        )
    }

    /// The hosted chat service.
    pub fn cloud(env: &Env, sampling: &Sampling) -> (r: TyphoonConfig)
        ensures
            r@ == cloud_service(*env, *sampling),
    {
        TyphoonConfig::from_env_with_defaults(
            env,
            sampling,
            "https://api.opentyphoon.ai/v1",
            "typhoon-v2.5-30b-a3b-instruct",
        )
    }
}

/// An embedding service.
#[derive(Debug)]
pub struct EmbeddingConfig {
    pub base_url: String,
    pub model: String,
    pub api_key: Option<String>,
    /// The width of the vectors, for information.
    pub dimensions: usize,
}

/// What an embedding service is.
pub struct EmbeddingView {
    pub base_url: Seq<char>,
    pub model: Seq<char>,
    pub api_key: Option<Seq<char>>,
    pub dimensions: nat,
}

/// The width of vectors that the environment gives.
pub open spec fn vector_width(env: Env) -> nat {
    match env.value("EMBEDDING_DIM"@) {
        Some(raw) => match parsed(raw, usize::MAX as nat) {
            Some(n) => n,
            None => 1024,
        },
        None => 1024,
    }
}

/// The embedding service that the environment describes. The address falls back
/// to that of the chat service, and the key is the same.
pub open spec fn embedding_service(env: Env) -> EmbeddingView {
    EmbeddingView {
        base_url: env.value_or(
            "EMBEDDING_BASE_URL"@,
            env.value_or("LLM_BASE_URL"@, "https://api.opentyphoon.ai/v1"@),
        ),
        model: env.value_or("EMBEDDING_MODEL"@, "text-embedding-3-small"@),
        api_key: env.setting("LLM_API_KEY"@),
        dimensions: vector_width(env),
    }
}

impl EmbeddingConfig {
    pub open spec fn view(&self) -> EmbeddingView {
        EmbeddingView {
            base_url: self.base_url@,
            model: self.model@,
            api_key: opt_text(self.api_key),
            dimensions: self.dimensions as nat,
        }
    }

    /// The embedding service that the environment describes.
    pub fn from_env(env: &Env) -> (r: EmbeddingConfig)
        ensures
            r@ == embedding_service(*env),
    {
        let fallback = env.var_or("LLM_BASE_URL", "https://api.opentyphoon.ai/v1");
        let dimensions: usize = match env.var("EMBEDDING_DIM") {
            Some(raw) => match parse_usize(raw) {
                Some(n) => n,
                None => 1024,
            },
            None => 1024,
        };
        EmbeddingConfig {
            base_url: env.var_or("EMBEDDING_BASE_URL", fallback.as_str()),
            model: env.var_or("EMBEDDING_MODEL", "text-embedding-3-small"),
            api_key: env.optional_env("LLM_API_KEY"),
            dimensions,
        }
    }
}

/// A service that reads scans.
#[derive(Debug)]
pub struct OcrConfig {
    pub base_url: String,
    pub model: String,
    /// Without a key the service cannot be used.
    pub api_key: Option<String>,
}

/// What a service that reads scans is.
pub struct OcrView {
    pub base_url: Seq<char>,
    pub model: Seq<char>,
    pub api_key: Option<Seq<char>>,
}

/// The service that reads scans, as the environment describes it.
pub open spec fn ocr_service(env: Env) -> OcrView {
    OcrView {
        base_url: env.value_or("OCR_BASE_URL"@, "https://api.opentyphoon.ai/v1"@),
        model: env.value_or("OCR_MODEL"@, "typhoon-ocr"@),
        api_key: env.setting("LLM_API_KEY"@),
    }
}

impl OcrConfig {
    pub open spec fn view(&self) -> OcrView {
        OcrView {
            base_url: self.base_url@,
            model: self.model@,
            api_key: opt_text(self.api_key),
        }
    }

    /// The service that the environment describes.
    pub fn from_env(env: &Env) -> (r: OcrConfig)
        ensures
            r@ == ocr_service(*env),
    {
        OcrConfig {
            base_url: env.var_or("OCR_BASE_URL", "https://api.opentyphoon.ai/v1"),
            model: env.var_or("OCR_MODEL", "typhoon-ocr"),
            api_key: env.optional_env("LLM_API_KEY"),
        }
    }
}

// ---------------------------------------------------------------------------
// Requests
// ---------------------------------------------------------------------------

/// The address of a service below its base address.
pub open spec fn endpoint(base_url: Seq<char>, path: Seq<char>) -> Seq<char> {
    without_trailing(base_url, "/"@) + path
}

/// The address of a service below its base address.
pub fn endpoint_url(base_url: &str, path: &str) -> (r: String)
    ensures
        r@ == endpoint(base_url@, path@),
{
    proof {
        reveal_strlit("/");
    }
    cat2(trim_end_matches(base_url, "/").as_str(), path)
}

/// A message of a chat.
pub open spec fn message(role: Seq<char>, content: Seq<char>) -> JsonView {
    empty_object().with("role"@, JsonView::Text(role)).with("content"@, JsonView::Text(content))
}

/// What a chat service is sent.
pub open spec fn chat_body(
    service: ChatView,
    system: Seq<char>,
    user: Seq<char>,
    max_tokens: nat,
) -> JsonView {
    let body = empty_object().with("model"@, JsonView::Text(service.model)).with(
        "messages"@,
        JsonView::Array(seq![message("system"@, system), message("user"@, user)]),
    ).with("max_tokens"@, JsonView::Number(NumberView::Unsigned(max_tokens as u64))).with(
        "temperature"@,
        service.temperature,
    ).with("stream"@, JsonView::Bool(false));
    match service.top_p {
        Some(top_p) => body.with("top_p"@, top_p),
        None => body,
    }
}

/// A message of a chat.
fn build_message(role: &str, content: &str) -> (r: Json)
    ensures
        r@ == message(role@, content@),
{
    Json::object().with("role", Json::text(role)).with("content", Json::text(content))
}

impl TyphoonConfig {
    /// Where the chat service is asked.
    pub fn chat_url(&self) -> (r: String)
        ensures
            r@ == endpoint(self.base_url@, "/chat/completions"@),
    {
        endpoint_url(self.base_url.as_str(), "/chat/completions")
    }

    /// What the chat service is sent.
    pub fn chat_request(&self, system: &str, user: &str, max_tokens: usize) -> (r: Json)
        ensures
            r@ == chat_body(self@, system@, user@, max_tokens as nat),
    {
        let mut messages: Vec<Json> = Vec::new();
        messages.push(build_message("system", system));
        messages.push(build_message("user", user));
        assert(crate::json::items_view(messages@) =~= seq![
            message("system"@, system@),
            message("user"@, user@),
        ]);
        let mut body = Json::object();
        body.insert("model", Json::text(self.model.as_str()));
        body.insert("messages", Json::Array(messages));
        body.insert("max_tokens", Json::unsigned(max_tokens as u64));
        body.insert("temperature", self.temperature.copy());
        body.insert("stream", Json::Bool(false));
        match &self.top_p {
            Some(top_p) => {
                body.insert("top_p", top_p.copy());
            },
            None => {},
        }
        body
    }
}

/// What is added to the instructions where JSON is wanted.
pub const JSON_ONLY: &'static str =
    "\n\nสำคัญ: ตอบกลับเป็น JSON ที่ถูกต้องเท่านั้น ห้ามมีคำอธิบาย ห้ามมี markdown code fence ใด ๆ";

/// The instructions where JSON is wanted.
pub fn json_system(system: &str) -> (r: String)
    ensures
        r@ == system@ + JSON_ONLY@,
{
    cat2(system, JSON_ONLY)
}

/// The answer of a service.
#[derive(Debug)]
pub enum HttpReply {
    /// There was none.
    Unreachable,
    /// It broke off.
    Unreadable,
    /// A status, the status in words, and the payload.
    Answer { status: u16, status_text: String, payload: String },
}

/// What is told about an answer that cannot be used, by the name of the
/// service.
pub open spec fn reply_failure(service: Seq<char>, url: Seq<char>, reply: HttpReply) -> Option<
    Seq<char>,
> {
    match reply {
        HttpReply::Unreachable => Some("request to "@ + url + " failed"@),
        HttpReply::Unreadable => Some("failed to read "@ + service + " response body"@),
        HttpReply::Answer { status, status_text, payload } => if 200 <= status < 300 {
            None
        } else {
            Some(service + " server returned "@ + status_text@ + ": "@ + payload@)
        },
    }
}

/// The payload of an answer, or what is told about an answer that cannot be
/// used.
pub fn payload_of(service: &str, url: &str, reply: HttpReply) -> (r: Result<String, String>)
    ensures
        match r {
            Ok(payload) => reply_failure(service@, url@, reply) is None
                && (reply matches HttpReply::Answer { status, status_text, payload: p }
                && p@ == payload@),
            Err(e) => reply_failure(service@, url@, reply) == Some(e@),
        },
{
    match reply {
        HttpReply::Unreachable => Err(cat3("request to ", url, " failed")),
        HttpReply::Unreadable => Err(cat3("failed to read ", service, " response body")),
        HttpReply::Answer { status, status_text, payload } => {
            if 200 <= status && status < 300 {
                Ok(payload)
            } else {
                let mut e = cat3(service, " server returned ", status_text.as_str());
                e.append(": ");
                e.append(payload.as_str());
                Err(e)
            }
        },
    }
}

// ---------------------------------------------------------------------------
// Answers of chat services
// ---------------------------------------------------------------------------

/// The value under `key` of a value that may be missing.
pub open spec fn member_of(value: Option<JsonView>, key: Seq<char>) -> Option<JsonView> {
    match value {
        Some(v) => v.member(key),
        None => None,
    }
}

/// The item at `i` of a value that may be missing.
pub open spec fn item_of(value: Option<JsonView>, i: int) -> Option<JsonView> {
    match value {
        Some(v) => v.element(i),
        None => None,
    }
}

/// The text of a value that may be missing.
pub open spec fn text_of(value: Option<JsonView>) -> Option<Seq<char>> {
    match value {
        Some(v) => v.text(),
        None => None,
    }
}

/// The view of a value that may be missing.
pub open spec fn opt_view(value: Option<&Json>) -> Option<JsonView> {
    match value {
        Some(v) => Some(v@),
        None => None,
    }
}

/// The value under `key` of a value that may be missing.
fn member<'a>(value: Option<&'a Json>, key: &str) -> (r: Option<&'a Json>)
    ensures
        opt_view(r) == member_of(opt_view(value), key@),
{
    match value {
        Some(v) => v.get(key),
        None => None,
    }
}

/// The item at `i` of a value that may be missing.
fn item<'a>(value: Option<&'a Json>, i: usize) -> (r: Option<&'a Json>)
    ensures
        opt_view(r) == item_of(opt_view(value), i as int),
{
    match value {
        Some(v) => v.at(i),
        None => None,
    }
}

/// The text of a value that may be missing.
fn text_in<'a>(value: Option<&'a Json>) -> (r: Option<&'a str>)
    ensures
        crate::text::opt_str(r) == text_of(opt_view(value)),
{
    match value {
        Some(v) => v.as_str(),
        None => None,
    }
}

/// The text of the first choice in the answer of a chat service.
pub open spec fn chat_content(answer: JsonView) -> Option<Seq<char>> {
    text_of(
        member_of(
            member_of(item_of(answer.member("choices"@), 0), "message"@),
            "content"@,
        ),
    )
}

/// The text of the first choice in the answer of a chat service.
pub fn first_choice(answer: &Json) -> (r: Option<&str>)
    ensures
        crate::text::opt_str(r) == chat_content(answer@),
{
    text_in(member(member(item(answer.get("choices"), 0), "message"), "content"))
}

/// What is read from the payload of a chat service, once it was read as JSON.
pub open spec fn chat_text(answer: Option<JsonView>, payload: Seq<char>) -> Result<
    Seq<char>,
    Seq<char>,
> {
    match answer {
        None => Err("LLM response was not valid JSON"@),
        Some(v) => match chat_content(v) {
            Some(text) => Ok(text),
            None => Err("LLM response missing choices[0].message.content: "@ + payload),
        },
    }
}

/// The view of a text or of what is told in its place.
pub open spec fn outcome(r: Result<String, String>) -> Result<Seq<char>, Seq<char>> {
    match r {
        Ok(s) => Ok(s@),
        Err(e) => Err(e@),
    }
}

/// The text of the first choice, or what is told in its place.
pub fn choose_content(answer: Option<&Json>, payload: &str) -> (r: Result<String, String>)
    ensures
        outcome(r) == chat_text(opt_view(answer), payload@),
{
    match answer {
        None => Err("LLM response was not valid JSON".to_owned()),
        Some(v) => match first_choice(v) {
            Some(text) => Ok(text.to_owned()),
            None => Err(cat2("LLM response missing choices[0].message.content: ", payload)),
        },
    }
}

/// Reads the answer of a chat service.
pub fn read_chat(url: &str, reply: HttpReply) -> (r: Result<String, String>)
    ensures
        match reply_failure("LLM"@, url@, reply) {
            Some(e) => outcome(r) == Err::<Seq<char>, Seq<char>>(e),
            None => reply matches HttpReply::Answer { status, status_text, payload }
                && outcome(r) == chat_text(parsed_json(payload@), payload@),
        },
{
    let payload = match payload_of("LLM", url, reply) {
        Ok(payload) => payload,
        Err(e) => {
            return Err(e);
        },
    };
    match Json::parse(payload.as_str()) {
        Ok(v) => choose_content(Some(&v), payload.as_str()),
        Err(_) => choose_content(None, payload.as_str()),
    }
}

/// The position of the first opening brace in `s`, or -1.
pub open spec fn first_brace(s: Seq<char>) -> int {
    find_text(s, "{"@)
}

/// A text without the fence of a code block around it.
pub open spec fn unfenced(s: Seq<char>) -> Seq<char> {
    trimmed(
        without_trailing(
            without_leading(without_leading(s, "```json"@), "```"@),
            "```"@,
        ),
    )
}

/// The span from the first opening to the last closing brace.
pub open spec fn braced(s: Seq<char>) -> Option<Seq<char>> {
    let start = first_brace(s);
    let end = find_last(s, '}');
    if 0 <= start < end < s.len() {
        Some(s.subrange(start, end + 1))
    } else {
        None
    }
}

/// The JSON in a text of a language model: the text itself, what is inside a
/// fence, or what is between the outermost braces.
pub open spec fn extracted(text: Seq<char>) -> Option<JsonView> {
    let plain = trimmed(text);
    let inside = unfenced(plain);
    if parsed_json(plain) is Some {
        parsed_json(plain)
    } else if parsed_json(inside) is Some {
        parsed_json(inside)
    } else {
        match braced(inside) {
            Some(span) => parsed_json(span),
            None => None,
        }
    }
}

/// A text without the fence of a code block around it.
pub fn strip_fence(s: &str) -> (r: String)
    ensures
        r@ == unfenced(s@),
{
    proof {
        reveal_strlit("```json");
        reveal_strlit("```");
    }
    let s = trim_start_matches(s, "```json");
    let s = trim_start_matches(s.as_str(), "```");
    let s = trim_end_matches(s.as_str(), "```");
    trim(s.as_str())
}

/// The span from the first opening to the last closing brace.
pub fn brace_span(s: &str) -> (r: Option<String>)
    ensures
        opt_text(r) == braced(s@),
{
    let cs = chars_of(s);
    let n: usize = cs.len();
    match (find(s, "{"), rfind(&cs, '}')) {
        (Some(start), Some(end)) => {
            assert(end < n);
            if end > start {
                Some(substring(&cs, start, end + 1))
            } else {
                None
            }
        },
        _ => None,
    }
}

/// The JSON in a text of a language model.
pub fn extract_json(text: &str) -> (r: Result<Json, String>)
    ensures
        match r {
            Ok(v) => extracted(text@) == Some(v@),
            Err(e) => extracted(text@) is None && e@ == (if braced(
                unfenced(trimmed(text@)),
            ) is Some {
                "substring between first '{' and last '}' was not valid JSON"@
            } else {
                "no JSON object found in LLM output"@
            }),
        },
{
    let plain = trim(text);
    match Json::parse(plain.as_str()) {
        Ok(v) => {
            return Ok(v);
        },
        Err(_) => {},
    }
    let inside = strip_fence(plain.as_str());
    match Json::parse(inside.as_str()) {
        Ok(v) => {
            return Ok(v);
        },
        Err(_) => {},
    }
    match brace_span(inside.as_str()) {
        Some(span) => match Json::parse(span.as_str()) {
            Ok(v) => Ok(v),
            Err(_) => Err(
                "substring between first '{' and last '}' was not valid JSON".to_owned(),
            ),
        },
        None => Err("no JSON object found in LLM output".to_owned()),
    }
}

/// Reads the answer to a question that was to be answered with JSON.
pub fn read_json_answer(raw: &str) -> (r: Result<Json, String>)
    ensures
        match r {
            Ok(v) => extracted(raw@) == Some(v@),
            Err(e) => extracted(raw@) is None && e@ == "could not parse JSON from LLM output: "@
                + raw@,
        },
{
    match extract_json(raw) {
        Ok(v) => Ok(v),
        Err(_) => Err(cat2("could not parse JSON from LLM output: ", raw)),
    }
}

// ---------------------------------------------------------------------------
// Embedding services
// ---------------------------------------------------------------------------

/// What an embedding service is sent.
pub open spec fn embedding_body(model: Seq<char>, text: Seq<char>) -> JsonView {
    empty_object().with("model"@, JsonView::Text(model)).with("input"@, JsonView::Text(text))
}

impl EmbeddingConfig {
    /// Where the embedding service is asked.
    pub fn embedding_url(&self) -> (r: String)
        ensures
            r@ == endpoint(self.base_url@, "/embeddings"@),
    {
        endpoint_url(self.base_url.as_str(), "/embeddings")
    }

    /// What the embedding service is sent.
    pub fn embedding_request(&self, text: &str) -> (r: Json)
        ensures
            r@ == embedding_body(self.model@, text@),
    {
        Json::object().with("model", Json::text(self.model.as_str())).with(
            "input",
            Json::text(text),
        )
    }
}

/// Whether all items are numbers.
pub open spec fn all_numbers(items: Seq<JsonView>) -> bool {
    forall|i: int| 0 <= i < items.len() ==> (#[trigger] items[i]) is Number
}

/// The first vector in the answer of an embedding service.
pub open spec fn vector_of(answer: JsonView) -> Option<JsonView> {
    member_of(item_of(answer.member("data"@), 0), "embedding"@)
}

/// The numbers that a vector in JSON is made of, or what is told about an
/// answer without one, once the payload was read as JSON.
pub fn choose_vector(answer: Option<&Json>, payload: &str) -> (r: Result<Vec<JsonNumber>, String>)
    ensures
        match opt_view(answer) {
            None => r matches Err(e) && e@ == "embedding response was not valid JSON"@,
            Some(v) => match vector_of(v) {
                Some(JsonView::Array(items)) => if all_numbers(items) {
                    r matches Ok(list) && list@.len() == items.len() && forall|i: int|
                        0 <= i < items.len() ==> items[i] == JsonView::Number(
                            (#[trigger] list@[i])@,
                        )
                } else {
                    r matches Err(e) && e@ == "embedding vector contained a non-number"@
                },
                _ => r matches Err(e) && e@ == "embedding response missing data[0].embedding: "@
                    + payload@,
            },
        },
{
    let v = match answer {
        None => {
            return Err("embedding response was not valid JSON".to_owned());
        },
        Some(v) => v,
    };
    let items = match member(item(v.get("data"), 0), "embedding") {
        Some(Json::Array(items)) => items,
        _ => {
            return Err(cat2("embedding response missing data[0].embedding: ", payload));
        },
    };
    let ghost views = crate::json::items_view(items@);
    let mut out: Vec<JsonNumber> = Vec::new();
    let mut i: usize = 0;
    while i < items.len()
        invariant
            i <= items@.len(),
            views == crate::json::items_view(items@),
            answer is Some,
            vector_of(answer->0@) == Some(JsonView::Array(views)),
            out@.len() == i,
            forall|k: int|
                0 <= k < i ==> views[k] == JsonView::Number((#[trigger] out@[k])@),
        decreases items@.len() - i,
    {
        match items[i].as_number() {
            Some(n) => {
                out.push(n.copy());
            },
            None => {
                assert(!(views[i as int] is Number));
                return Err("embedding vector contained a non-number".to_owned());
            },
        }
        i += 1;
    }
    assert forall|k: int| 0 <= k < views.len() implies (#[trigger] views[k]) is Number by {
        assert(views[k] == JsonView::Number(out@[k]@));
    }
    Ok(out)
}

/// Reads the answer of an embedding service.
pub fn read_embedding(url: &str, reply: HttpReply) -> (r: Result<Vec<JsonNumber>, String>)
    ensures
        match reply_failure("embedding"@, url@, reply) {
            Some(e) => r matches Err(told) && told@ == e,
            None => reply matches HttpReply::Answer { status, status_text, payload } && (match (
                parsed_json(payload@),
                r,
            ) {
                (None, Err(e)) => e@ == "embedding response was not valid JSON"@,
                (None, Ok(_)) => false,
                (Some(v), Ok(list)) => vector_of(v) matches Some(JsonView::Array(items))
                    && list@.len() == items.len() && (forall|i: int|
                    0 <= i < items.len() ==> items[i] == JsonView::Number((#[trigger] list@[i])@)),
                (Some(v), Err(e)) => match vector_of(v) {
                    Some(JsonView::Array(items)) => !all_numbers(items) && e@
                        == "embedding vector contained a non-number"@,
                    _ => e@ == "embedding response missing data[0].embedding: "@ + payload@,
                },
            }),
        },
{
    let payload = match payload_of("embedding", url, reply) {
        Ok(payload) => payload,
        Err(e) => {
            return Err(e);
        },
    };
    match Json::parse(payload.as_str()) {
        Ok(v) => choose_vector(Some(&v), payload.as_str()),
        Err(_) => choose_vector(None, payload.as_str()),
    }
}

// ---------------------------------------------------------------------------
// Services that read scans
// ---------------------------------------------------------------------------

/// What was read from a page.
#[derive(Debug)]
pub struct OcrPageOutput {
    pub text: String,
    pub raw_json: Json,
}

/// The fields of the form that is sent along with a scan.
pub open spec fn ocr_form(model: Seq<char>, page: Option<usize>) -> Seq<(Seq<char>, Seq<char>)> {
    let form = seq![
        ("model"@, model),
        ("task_type"@, "default"@),
        ("max_tokens"@, "16384"@),
        ("temperature"@, "0.1"@),
        ("top_p"@, "0.6"@),
        ("repetition_penalty"@, "1.2"@),
    ];
    match page {
        Some(n) => form.push(("page_num"@, digits(n as nat))),
        None => form,
    }
}

/// The texts of a list of named values.
pub open spec fn pairs(list: Seq<(String, String)>) -> Seq<(Seq<char>, Seq<char>)> {
    Seq::new(list.len(), |i: int| (list[i].0@, list[i].1@))
}

/// Appends a named value.
fn push_pair(list: &mut Vec<(String, String)>, name: &str, value: &str)
    ensures
        pairs(final(list)@) == pairs(old(list)@).push((name@, value@)),
{
    list.push((name.to_owned(), value.to_owned()));
    assert(pairs(list@) =~= pairs(old(list)@).push((name@, value@)));
}

/// A request to read a scan.
#[derive(Debug)]
pub struct OcrRequest {
    pub url: String,
    pub api_key: String,
    pub form: Vec<(String, String)>,
}

impl OcrConfig {
    /// What is sent along with a scan, which cannot be sent without a key.
    pub fn page_request(&self, page: Option<usize>) -> (r: Result<OcrRequest, String>)
        ensures
            match (r, self.api_key) {
                (Ok(req), Some(key)) => req.url@ == endpoint(self.base_url@, "/ocr"@)
                    && req.api_key@ == key@ && pairs(req.form@) == ocr_form(self.model@, page),
                (Err(e), None) => e@ == "OCR requires LLM_API_KEY"@,
                _ => false,
            },
    {
        let key = match &self.api_key {
            Some(key) => key.clone(),
            None => {
                return Err("OCR requires LLM_API_KEY".to_owned());
            },
        };
        let mut form: Vec<(String, String)> = Vec::new();
        push_pair(&mut form, "model", self.model.as_str());
        push_pair(&mut form, "task_type", "default");
        push_pair(&mut form, "max_tokens", "16384");
        push_pair(&mut form, "temperature", "0.1");
        push_pair(&mut form, "top_p", "0.6");
        push_pair(&mut form, "repetition_penalty", "1.2");
        match page {
            Some(n) => {
                push_pair(&mut form, "page_num", show_usize(n).as_str());
            },
            None => {},
        }
        assert(pairs(form@) =~= ocr_form(self.model@, page));
        Ok(OcrRequest { url: endpoint_url(self.base_url.as_str(), "/ocr"), api_key: key, form })
    }
}

/// The text of a page: what stands under `natural_text` where the content is
/// JSON that has it, else the content. `inner` is the content read as JSON.
pub open spec fn page_text_of(content: Seq<char>, inner: Option<JsonView>) -> Seq<char> {
    match text_of(member_of(inner, "natural_text"@)) {
        Some(text) => text,
        None => content,
    }
}

/// The text of a page, from its content and the content read as JSON.
pub fn choose_page_text(content: &str, inner: Option<&Json>) -> (r: String)
    ensures
        r@ == page_text_of(content@, opt_view(inner)),
{
    match text_in(member(inner, "natural_text")) {
        Some(text) => text.to_owned(),
        None => content.to_owned(),
    }
}

/// The text of a page, from its content.
pub fn natural_text(content: &str) -> (r: String)
    ensures
        r@ == page_text_of(content@, parsed_json(content@)),
{
    match Json::parse(content) {
        Ok(v) => choose_page_text(content, Some(&v)),
        Err(_) => choose_page_text(content, None),
    }
}

/// The content of a page in an answer.
pub open spec fn page_content(page: JsonView) -> Option<Seq<char>> {
    text_of(
        member_of(
            member_of(
                item_of(member_of(page.member("message"@), "choices"@), 0),
                "message"@,
            ),
            "content"@,
        ),
    )
}

/// Whether a page was read.
pub open spec fn page_succeeded(page: JsonView) -> bool {
    page.member("success"@) == Some(JsonView::Bool(true))
}

/// What is told about a page that was not read.
pub open spec fn page_failure(page: JsonView) -> Seq<char> {
    let detail = match text_of(page.member("error"@)) {
        Some(s) => s,
        None => "unknown error"@,
    };
    let name = match text_of(page.member("filename"@)) {
        Some(s) => s,
        None => "page"@,
    };
    "OCR failed for "@ + name + ": "@ + detail
}

/// The texts of the pages up to the first that was not read, and what is told
/// about that one.
pub open spec fn page_texts(pages: Seq<JsonView>) -> Result<Seq<Seq<char>>, Seq<char>>
    decreases pages.len(),
{
    if pages.len() == 0 {
        Ok(Seq::empty())
    } else {
        let page = pages.last();
        match page_texts(pages.drop_last()) {
            Err(e) => Err(e),
            Ok(before) => if !page_succeeded(page) {
                Err(page_failure(page))
            } else {
                match page_content(page) {
                    Some(content) => Ok(
                        before.push(page_text_of(content, parsed_json(content))),
                    ),
                    None => Ok(before),
                }
            },
        }
    }
}

/// The text in an answer of a service that reads scans.
pub open spec fn ocr_text(answer: JsonView) -> Result<Seq<char>, Seq<char>> {
    match answer.member("results"@) {
        Some(JsonView::Array(pages)) => match page_texts(pages) {
            Err(e) => Err(e),
            Ok(list) => if list.len() == 0 {
                Err("OCR returned no text"@)
            } else {
                Ok(joined(list, "\n\n"@))
            },
        },
        _ => Err("OCR response missing results array: "@ + json_text(answer)),
    }
}

/// Once a page was not read, nothing that comes after it matters.
proof fn lemma_page_failure_stays(pages: Seq<JsonView>, n: int)
    requires
        0 <= n <= pages.len(),
        page_texts(pages.take(n)) is Err,
    ensures
        page_texts(pages) == page_texts(pages.take(n)),
    decreases pages.len() - n,
{
    if n < pages.len() {
        assert(pages.take(n + 1).drop_last() =~= pages.take(n));
        lemma_page_failure_stays(pages, n + 1);
    } else {
        assert(pages.take(n) =~= pages);
    }
}

/// What is told about a page that was not read.
fn describe_page_failure(page: &Json) -> (r: String)
    ensures
        r@ == page_failure(page@),
{
    let detail = match text_in(page.get("error")) {
        Some(s) => s,
        None => "unknown error",
    };
    let name = match text_in(page.get("filename")) {
        Some(s) => s,
        None => "page",
    };
    cat4("OCR failed for ", name, ": ", detail)
}

/// The text in an answer of a service that reads scans: the texts of its pages
/// with blank lines between them.
pub fn parse_ocr_response(payload: &Json) -> (r: Result<String, String>)
    ensures
        outcome(r) == ocr_text(payload@),
{
    let pages = match payload.get("results") {
        Some(Json::Array(pages)) => pages,
        _ => {
            return Err(
                cat2("OCR response missing results array: ", payload.to_text().as_str()),
            );
        },
    };
    let ghost views = crate::json::items_view(pages@);
    let mut list: Vec<String> = Vec::new();
    assert(texts(list@) =~= Seq::empty());
    assert(views.take(0) =~= Seq::empty());
    let mut i: usize = 0;
    while i < pages.len()
        invariant
            i <= pages@.len(),
            views == crate::json::items_view(pages@),
            payload@.member("results"@) == Some(JsonView::Array(views)),
            page_texts(views.take(i as int)) == Ok::<Seq<Seq<char>>, Seq<char>>(texts(list@)),
        decreases pages@.len() - i,
    {
        let page = &pages[i];
        proof {
            assert(views.take(i as int + 1).drop_last() =~= views.take(i as int));
            assert(views.take(i as int + 1).last() == page@);
        }
        let succeeded = match page.get("success") {
            Some(Json::Bool(b)) => *b,
            _ => false,
        };
        if !succeeded {
            proof {
                lemma_page_failure_stays(views, i as int + 1);
            }
            return Err(describe_page_failure(page));
        }
        match text_in(
            member(member(item(member(page.get("message"), "choices"), 0), "message"), "content"),
        ) {
            Some(content) => {
                push_text(&mut list, natural_text(content));
            },
            None => {},
        }
        i += 1;
    }
    assert(views.take(views.len() as int) =~= views);
    if list.len() == 0 {
        return Err("OCR returned no text".to_owned());
    }
    Ok(join(&list, "\n\n"))
}

/// Reads the answer of a service that reads scans.
pub fn read_ocr(url: &str, reply: HttpReply) -> (r: Result<OcrPageOutput, String>)
    ensures
        match reply_failure("OCR"@, url@, reply) {
            Some(e) => r matches Err(told) && told@ == e,
            None => reply matches HttpReply::Answer { status, status_text, payload } && (match (
                parsed_json(payload@),
                r,
            ) {
                (None, Err(e)) => e@ == "OCR response was not valid JSON"@,
                (None, Ok(_)) => false,
                (Some(v), Ok(page)) => page.raw_json@ == v && ocr_text(v) == Ok::<
                    Seq<char>,
                    Seq<char>,
                >(page.text@),
                (Some(v), Err(e)) => ocr_text(v) == Err::<Seq<char>, Seq<char>>(e@),
            }),
        },
{
    let payload = match payload_of("OCR", url, reply) {
        Ok(payload) => payload,
        Err(e) => {
            return Err(e);
        },
    };
    match Json::parse(payload.as_str()) {
        Ok(v) => match parse_ocr_response(&v) {
            Ok(text) => Ok(OcrPageOutput { text, raw_json: v }),
            Err(e) => Err(e),
        },
        Err(_) => Err("OCR response was not valid JSON".to_owned()),
    }
}

// ---------------------------------------------------------------------------
// Waiting for a local service
// ---------------------------------------------------------------------------

/// What to do after asking a service whether it is ready.
#[derive(Debug)]
pub enum Wait {
    Ready,
    /// Ask again after so many seconds.
    Again(u64),
    /// Give up.
    TimedOut(String),
}

/// A number of seconds as a duration is written.
pub open spec fn seconds_text(n: nat) -> Seq<char> {
    if n == 0 {
        "0ns"@
    } else {
        digits(n) + "s"@
    }
}

/// Where a service is asked whether it is ready.
pub fn models_url(base_url: &str) -> (r: String)
    ensures
        r@ == endpoint(base_url@, "/models"@),
{
    endpoint_url(base_url, "/models")
}

/// What to do after asking whether the service at `url` is ready. `ready` says
/// whether it answered with success, `late` whether `timeout` seconds are over.
pub fn after_poll(url: &str, timeout: u64, ready: bool, late: bool) -> (r: Wait)
    ensures
        match r {
            Wait::Ready => ready,
            Wait::Again(seconds) => !ready && !late && seconds == 2,
            Wait::TimedOut(e) => !ready && late && e@ == "local LLM server at "@ + url@
                + " did not become ready within "@ + seconds_text(timeout as nat),
        },
{
    if ready {
        return Wait::Ready;
    }
    if late {
        let span = if timeout == 0 {
            "0ns".to_owned()
        } else {
            cat2(show_u64(timeout).as_str(), "s")
        };
        return Wait::TimedOut(
            cat4("local LLM server at ", url, " did not become ready within ", span.as_str()),
        );
    }
    Wait::Again(2)
}

// ---------------------------------------------------------------------------
// Laws
// ---------------------------------------------------------------------------

/// The names in what a chat service is sent are six.
proof fn lemma_body_names_differ()
    ensures
        "model"@ != "messages"@,
        "model"@ != "max_tokens"@,
        "model"@ != "temperature"@,
        "model"@ != "stream"@,
        "model"@ != "top_p"@,
        "messages"@ != "max_tokens"@,
        "messages"@ != "temperature"@,
        "messages"@ != "stream"@,
        "messages"@ != "top_p"@,
        "max_tokens"@ != "temperature"@,
        "max_tokens"@ != "stream"@,
        "max_tokens"@ != "top_p"@,
        "temperature"@ != "stream"@,
        "temperature"@ != "top_p"@,
        "stream"@ != "top_p"@,
{
    reveal_strlit("model");
    reveal_strlit("messages");
    reveal_strlit("max_tokens");
    reveal_strlit("temperature");
    reveal_strlit("stream");
    reveal_strlit("top_p");
    assert("model"@.len() == 5 && "model"@[0] == 'm');
    assert("messages"@.len() == 8);
    assert("max_tokens"@.len() == 10);
    assert("temperature"@.len() == 11);
    assert("stream"@.len() == 6);
    assert("top_p"@.len() == 5 && "top_p"@[0] == 't');
}

/// The members of a message.
proof fn lemma_message_members(role: Seq<char>, content: Seq<char>)
    ensures
        message(role, content).member("role"@) == Some(JsonView::Text(role)),
        message(role, content).member("content"@) == Some(JsonView::Text(content)),
{
    reveal_strlit("role");
    reveal_strlit("content");
    assert("role"@.len() != "content"@.len());
}

/// A chat service is sent the two messages, that of the system first, each with
/// its role, and the model, the bound and the temperature that are set; a share
/// to sample from is sent only where one is set.
pub proof fn law_chat_request_carries_both_messages(
    service: ChatView,
    system: Seq<char>,
    user: Seq<char>,
    max_tokens: nat,
)
    ensures
        ({
            let body = chat_body(service, system, user, max_tokens);
            &&& body.member("model"@) == Some(JsonView::Text(service.model))
            &&& body.member("messages"@) matches Some(JsonView::Array(messages)) && {
                &&& messages.len() == 2
                &&& messages[0].member("role"@) == Some(JsonView::Text("system"@))
                &&& messages[0].member("content"@) == Some(JsonView::Text(system))
                &&& messages[1].member("role"@) == Some(JsonView::Text("user"@))
                &&& messages[1].member("content"@) == Some(JsonView::Text(user))
            }
            &&& max_tokens <= u64::MAX ==> (body.member("max_tokens"@) matches Some(
                JsonView::Number(NumberView::Unsigned(n)),
            ) && n == max_tokens)
            &&& body.member("temperature"@) == Some(service.temperature)
            &&& body.member("stream"@) == Some(JsonView::Bool(false))
            &&& body.member("top_p"@) == service.top_p
        }),
{
    lemma_body_names_differ();
    lemma_message_members("system"@, system);
    lemma_message_members("user"@, user);
}

/// The text that a chat service answers with is the content of the message of its
/// first choice, and there is an error where it has none.
pub proof fn law_chat_answer_is_its_first_message(
    answer: JsonView,
    choices: Seq<JsonView>,
    first: JsonView,
    text: Seq<char>,
    payload: Seq<char>,
)
    requires
        answer.member("choices"@) == Some(JsonView::Array(choices)),
        choices.len() > 0,
        choices[0].member("message"@) == Some(first),
    ensures
        first.member("content"@) == Some(JsonView::Text(text)) ==> chat_text(Some(answer), payload)
            == Ok::<Seq<char>, Seq<char>>(text),
        first.member("content"@) is None ==> chat_text(Some(answer), payload) is Err,
        chat_text(None, payload) is Err,
{
}

/// An address leads to the same place whether or not the base address ends with
/// a slash, and to different places for different paths.
pub proof fn law_endpoint_is_below_its_base(base: Seq<char>, path: Seq<char>, other: Seq<char>)
    ensures
        endpoint(base + "/"@, path) == endpoint(base, path),
        finishes_with(endpoint(base, path), path),
        !finishes_with(base, "/"@) ==> endpoint(base, path) == base + path,
        path != other ==> endpoint(base, path) != endpoint(base, other),
{
    reveal_strlit("/");
    let slash = "/"@;
    lemma_end_stands(base, slash);
    lemma_end_off(base, slash);
    let root = without_trailing(base, slash);
    lemma_end_stands(root, path);
    lemma_begins_with_concat(root, path);
    lemma_begins_with_concat(root, other);
}

/// Each service is the one that the environment names: its address and its model
/// are those of its own variables where they are set. The local and the hosted
/// chat service differ only in what they fall back to.
pub proof fn law_services_follow_the_environment(
    env: Env,
    sampling: Sampling,
    address: Seq<char>,
    model: Seq<char>,
)
    ensures
        env.value("LLM_BASE_URL"@) == Some(address) ==> local_service(env, sampling).base_url
            == address && cloud_service(env, sampling).base_url == address,
        env.value("LLM_MODEL"@) == Some(model) ==> local_service(env, sampling).model == model
            && cloud_service(env, sampling).model == model,
        env.value("LLM_BASE_URL"@) is None ==> local_service(env, sampling).base_url
            == "http://127.0.0.1:8080/v1"@ && cloud_service(env, sampling).base_url
            == "https://api.opentyphoon.ai/v1"@,
        env.value("EMBEDDING_BASE_URL"@) == Some(address) ==> embedding_service(env).base_url
            == address,
        env.value("EMBEDDING_BASE_URL"@) is None && env.value("LLM_BASE_URL"@) == Some(address)
            ==> embedding_service(env).base_url == address,
        env.value("EMBEDDING_MODEL"@) == Some(model) ==> embedding_service(env).model == model,
        env.value("OCR_BASE_URL"@) == Some(address) ==> ocr_service(env).base_url == address,
        env.value("OCR_MODEL"@) == Some(model) ==> ocr_service(env).model == model,
        local_service(env, sampling).temperature == sampling.temperature@,
        local_service(env, sampling).api_key == cloud_service(env, sampling).api_key,
        embedding_service(env).api_key == cloud_service(env, sampling).api_key,
        ocr_service(env).api_key == cloud_service(env, sampling).api_key,
{
}

/// A key that is set and not empty is used by every service, and an empty one by
/// none.
pub proof fn law_key_is_used_unless_empty(env: Env, sampling: Sampling, key: Seq<char>)
    requires
        env.value("LLM_API_KEY"@) == Some(key),
    ensures
        key.len() > 0 ==> {
            &&& local_service(env, sampling).api_key == Some(key)
            &&& cloud_service(env, sampling).api_key == Some(key)
            &&& embedding_service(env).api_key == Some(key)
            &&& ocr_service(env).api_key == Some(key)
        },
        key.len() == 0 ==> {
            &&& local_service(env, sampling).api_key is None
            &&& cloud_service(env, sampling).api_key is None
            &&& embedding_service(env).api_key is None
            &&& ocr_service(env).api_key is None
        },
{
}

/// An embedding service is sent the model and the text, and its vector is the one
/// of the first item of its answer.
pub proof fn law_embedding_is_of_the_text(
    model: Seq<char>,
    text: Seq<char>,
    answer: JsonView,
    data: Seq<JsonView>,
    vector: JsonView,
)
    ensures
        embedding_body(model, text).member("model"@) == Some(JsonView::Text(model)),
        embedding_body(model, text).member("input"@) == Some(JsonView::Text(text)),
        answer.member("data"@) == Some(JsonView::Array(data)) && data.len() > 0 && data[0].member(
            "embedding"@,
        ) == Some(vector) ==> vector_of(answer) == Some(vector),
{
    reveal_strlit("model");
    reveal_strlit("input");
    assert("model"@[0] != "input"@[0]);
}

/// The form that goes with a scan names the model, and the page where one is to be
/// read; nothing else in it depends on either.
pub proof fn law_form_names_model_and_page(model: Seq<char>, page: usize)
    ensures
        ocr_form(model, None).contains(("model"@, model)),
        ocr_form(model, Some(page)).contains(("model"@, model)),
        ocr_form(model, Some(page)).contains(("page_num"@, digits(page as nat))),
        ocr_form(model, Some(page)).drop_last() == ocr_form(model, None),
        forall|i: int|
            0 <= i < ocr_form(model, None).len() ==> (#[trigger] ocr_form(model, None)[i]).0
                != "page_num"@,
{
    let form = ocr_form(model, None);
    let more = ocr_form(model, Some(page));
    assert(form[0] == ("model"@, model));
    assert(more[0] == ("model"@, model));
    assert(more[more.len() - 1] == ("page_num"@, digits(page as nat)));
    assert(more.drop_last() =~= form);
    reveal_strlit("page_num");
    reveal_strlit("model");
    reveal_strlit("task_type");
    reveal_strlit("max_tokens");
    reveal_strlit("temperature");
    reveal_strlit("top_p");
    reveal_strlit("repetition_penalty");
    assert("page_num"@.len() == 8);
    assert forall|i: int| 0 <= i < form.len() implies (#[trigger] form[i]).0.len() != 8 by {}
}

/// Whether a page of an answer was read and has this content, which is no JSON.
pub open spec fn read_as(page: JsonView, content: Seq<char>) -> bool {
    &&& page.member("success"@) == Some(JsonView::Bool(true))
    &&& page_content(page) == Some(content)
    &&& parsed_json(content) is None
}

proof fn lemma_texts_of_read_pages(pages: Seq<JsonView>, contents: Seq<Seq<char>>)
    requires
        pages.len() == contents.len(),
        forall|i: int| 0 <= i < pages.len() ==> read_as(#[trigger] pages[i], contents[i]),
    ensures
        page_texts(pages) == Ok::<Seq<Seq<char>>, Seq<char>>(contents),
    decreases pages.len(),
{
    if pages.len() == 0 {
        assert(contents =~= Seq::empty());
    } else {
        let before = pages.drop_last();
        let earlier = contents.drop_last();
        assert forall|i: int| 0 <= i < before.len() implies read_as(
            #[trigger] before[i],
            earlier[i],
        ) by {
            assert(before[i] == pages[i]);
        }
        lemma_texts_of_read_pages(before, earlier);
        assert(read_as(pages[pages.len() - 1], contents[contents.len() - 1]));
        assert(earlier.push(contents.last()) =~= contents);
    }
}

/// The text of a scan is that of all its pages, in their order, with blank lines
/// between them.
pub proof fn law_scan_is_read_page_by_page(
    answer: JsonView,
    pages: Seq<JsonView>,
    contents: Seq<Seq<char>>,
)
    requires
        answer.member("results"@) == Some(JsonView::Array(pages)),
        pages.len() > 0,
        pages.len() == contents.len(),
        forall|i: int| 0 <= i < pages.len() ==> read_as(#[trigger] pages[i], contents[i]),
    ensures
        ocr_text(answer) == Ok::<Seq<char>, Seq<char>>(joined(contents, "\n\n"@)),
{
    lemma_texts_of_read_pages(pages, contents);
}

/// A page that was not read fails the whole scan, whatever comes after it, and the
/// error tells the name of its file and what went wrong.
pub proof fn law_unread_page_fails_the_scan(
    answer: JsonView,
    pages: Seq<JsonView>,
    contents: Seq<Seq<char>>,
    k: int,
    name: Seq<char>,
    detail: Seq<char>,
)
    requires
        answer.member("results"@) == Some(JsonView::Array(pages)),
        0 <= k < pages.len(),
        contents.len() == k,
        forall|i: int| 0 <= i < k ==> read_as(#[trigger] pages[i], contents[i]),
        pages[k].member("success"@) != Some(JsonView::Bool(true)),
        pages[k].member("filename"@) == Some(JsonView::Text(name)),
        pages[k].member("error"@) == Some(JsonView::Text(detail)),
    ensures
        ocr_text(answer) matches Err(e) && has_text(e, name) && finishes_with(e, detail),
{
    let first = pages.take(k);
    assert forall|i: int| 0 <= i < first.len() implies read_as(#[trigger] first[i], contents[i]) by {
        assert(first[i] == pages[i]);
    }
    lemma_texts_of_read_pages(first, contents);
    let upto = pages.take(k + 1);
    assert(upto.drop_last() =~= first);
    assert(upto.last() == pages[k]);
    lemma_page_failure_stays(pages, k + 1);
    lemma_stands_between("OCR failed for "@, name, ": "@ + detail);
    lemma_assoc("OCR failed for "@ + name, ": "@, detail);
    lemma_end_stands("OCR failed for "@ + name + ": "@, detail);
}

/// The text of a page whose content is JSON is what stands under `natural_text`
/// where it has that, and the content as it is where it does not.
pub proof fn law_natural_text_is_preferred(content: Seq<char>, inner: JsonView, text: Seq<char>)
    ensures
        inner.member("natural_text"@) == Some(JsonView::Text(text)) ==> page_text_of(
            content,
            Some(inner),
        ) == text,
        inner.member("natural_text"@) is None ==> page_text_of(content, Some(inner)) == content,
        page_text_of(content, None) == content,
{
}

/// JSON that a language model answers with is found: as it stands, whatever white
/// space is around it.
pub proof fn law_bare_json_is_found(text: Seq<char>)
    requires
        parsed_json(trimmed(text)) is Some,
    ensures
        extracted(text) == parsed_json(trimmed(text)),
{
}

/// JSON that a language model puts inside the fence of a code block is found,
/// whether or not the fence names the language.
pub proof fn law_fenced_json_is_found(body: Seq<char>, named: bool)
    requires
        body.len() >= 2,
        body[0] == '{',
        body[body.len() - 1] == '}',
        parsed_json(body) is Some,
        parsed_json(fenced(body, named)) is None,
    ensures
        extracted(fenced(body, named)) == parsed_json(body),
{
    let tick = "```"@;
    let json = "```json"@;
    let text = fenced(body, named);
    let inner = "\n"@ + body + "\n"@;
    let rest = inner + tick;
    lemma_fence_characters();
    lemma_fence_parts(body, named);
    lemma_trimmed_plain(text);
    assert(rest[0] == inner[0]);
    lemma_no_lead(rest, json);
    lemma_no_lead(rest, tick);
    if named {
        lemma_lead_taken(json, rest);
    } else {
        assert(text[3] == rest[0]);
        lemma_begins_otherwise(text, json, 3);
        assert(without_leading(text, json) == text);
        lemma_lead_taken(tick, rest);
    }
    assert(without_leading(without_leading(text, json), tick) == rest);
    lemma_trail_taken(inner, tick);
    lemma_trimmed_between_feeds(body);
    assert(unfenced(text) == body);
}

/// The characters of which the fence of a code block is made.
proof fn lemma_fence_characters()
    ensures
        "```"@.len() == 3,
        "```"@[0] == '`',
        "```"@[2] == '`',
        "```json"@.len() == 7,
        "```json"@[0] == '`',
        "```json"@[3] == 'j',
        "\n"@.len() == 1,
        "\n"@[0] == '\n',
        !is_space('`'),
        !is_space('{'),
        !is_space('}'),
{
    reveal_strlit("```");
    reveal_strlit("```json");
    reveal_strlit("\n");
}

/// The parts of a text inside the fence of a code block.
proof fn lemma_fence_parts(body: Seq<char>, named: bool)
    ensures
        fenced(body, named) == (if named {
            "```json"@
        } else {
            "```"@
        }) + ("\n"@ + body + "\n"@ + "```"@),
{
    reveal_strlit("```");
    reveal_strlit("```json");
    reveal_strlit("```json\n");
    reveal_strlit("```\n");
    reveal_strlit("\n```");
    reveal_strlit("\n");
    assert("```json\n"@ =~= "```json"@ + "\n"@);
    assert("```\n"@ =~= "```"@ + "\n"@);
    assert("\n```"@ =~= "\n"@ + "```"@);
    let lead = if named {
        "```json"@
    } else {
        "```"@
    };
    let feed = "\n"@;
    let tick = "```"@;
    assert(lead + feed + body + (feed + tick) =~= lead + (feed + body + feed + tick));
}

/// Trimming takes line feeds away that stand around a text.
proof fn lemma_trimmed_between_feeds(body: Seq<char>)
    requires
        body.len() > 0,
        !is_space(body[0]),
        !is_space(body[body.len() - 1]),
    ensures
        trimmed("\n"@ + body + "\n"@) == body,
{
    reveal_strlit("\n");
    assert("\n"@ =~= seq!['\n']);
    assert(is_space('\n'));
    lemma_trimmed_around('\n', body, '\n');
}

/// A text inside the fence of a code block, which may name the language.
pub open spec fn fenced(body: Seq<char>, named: bool) -> Seq<char> {
    (if named {
        "```json\n"@
    } else {
        "```\n"@
    }) + body + "\n```"@
}

/// The position of the last of a character that stands nowhere behind it.
proof fn lemma_last_found(a: Seq<char>, c: char, b: Seq<char>)
    requires
        lacks(b, c),
    ensures
        find_last(a + seq![c] + b, c) == a.len(),
    decreases b.len(),
{
    let s = a + seq![c] + b;
    if b.len() == 0 {
        assert(s.last() == c);
    } else {
        assert(s.last() == b[b.len() - 1]);
        assert(s.drop_last() =~= a + seq![c] + b.drop_last());
        assert forall|k: int| 0 <= k < b.drop_last().len() implies (#[trigger] b.drop_last()[k])
            != c by {
            assert(b.drop_last()[k] == b[k]);
        }
        lemma_last_found(a, c, b.drop_last());
    }
}

/// The span between the outermost braces of a text.
proof fn lemma_braced(before: Seq<char>, inner: Seq<char>, behind: Seq<char>)
    requires
        lacks(before, '{'),
        lacks(behind, '}'),
    ensures
        braced(before + (seq!['{'] + inner + seq!['}']) + behind) == Some(
            seq!['{'] + inner + seq!['}'],
        ),
{
    reveal_strlit("{");
    let open = seq!['{'];
    let close = seq!['}'];
    let body = open + inner + close;
    let s = before + body + behind;
    let n = before.len() as int;
    assert("{"@ =~= open);
    lemma_assoc(open, inner, close);
    lemma_assoc(before, open, inner + close);
    lemma_assoc(before + open, inner + close, behind);
    lemma_first_separator(before, open, inner + close + behind);
    assert(first_brace(s) == n);
    lemma_assoc(before + open, inner, close);
    lemma_last_found(before + open + inner, '}', behind);
    assert(find_last(s, '}') == n + body.len() - 1);
    lemma_stands_between(before, body, behind);
}

/// JSON that a language model puts between sentences is found.
pub proof fn law_json_between_sentences_is_found(
    before: Seq<char>,
    inner: Seq<char>,
    behind: Seq<char>,
)
    requires
        plain(before),
        plain(behind),
        lacks(before, '{'),
        lacks(before, '`'),
        lacks(behind, '}'),
        lacks(behind, '`'),
        parsed_json(before + (seq!['{'] + inner + seq!['}']) + behind) is None,
    ensures
        extracted(before + (seq!['{'] + inner + seq!['}']) + behind) == parsed_json(
            seq!['{'] + inner + seq!['}'],
        ),
{
    let body = seq!['{'] + inner + seq!['}'];
    let text = before + body + behind;
    lemma_fence_characters();
    assert(text[0] == before[0] && before[0] != '`');
    assert(text[text.len() - 1] == behind[behind.len() - 1] && behind[behind.len() - 1] != '`');
    lemma_trimmed_plain(text);
    lemma_no_lead(text, "```json"@);
    lemma_no_lead(text, "```"@);
    lemma_no_trail(text, "```"@);
    assert(unfenced(text) == text);
    lemma_braced(before, inner, behind);
}

/// An answer can be used exactly where its status says so; of any other it is told
/// what the service said, and of one that did not come, where it was asked.
pub proof fn law_failed_replies_are_told(
    service: Seq<char>,
    url: Seq<char>,
    status: u16,
    words: String,
    payload: String,
)
    ensures
        ({
            let reply = HttpReply::Answer { status, status_text: words, payload };
            &&& 200 <= status <= 299 ==> reply_failure(service, url, reply) is None
            &&& status < 200 || status > 299 ==> (reply_failure(service, url, reply) matches Some(e)
                && begins_with(e, service) && has_text(e, words@) && finishes_with(e, payload@))
        }),
        reply_failure(service, url, HttpReply::Unreachable) matches Some(e) && has_text(e, url),
        reply_failure(service, url, HttpReply::Unreadable) matches Some(e) && has_text(e, service),
{
    lemma_stands_between("request to "@, url, " failed"@);
    lemma_stands_between("failed to read "@, service, " response body"@);
    let a = " server returned "@;
    let b = ": "@;
    lemma_assoc(service, a, words@);
    lemma_assoc(service, a + words@, b);
    lemma_assoc(service, a + words@ + b, payload@);
    lemma_begins_with_concat(service, a + words@ + b + payload@);
    lemma_end_stands(service + a, words@);
    lemma_front_holds(service + a + words@, b, words@);
    lemma_front_holds(service + a + words@ + b, payload@, words@);
    lemma_end_stands(service + a + words@ + b, payload@);
}

/// Vectors are as wide as the environment says in digits, and 1024 wide where it
/// does not.
pub proof fn law_vector_width_is_set_or_default(env: Env, n: nat)
    requires
        n <= usize::MAX,
    ensures
        env.value("EMBEDDING_DIM"@) == Some(digits(n)) ==> embedding_service(env).dimensions == n,
        env.value("EMBEDDING_DIM"@) is None ==> embedding_service(env).dimensions == 1024,
        env.value("EMBEDDING_DIM"@) == Some(Seq::<char>::empty()) ==> embedding_service(
            env,
        ).dimensions == 1024,
{
    law_parse_reads_numeral(n, usize::MAX as nat);
}

/// A vector is taken only where all of it are numbers.
pub proof fn law_vectors_are_numbers_only(items: Seq<JsonView>, i: int)
    requires
        0 <= i < items.len(),
    ensures
        !(items[i] is Number) ==> !all_numbers(items),
        (forall|k: int| 0 <= k < items.len() ==> (#[trigger] items[k]) is Number) ==> all_numbers(
            items,
        ),
{
}

/// A scan without any page that was read is an error, and so is an answer without
/// results.
pub proof fn law_scan_without_text_fails(answer: JsonView)
    ensures
        answer.member("results"@) == Some(JsonView::Array(Seq::empty())) ==> ocr_text(answer)
            is Err,
        answer.member("results"@) is None ==> ocr_text(answer) is Err,
{
}

} // verus!
