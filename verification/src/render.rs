//! Rendering documents with the program that does it, and naming the files that
//! are exported.
use vstd::prelude::*;

use crate::error::internal;
use crate::error::internal_error;
use crate::error::refused_with;
use crate::error::BAD_GATEWAY;
use crate::error::NOT_IMPLEMENTED;
use crate::error::ApiError;
use crate::error::Refusal;
use crate::generation::Failed;
use crate::json::empty_object;
use crate::json::json_text;
use crate::json::text_or_null;
use crate::json::Json;
use crate::json::JsonView;
use crate::number::digits;
use crate::number::law_digits_stand_for_number;
use crate::number::show_u64;
use crate::schemas::RenderRequest;
use crate::text::begins_with;
use crate::text::cat2;
use crate::text::cat3;
use crate::text::finishes_with;
use crate::text::lemma_assoc;
use crate::text::lemma_begins_with_concat;
use crate::text::lemma_end_stands;
use crate::text::opt_str;
use crate::text::trim;
use crate::text::trimmed;
use crate::unicode::lossy_text;
use crate::unicode::utf8_lossy;

verus! {

// ---------------------------------------------------------------------------
// The renderer
// ---------------------------------------------------------------------------

/// What is said where no renderer is configured.
pub open spec fn no_renderer() -> Refusal {
    Refusal {
        status: NOT_IMPLEMENTED,
        detail: "Renderer sidecar is not configured; set GOVDOC_RENDERER_CMD"@,
    }
}

/// What the renderer is told.
pub open spec fn render_payload(
    req: RenderRequest,
    template_path: Option<Seq<char>>,
    python_source: Option<Seq<char>>,
) -> JsonView {
    empty_object().with("doc_type"@, JsonView::Text(req.doc_type.thai())).with(
        "doc_data"@,
        req.doc_data@,
    ).with("template_path"@, text_or_null(template_path)).with(
        "python_source"@,
        text_or_null(python_source),
    )
}

/// What is run to render a document, and what it is told.
#[derive(Debug)]
pub struct RenderCall {
    pub command: String,
    pub input: String,
}

/// What is run to render a document, and what it is told.
pub fn render_with_sidecar(
    command: Option<&str>,
    req: &RenderRequest,
    template_path: Option<&str>,
    python_source: Option<&str>,
) -> (r: Result<RenderCall, ApiError>)
    ensures
        match opt_str(command) {
            None => refused_with(r, no_renderer()),
            Some(c) => r matches Ok(call) && call.command@ == c && call.input@ == json_text(
                render_payload(*req, opt_str(template_path), opt_str(python_source)),
            ),
        },
{
    let command = match command {
        Some(command) => command,
        None => {
            return Err(
                ApiError::new(
                    NOT_IMPLEMENTED,
                    "Renderer sidecar is not configured; set GOVDOC_RENDERER_CMD",
                ),
            );
        },
    };
    let payload = Json::object().with("doc_type", Json::text(req.doc_type.as_thai())).with(
        "doc_data",
        req.doc_data.copy(),
    ).with("template_path", Json::text_or_null(template_path)).with(
        "python_source",
        Json::text_or_null(python_source),
    );
    Ok(RenderCall { command: command.to_owned(), input: payload.to_text() })
}

/// What came of running the renderer.
#[derive(Debug)]
pub enum RenderRun {
    /// It could not be started.
    NotStarted(String),
    /// There was no way to tell it anything.
    NoInput,
    /// It could not be told everything.
    NotWritten(String),
    /// What it said could not be read.
    NotRead(String),
    /// It failed, and said this of the reason.
    Failed(Vec<u8>),
    /// It wrote this document.
    Done(Vec<u8>),
}

/// What is said where the renderer failed: what it said itself, if it said
/// anything.
pub open spec fn render_failure(stderr: Seq<u8>) -> Refusal {
    let said = trimmed(lossy_text(stderr));
    Refusal {
        status: BAD_GATEWAY,
        detail: if said.len() == 0 {
            "Renderer sidecar failed"@
        } else {
            said
        },
    }
}

/// What a request to render a document is answered.
pub fn rendered(run: RenderRun) -> (r: Result<Vec<u8>, ApiError>)
    ensures
        match run {
            RenderRun::NotStarted(e) => refused_with(
                r,
                internal("Failed to start renderer sidecar: "@ + e@),
            ),
            RenderRun::NoInput => refused_with(
                r,
                internal("Renderer sidecar stdin is unavailable"@),
            ),
            RenderRun::NotWritten(e) => refused_with(
                r,
                internal("Failed to write renderer input: "@ + e@),
            ),
            RenderRun::NotRead(e) => refused_with(
                r,
                internal("Failed to read renderer output: "@ + e@),
            ),
            RenderRun::Failed(stderr) => refused_with(r, render_failure(stderr@)),
            RenderRun::Done(docx) => r == Ok::<Vec<u8>, ApiError>(docx),
        },
{
    match run {
        RenderRun::NotStarted(e) => Err(
            internal_error(cat2("Failed to start renderer sidecar: ", e.as_str()).as_str()),
        ),
        RenderRun::NoInput => Err(internal_error("Renderer sidecar stdin is unavailable")),
        RenderRun::NotWritten(e) => Err(
            internal_error(cat2("Failed to write renderer input: ", e.as_str()).as_str()),
        ),
        RenderRun::NotRead(e) => Err(
            internal_error(cat2("Failed to read renderer output: ", e.as_str()).as_str()),
        ),
        RenderRun::Failed(stderr) => {
            let said = trim(utf8_lossy(stderr.as_slice()).as_str());
            if said.as_str().is_empty() {
                return Err(ApiError::new(BAD_GATEWAY, "Renderer sidecar failed"));
            }
            Err(ApiError { status: BAD_GATEWAY, detail: said })
        },
        RenderRun::Done(docx) => Ok(docx),
    }
}

// ---------------------------------------------------------------------------
// Names of exported files
// ---------------------------------------------------------------------------

/// The stem of the names of rendered documents.
pub const RENDERED_STEM: &'static str = "govdoc";

/// The stem of the names of exported general documents.
pub const GENERAL_STEM: &'static str = "general-document";

/// What tells one attempt to find a name from the next.
pub open spec fn attempt_mark(attempt: nat) -> Seq<char> {
    if attempt < 2 {
        Seq::empty()
    } else {
        "-"@ + digits(attempt)
    }
}

/// The name of an exported file, made from the time; further attempts are
/// numbered, from two on.
pub open spec fn export_name(
    stem: Seq<char>,
    millis: nat,
    attempt: nat,
    extension: Seq<char>,
) -> Seq<char> {
    stem + "-"@ + digits(millis) + attempt_mark(attempt) + "."@ + extension
}

/// The name of an exported file.
pub fn unique_export_name(stem: &str, millis: u64, attempt: u64, extension: &str) -> (r: String)
    ensures
        r@ == export_name(stem@, millis as nat, attempt as nat, extension@),
{
    let mut name = cat3(stem, "-", show_u64(millis).as_str());
    if attempt >= 2 {
        name.append("-");
        name.append(show_u64(attempt).as_str());
    }
    name.append(".");
    name.append(extension);
    assert(name@ =~= export_name(stem@, millis as nat, attempt as nat, extension@));
    name
}

/// Each attempt to find a name for an exported file gives another name.
pub proof fn law_attempts_differ(
    stem: Seq<char>,
    millis: nat,
    extension: Seq<char>,
    a: nat,
    b: nat,
)
    requires
        1 <= a < b,
    ensures
        export_name(stem, millis, a, extension) != export_name(stem, millis, b, extension),
{
    let head = stem + "-"@ + digits(millis);
    let tail = "."@ + extension;
    let x = export_name(stem, millis, a, extension);
    let y = export_name(stem, millis, b, extension);
    assert(x =~= head + attempt_mark(a) + tail);
    assert(y =~= head + attempt_mark(b) + tail);
    law_digits_stand_for_number(a);
    law_digits_stand_for_number(b);
    reveal_strlit("-");
    if x == y {
        let n = head.len() as int;
        let ma = attempt_mark(a);
        let mb = attempt_mark(b);
        assert(x.len() == n + ma.len() + tail.len());
        assert(y.len() == n + mb.len() + tail.len());
        assert(ma =~= x.subrange(n, n + ma.len()));
        assert(mb =~= y.subrange(n, n + mb.len()));
        assert(mb[0] == "-"@[0]);
        assert(ma.subrange(1, ma.len() as int) =~= digits(a));
        assert(mb.subrange(1, mb.len() as int) =~= digits(b));
    }
}

/// The name of the directory that an upload goes into until it has a number.
pub fn staging_name(millis: u64) -> (r: String)
    ensures
        r@ == "upload-"@ + digits(millis as nat),
{
    cat2("upload-", show_u64(millis).as_str())
}

/// The name of a directory for work in progress.
pub fn work_dir_name(stem: &str, millis: u64) -> (r: String)
    ensures
        r@ == stem@ + digits(millis as nat),
{
    cat2(stem, show_u64(millis).as_str())
}

/// The names in what the renderer is told are four.
proof fn lemma_payload_names_differ()
    ensures
        "doc_type"@ != "doc_data"@,
        "doc_type"@ != "template_path"@,
        "doc_type"@ != "python_source"@,
        "doc_data"@ != "template_path"@,
        "doc_data"@ != "python_source"@,
        "template_path"@ != "python_source"@,
{
    reveal_strlit("doc_type");
    reveal_strlit("doc_data");
    reveal_strlit("template_path");
    reveal_strlit("python_source");
    assert("doc_type"@.len() == 8 && "doc_type"@[4] == 't');
    assert("doc_data"@.len() == 8 && "doc_data"@[4] == 'd');
    assert("template_path"@.len() == 13 && "template_path"@[0] == 't');
    assert("python_source"@.len() == 13 && "python_source"@[0] == 'p');
}

/// The renderer is told the kind of the document, the document, and where the
/// template and the Python sources are, or nothing where they are nowhere.
pub proof fn law_renderer_is_told_the_document(
    req: RenderRequest,
    template_path: Option<Seq<char>>,
    python_source: Option<Seq<char>>,
)
    ensures
        ({
            let payload = render_payload(req, template_path, python_source);
            &&& payload.member("doc_type"@) == Some(JsonView::Text(req.doc_type.thai()))
            &&& payload.member("doc_data"@) == Some(req.doc_data@)
            &&& template_path matches Some(path) ==> payload.member("template_path"@) == Some(
                JsonView::Text(path),
            )
            &&& template_path is None ==> payload.member("template_path"@) == Some(JsonView::Null)
            &&& python_source matches Some(path) ==> payload.member("python_source"@) == Some(
                JsonView::Text(path),
            )
            &&& python_source is None ==> payload.member("python_source"@) == Some(JsonView::Null)
        }),
{
    lemma_payload_names_differ();
}

/// The name of an exported file begins with its stem and the time and ends with
/// its extension.
pub proof fn law_export_name_tells_stem_and_extension(
    stem: Seq<char>,
    millis: nat,
    attempt: nat,
    extension: Seq<char>,
)
    ensures
        begins_with(export_name(stem, millis, attempt, extension), stem + "-"@ + digits(millis)),
        finishes_with(export_name(stem, millis, attempt, extension), "."@ + extension),
{
    let front = stem + "-"@ + digits(millis);
    let mark = attempt_mark(attempt);
    let end = "."@ + extension;
    lemma_assoc(front + mark, "."@, extension);
    lemma_end_stands(front + mark, end);
    lemma_assoc(front, mark, end);
    lemma_begins_with_concat(front, mark + end);
}

} // verus!
