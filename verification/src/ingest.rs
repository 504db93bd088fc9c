//! Taking examples in: what is kept of a document that is to serve as an
//! example, and of a scan of one.
use vstd::prelude::*;

use crate::database::text_arg;
use crate::database::ArgView;
use crate::error::blame;
use crate::error::store_error;
use crate::error::ApiError;
use crate::general_store::failure_of;
use crate::generation::DRAFT_TOKENS;
use crate::generation::CallView;
use crate::generation::LlmCall;
use crate::json::empty_object;
use crate::json::json_pretty_text;
use crate::json::json_text;
use crate::json::parsed_json;
use crate::json::reads_back;
use crate::json::MAX_DEPTH;
use crate::json::Json;
use crate::json::JsonView;
use crate::schemas::DocType;
use crate::sqlite::inserted;
use crate::sqlite::STORE_MEMORY;
use crate::sqlite::NewMemoryRecord;
use crate::sqlite::SqliteStore;
use crate::tables::arg_option;
use crate::tables::arg_text;
use crate::tables::inserted_example;
use crate::text::begins_with;
use crate::text::cat2;
use crate::text::cat3;
use crate::text::cat5;
use crate::text::either;
use crate::text::finishes_with;
use crate::text::first_chars;
use crate::text::first_text;
use crate::text::has_text;
use crate::text::lemma_assoc;
use crate::text::lemma_begins_with_concat;
use crate::text::lemma_end_stands;
use crate::text::lemma_front_holds;
use crate::text::opt_str;
use crate::text::opt_text;
use crate::text::truncate_chars;
use crate::vectors::EntryView;
use crate::vectors::PersistentVectorIndex;

verus! {

// ---------------------------------------------------------------------------
// The summary by which an example is found
// ---------------------------------------------------------------------------

/// The text under a key, if it is not empty.
pub open spec fn filled(fields: JsonView, key: Seq<char>) -> Option<Seq<char>> {
    match fields.member(key) {
        Some(JsonView::Text(s)) => if s.len() == 0 {
            None
        } else {
            Some(s)
        },
        _ => None,
    }
}

/// What a document is about: its subject, else its title.
pub open spec fn topic(fields: JsonView) -> Option<Seq<char>> {
    either(filled(fields, "subject"@), filled(fields, "title"@))
}

/// The summary of a document: its kind, and what it is about if it says so.
pub open spec fn summary_of(doc_type: DocType, fields: JsonView) -> Seq<char> {
    match topic(fields) {
        Some(t) => "ประเภท: "@ + doc_type.thai() + " | "@ + ("เรื่อง: "@ + t),
        None => "ประเภท: "@ + doc_type.thai(),
    }
}

/// The text under a key, if it is not empty.
fn filled_text(fields: &Json, key: &str) -> (r: Option<String>)
    ensures
        opt_text(r) == filled(fields@, key@),
{
    match fields.get(key) {
        Some(value) => match value.as_str() {
            Some(s) => if s.is_empty() {
                None
            } else {
                Some(s.to_owned())
            },
            None => None,
        },
        None => None,
    }
}

/// The summary of a document.
pub fn derive_summary(doc_type: DocType, fields: &Json) -> (r: String)
    ensures
        r@ == summary_of(doc_type, fields@),
{
    let head = cat2("ประเภท: ", doc_type.as_thai());
    match first_text(filled_text(fields, "subject"), filled_text(fields, "title")) {
        Some(t) => cat3(head.as_str(), " | ", cat2("เรื่อง: ", t.as_str()).as_str()),
        None => head,
    }
}

/// The summary of an example that is handed in: the one that comes with it, or
/// one that is made from its fields.
pub fn example_summary(doc_type: DocType, fields: &Json, summary: Option<&str>) -> (r: String)
    ensures
        r@ == (match opt_str(summary) {
            Some(s) => s,
            None => summary_of(doc_type, fields@),
        }),
{
    match summary {
        Some(s) => s.to_owned(),
        None => derive_summary(doc_type, fields),
    }
}

// ---------------------------------------------------------------------------
// Scans
// ---------------------------------------------------------------------------

pub const STRUCTURE_SYSTEM_PROMPT: &'static str =
    "คุณคือผู้ช่วยแปลงข้อความจาก OCR ของหนังสือราชการไทยให้เป็น JSON ตาม schema ที่กำหนด ใช้เฉพาะข้อมูลที่ปรากฏในข้อความ";

/// What the language model is asked to read the fields of a document from.
pub open spec fn structure_prompt(
    doc_type: DocType,
    text: Seq<char>,
    schema: JsonView,
) -> Seq<char> {
    "ประเภทเอกสาร: "@ + doc_type.thai() + "\n\nข้อความจาก OCR:\n"@ + text
        + "\n\nตอบกลับเป็น JSON ที่ตรงตาม schema นี้:\n"@ + json_pretty_text(schema)
}

/// The question by which the text of a scan is turned into the fields of a
/// document.
pub fn structure_document_from_text(doc_type: DocType, text: &str, schema: &Json) -> (r: LlmCall)
    ensures
        r@ == (CallView {
            system: STRUCTURE_SYSTEM_PROMPT@,
            user: structure_prompt(doc_type, text@, schema@),
            schema: schema@,
            max_tokens: DRAFT_TOKENS as nat,
        }),
{
    let mut user = cat5(
        "ประเภทเอกสาร: ",
        doc_type.as_thai(),
        "\n\nข้อความจาก OCR:\n",
        text,
        "\n\nตอบกลับเป็น JSON ที่ตรงตาม schema นี้:\n",
    );
    user.append(schema.to_pretty_text().as_str());
    LlmCall {
        system: STRUCTURE_SYSTEM_PROMPT.to_owned(),
        user,
        schema: schema.copy(),
        max_tokens: DRAFT_TOKENS,
    }
}

/// An example that was made from a scan.
#[derive(Debug)]
pub struct ScannedExample {
    pub fields: Json,
    pub summary: String,
    /// Whether the fields are those of the document, and not just its text.
    pub structured: bool,
}

/// The most characters of a text that serve as its summary.
pub const SUMMARY_CHARS: usize = 2000;

/// The fields of a scan whose text could not be turned into those of a document.
pub open spec fn raw_fields(doc_type: DocType, text: Seq<char>, source: Seq<char>) -> JsonView {
    empty_object().with("doc_type"@, JsonView::Text(doc_type.thai())).with(
        "content"@,
        JsonView::Text(text),
    ).with("source"@, JsonView::Text(source))
}

/// Makes an example from the text of a scan: with the fields of the document
/// where they could be read from the text, and with the text itself else.
pub fn scanned_example(
    doc_type: DocType,
    filename: &str,
    text: &str,
    structured: Option<Json>,
) -> (r: ScannedExample)
    ensures
        match structured {
            Some(fields) => {
                &&& r.fields@ == fields@
                &&& r.summary@ == summary_of(doc_type, fields@)
                &&& r.structured
            },
            None => {
                &&& r.fields@ == raw_fields(doc_type, text@, filename@)
                &&& r.summary@ == first_chars(text@, SUMMARY_CHARS as nat)
                &&& !r.structured
            },
        },
{
    match structured {
        Some(fields) => {
            let summary = derive_summary(doc_type, &fields);
            ScannedExample { fields, summary, structured: true }
        },
        None => {
            let fields = Json::object().with("doc_type", Json::text(doc_type.as_thai())).with(
                "content",
                Json::text(text),
            ).with("source", Json::text(filename));
            ScannedExample {
                fields,
                summary: truncate_chars(text, SUMMARY_CHARS),
                structured: false,
            }
        },
    }
}

// ---------------------------------------------------------------------------
// Keeping an example
// ---------------------------------------------------------------------------

/// The arguments of the statement that keeps an example.
pub open spec fn example_args(
    doc_type: DocType,
    summary: Seq<char>,
    fields: JsonView,
    agency: Option<Seq<char>>,
    recipient_class: Option<Seq<char>>,
    raw_text: Option<Seq<char>>,
    embedding: Option<Seq<char>>,
) -> Seq<ArgView> {
    seq![
        ArgView::Text(doc_type.thai()),
        ArgView::Text(summary),
        ArgView::Text(json_text(fields)),
        text_arg(recipient_class),
        text_arg(agency),
        ArgView::Null,
        text_arg(raw_text),
        text_arg(embedding),
    ]
}

/// The index after an example was kept: with the vector of the example where it
/// has one.
pub open spec fn indexed(
    entries: Seq<EntryView>,
    id: i64,
    doc_type: DocType,
    embedding: Option<Seq<char>>,
) -> Seq<EntryView> {
    match embedding {
        Some(vector) => entries.push(EntryView { id, doc_type: doc_type.thai(), vector }),
        None => entries,
    }
}

/// Keeps an example in the store and, where it has a vector, in the index.
pub fn store_memory_record(
    store: &mut SqliteStore,
    index: &mut PersistentVectorIndex,
    doc_type: DocType,
    summary: &str,
    fields: &Json,
    agency: Option<&str>,
    recipient_class: Option<&str>,
    raw_text: Option<&str>,
    embedding: Option<&str>,
) -> (r: Result<i64, ApiError>)
    ensures
        ({
            let args = example_args(
                doc_type,
                summary@,
                fields@,
                opt_str(agency),
                opt_str(recipient_class),
                opt_str(raw_text),
                opt_str(embedding),
            );
            let before = old(store).history();
            let after = final(store).history();
            match r {
                Ok(id) => inserted(before, after, STORE_MEMORY@, args, Ok(id)) && final(index)@
                    == indexed(old(index)@, id, doc_type, opt_str(embedding)),
                Err(e) => {
                    let fault = failure_of(after.last());
                    &&& inserted(before, after, STORE_MEMORY@, args, Err(fault))
                    &&& e@ == blame(fault)
                    &&& final(index)@ == old(index)@
                },
            }
        }),
        final(index).path == old(index).path,
        reads_back(fields@, MAX_DEPTH as nat) ==> parsed_json(json_text(fields@)) == Some(fields@),
{
    let record = NewMemoryRecord {
        doc_type: doc_type.as_thai(),
        summary_text: summary,
        fields,
        recipient_class,
        agency,
        template_id: None,
        raw_text,
        embedding,
    };
    let id = match store.store_memory(record) {
        Ok(id) => id,
        Err(e) => {
            return Err(store_error(&e));
        },
    };
    match embedding {
        Some(vector) => {
            index.add(id, doc_type.as_thai(), vector);
        },
        None => {},
    }
    Ok(id)
}

// ---------------------------------------------------------------------------
// Laws
// ---------------------------------------------------------------------------

/// The summary of a document tells its kind, and then its subject where it has
/// one that is not empty, whatever its title; else its title where that is not
/// empty; else nothing more.
pub proof fn law_summary_tells_kind_and_topic(
    doc_type: DocType,
    fields: JsonView,
    subject: Seq<char>,
    title: Seq<char>,
)
    requires
        fields.member("subject"@) == Some(JsonView::Text(subject)),
        fields.member("title"@) == Some(JsonView::Text(title)),
    ensures
        ({
            let summary = summary_of(doc_type, fields);
            let kind = "ประเภท: "@ + doc_type.thai();
            &&& begins_with(summary, kind)
            &&& subject.len() > 0 ==> summary.skip(kind.len() as int) == " | "@ + ("เรื่อง: "@
                + subject)
            &&& subject.len() == 0 && title.len() > 0 ==> summary.skip(kind.len() as int) == " | "@
                + ("เรื่อง: "@ + title)
            &&& subject.len() == 0 && title.len() == 0 ==> summary == kind
        }),
{
    let kind = "ประเภท: "@ + doc_type.thai();
    let summary = summary_of(doc_type, fields);
    if subject.len() > 0 || title.len() > 0 {
        let t = if subject.len() > 0 {
            subject
        } else {
            title
        };
        let rest = " | "@ + ("เรื่อง: "@ + t);
        lemma_begins_with_concat(kind, rest);
        assert(summary =~= kind + rest);
    } else {
        assert(kind.subrange(0, kind.len() as int) =~= kind);
    }
}

/// The question about a scan begins with the kind of the document, holds the
/// whole text of the scan, and ends with the schema that is to be followed.
pub proof fn law_structure_prompt_holds_the_scan(
    doc_type: DocType,
    text: Seq<char>,
    schema: JsonView,
)
    ensures
        ({
            let prompt = structure_prompt(doc_type, text, schema);
            &&& begins_with(prompt, "ประเภทเอกสาร: "@ + doc_type.thai())
            &&& has_text(prompt, "ข้อความจาก OCR:\n"@ + text + "\n\n"@)
            &&& finishes_with(prompt, json_pretty_text(schema))
        }),
{
    let a = "ประเภทเอกสาร: "@ + doc_type.thai();
    let b = "\n\nข้อความจาก OCR:\n"@;
    let c = "\n\nตอบกลับเป็น JSON ที่ตรงตาม schema นี้:\n"@;
    let d = json_pretty_text(schema);
    let gap = "\n\n"@;
    let head = "ข้อความจาก OCR:\n"@;
    let rest = lemma_scan_literals();
    lemma_assoc(a, b, text);
    lemma_assoc(a, b + text, c);
    lemma_assoc(a, b + text + c, d);
    lemma_begins_with_concat(a, b + text + c + d);
    lemma_end_stands(a + b + text + c, d);
    let p = head + text + gap;
    lemma_assoc(a, gap, head);
    lemma_assoc(a + gap, head, text);
    lemma_assoc(a + gap + (head + text), gap, rest);
    lemma_assoc(a + gap, head + text, gap);
    lemma_end_stands(a + gap, p);
    lemma_front_holds(a + gap + p, rest, p);
    assert(a + b + text + c == a + gap + p + rest);
    lemma_front_holds(a + b + text + c, d, p);
}

/// The fixed parts of the question about a scan.
proof fn lemma_scan_literals() -> (rest: Seq<char>)
    ensures
        "\n\nข้อความจาก OCR:\n"@ == "\n\n"@ + "ข้อความจาก OCR:\n"@,
        "\n\nตอบกลับเป็น JSON ที่ตรงตาม schema นี้:\n"@ == "\n\n"@ + rest,
{
    reveal_strlit("\n\nข้อความจาก OCR:\n");
    reveal_strlit("ข้อความจาก OCR:\n");
    reveal_strlit("\n\nตอบกลับเป็น JSON ที่ตรงตาม schema นี้:\n");
    reveal_strlit("\n\n");
    let c = "\n\nตอบกลับเป็น JSON ที่ตรงตาม schema นี้:\n"@;
    assert("\n\nข้อความจาก OCR:\n"@ =~= "\n\n"@ + "ข้อความจาก OCR:\n"@);
    assert(c =~= "\n\n"@ + c.skip(2));
    c.skip(2)
}

/// Of a scan that could not be turned into fields, the whole text is kept, with
/// where it comes from and its kind. Its summary is its beginning, which is all
/// of it where it is not too long.
pub proof fn law_raw_example_keeps_the_text(
    doc_type: DocType,
    text: Seq<char>,
    source: Seq<char>,
)
    ensures
        ({
            let fields = raw_fields(doc_type, text, source);
            let summary = first_chars(text, SUMMARY_CHARS as nat);
            &&& fields.member("content"@) == Some(JsonView::Text(text))
            &&& fields.member("source"@) == Some(JsonView::Text(source))
            &&& fields.member("doc_type"@) == Some(JsonView::Text(doc_type.thai()))
            &&& begins_with(text, summary)
            &&& text.len() <= 2000 ==> summary == text
            &&& text.len() > 2000 ==> summary.len() == 2000
        }),
{
    reveal_strlit("content");
    reveal_strlit("source");
    reveal_strlit("doc_type");
    assert("content"@.len() != "source"@.len());
    assert("content"@.len() != "doc_type"@.len());
    assert("source"@.len() != "doc_type"@.len());
    let summary = first_chars(text, SUMMARY_CHARS as nat);
    assert(text.subrange(0, summary.len() as int) =~= summary);
}

/// An example that was kept is there under its number, with its kind, its fields
/// and its vector, and the index gives the same number the same vector.
pub proof fn law_kept_example_is_as_it_came(
    id: i64,
    doc_type: DocType,
    summary: Seq<char>,
    fields: JsonView,
    agency: Option<Seq<char>>,
    recipient_class: Option<Seq<char>>,
    raw_text: Option<Seq<char>>,
    embedding: Option<Seq<char>>,
    entries: Seq<EntryView>,
)
    ensures
        ({
            let args = example_args(
                doc_type,
                summary,
                fields,
                agency,
                recipient_class,
                raw_text,
                embedding,
            );
            let row = inserted_example(args, id);
            let index = indexed(entries, id, doc_type, embedding);
            &&& row.id == id
            &&& row.doc_type == doc_type.thai()
            &&& row.fields_json == json_text(fields)
            &&& row.embedding == embedding
            &&& arg_text(args[1]) == summary
            &&& arg_option(args[3]) == recipient_class
            &&& arg_option(args[4]) == agency
            &&& arg_option(args[6]) == raw_text
            &&& begins_alike(index, entries)
            &&& embedding is None ==> index.len() == entries.len()
            &&& embedding matches Some(vector) ==> index.len() == entries.len() + 1
                && index.last().id == row.id && index.last().doc_type == row.doc_type
                && index.last().vector == vector
        }),
{
    assert(arg_option(text_arg(embedding)) == embedding);
    assert(arg_option(text_arg(recipient_class)) == recipient_class);
    assert(arg_option(text_arg(agency)) == agency);
    assert(arg_option(text_arg(raw_text)) == raw_text);
}

/// Whether a list of entries begins with another.
pub open spec fn begins_alike(list: Seq<EntryView>, first: Seq<EntryView>) -> bool {
    &&& first.len() <= list.len()
    &&& forall|i: int| 0 <= i < first.len() ==> list[i] == #[trigger] first[i]
}

} // verus!
