//! A language model that answers by rule, for runs without a real one.
use vstd::prelude::*;

use crate::generation::GENERATOR_SYSTEM_PROMPT;
use crate::json::empty_object;
use crate::json::text_array;
use crate::json::Json;
use crate::json::JsonView;
use crate::schemas::DocType;
use crate::text::begins_with;
use crate::text::cat2;
use crate::text::cat3;
use crate::text::cat4;
use crate::text::contains;
use crate::text::has_text;
use crate::text::join;
use crate::text::joined;
use crate::text::keep_nonblank;
use crate::text::lemma_begins_with_concat;
use crate::text::lemma_lacks;
use crate::text::lemma_stands_between;
use crate::text::lines;
use crate::text::lines_of;
use crate::text::nonblank;
use crate::text::push_text;
use crate::text::starts_with;
use crate::text::strip_prefix;
use crate::text::texts;
use crate::text::trim;
use crate::text::trimmed;

verus! {

/// The language model that answers by rule.
pub struct FakeLlmProvider;

/// The embedding model whose vectors are zero.
pub struct FakeEmbeddingProvider;

/// The width of the vectors of the embedding model that answers by rule.
pub const FAKE_DIMENSIONS: usize = 8;

// ---------------------------------------------------------------------------
// Reading prompts
// ---------------------------------------------------------------------------

/// What stands behind `prefix` on the first line that has anything there.
pub open spec fn first_value(list: Seq<Seq<char>>, prefix: Seq<char>) -> Option<Seq<char>>
    decreases list.len(),
{
    if list.len() == 0 {
        None
    } else {
        let line = list[0];
        let value = trimmed(line.skip(prefix.len() as int));
        if begins_with(line, prefix) && value.len() > 0 {
            Some(value)
        } else {
            first_value(list.drop_first(), prefix)
        }
    }
}

/// The value that a prompt gives under `label`.
pub open spec fn prompt_value(prompt: Seq<char>, label: Seq<char>) -> Option<Seq<char>> {
    first_value(lines_of(prompt), label + ": "@)
}

/// The value that a prompt gives under `label`, or `default`.
pub open spec fn value_or(prompt: Seq<char>, label: Seq<char>, default: Seq<char>) -> Seq<char> {
    match prompt_value(prompt, label) {
        Some(value) => value,
        None => default,
    }
}

/// The value that a prompt gives under `label`.
pub fn extract_prompt_value(prompt: &str, label: &str) -> (r: Option<String>)
    ensures
        crate::text::opt_text(r) == prompt_value(prompt@, label@),
{
    let prefix = cat2(label, ": ");
    let list = lines(prompt);
    let ghost all = texts(list@);
    assert(all.skip(0) =~= all);
    let mut i: usize = 0;
    while i < list.len()
        invariant
            i <= list@.len(),
            all == texts(list@),
            all == lines_of(prompt@),
            prefix@ == label@ + ": "@,
            first_value(all, prefix@) == first_value(all.skip(i as int), prefix@),
        decreases list@.len() - i,
    {
        assert(all.skip(i as int).drop_first() =~= all.skip(i as int + 1));
        match strip_prefix(list[i].as_str(), prefix.as_str()) {
            Some(rest) => {
                let value = trim(rest.as_str());
                if !value.as_str().is_empty() {
                    return Some(value);
                }
            },
            None => {},
        }
        i += 1;
    }
    None
}

/// Lines that do not begin with the prefix are passed over.
pub proof fn lemma_first_value_skips(
    passed: Seq<Seq<char>>,
    rest: Seq<Seq<char>>,
    prefix: Seq<char>,
)
    requires
        forall|i: int| 0 <= i < passed.len() ==> !begins_with(#[trigger] passed[i], prefix),
    ensures
        first_value(passed + rest, prefix) == first_value(rest, prefix),
    decreases passed.len(),
{
    if passed.len() == 0 {
        assert(passed + rest =~= rest);
    } else {
        let later = passed.drop_first();
        assert forall|i: int| 0 <= i < later.len() implies !begins_with(
            #[trigger] later[i],
            prefix,
        ) by {
            assert(later[i] == passed[i + 1]);
        }
        lemma_first_value_skips(later, rest, prefix);
        assert((passed + rest).drop_first() =~= later + rest);
        assert((passed + rest)[0] == passed[0]);
    }
}

/// A line with the prefix gives its value.
pub proof fn lemma_first_value_found(value: Seq<char>, rest: Seq<Seq<char>>, prefix: Seq<char>)
    requires
        trimmed(value).len() > 0,
    ensures
        first_value(seq![prefix + value] + rest, prefix) == Some(trimmed(value)),
{
    lemma_begins_with_concat(prefix, value);
    let list = seq![prefix + value] + rest;
    assert(list[0] == prefix + value);
}

/// The value that a prompt gives under `label`, or `default`.
fn extract_or(prompt: &str, label: &str, default: &str) -> (r: String)
    ensures
        r@ == value_or(prompt@, label@, default@),
{
    match extract_prompt_value(prompt, label) {
        Some(value) => value,
        None => default.to_owned(),
    }
}

/// The lines before the first that begins with `marker`.
pub open spec fn lines_before(list: Seq<Seq<char>>, marker: Seq<char>) -> Seq<Seq<char>>
    decreases list.len(),
{
    if list.len() == 0 || begins_with(list[0], marker) {
        Seq::empty()
    } else {
        seq![list[0]] + lines_before(list.drop_first(), marker)
    }
}

/// The lines before a marker, where they are followed by it.
pub proof fn lemma_lines_before(
    shown: Seq<Seq<char>>,
    rest: Seq<Seq<char>>,
    marker: Seq<char>,
)
    requires
        rest.len() > 0,
        begins_with(rest[0], marker),
        forall|i: int| 0 <= i < shown.len() ==> !begins_with(#[trigger] shown[i], marker),
    ensures
        lines_before(shown + rest, marker) == shown,
    decreases shown.len(),
{
    let all = shown + rest;
    if shown.len() == 0 {
        assert(all[0] == rest[0]);
        assert(lines_before(all, marker) =~= shown);
    } else {
        let later = shown.drop_first();
        assert forall|i: int| 0 <= i < later.len() implies !begins_with(
            #[trigger] later[i],
            marker,
        ) by {
            assert(later[i] == shown[i + 1]);
        }
        lemma_lines_before(later, rest, marker);
        assert(all[0] == shown[0]);
        assert(all.drop_first() =~= later + rest);
        assert(seq![shown[0]] + later =~= shown);
    }
}

/// The text that an edit prompt is about: the lines after the first, up to the
/// instructions, that are not blank.
pub open spec fn editable(prompt: Seq<char>) -> Seq<Seq<char>> {
    let list = lines_of(prompt);
    if list.len() == 0 {
        Seq::empty()
    } else {
        nonblank(lines_before(list.drop_first(), "คำสั่งแก้ไข:"@))
    }
}

/// The text that an edit prompt is about.
pub fn editable_lines(prompt: &str) -> (r: Vec<String>)
    ensures
        texts(r@) == editable(prompt@),
{
    let list = lines(prompt);
    let ghost all = texts(list@);
    let mut kept: Vec<String> = Vec::new();
    if list.len() == 0 {
        assert(texts(kept@) =~= Seq::empty());
        return kept;
    }
    let ghost body = all.drop_first();
    let ghost marker = "คำสั่งแก้ไข:"@;
    assert(texts(kept@) + lines_before(body.skip(0), marker) =~= lines_before(body, marker)) by {
        assert(body.skip(0) =~= body);
    }
    let mut i: usize = 1;
    while i < list.len() && !starts_with(list[i].as_str(), "คำสั่งแก้ไข:")
        invariant
            1 <= i <= list@.len(),
            all == texts(list@),
            body == all.drop_first(),
            marker == "คำสั่งแก้ไข:"@,
            texts(kept@) + lines_before(body.skip(i - 1), marker) == lines_before(body, marker),
        decreases list@.len() - i,
    {
        let ghost here = body.skip(i - 1);
        let ghost before = texts(kept@);
        push_text(&mut kept, list[i].clone());
        proof {
            assert(here.drop_first() =~= body.skip(i as int));
            assert(here[0] == list@[i as int]@);
            assert(texts(kept@) + lines_before(body.skip(i as int), marker) =~= before
                + lines_before(here, marker));
        }
        i += 1;
    }
    proof {
        let here = body.skip(i - 1);
        if i < list@.len() {
            assert(here[0] == list@[i as int]@);
        }
        assert(lines_before(here, marker) =~= Seq::empty());
        assert(texts(kept@) =~= lines_before(body, marker));
    }
    keep_nonblank(&kept)
}

// ---------------------------------------------------------------------------
// Answers
// ---------------------------------------------------------------------------

/// The kind of document that a prompt asks for on its first line.
pub open spec fn requested_type(prompt: Seq<char>) -> DocType {
    let list = lines_of(prompt);
    let line = if list.len() == 0 {
        Seq::<char>::empty()
    } else {
        list[0]
    };
    if has_text(line, "ภายใน"@) {
        DocType::Internal
    } else if has_text(line, "คำสั่ง"@) {
        DocType::Order
    } else if has_text(line, "ประกาศ"@) {
        DocType::Announcement
    } else {
        DocType::External
    }
}

/// A field that is a string.
pub open spec fn put(object: JsonView, key: Seq<char>, value: Seq<char>) -> JsonView {
    object.with(key, JsonView::Text(value))
}

/// The document that is written for a prompt.
pub open spec fn fake_document(prompt: Seq<char>) -> JsonView {
    let subject = value_or(prompt, "เรื่อง"@, "เรื่องทดสอบ"@);
    let recipient = value_or(prompt, "ผู้รับ"@, "ผู้เกี่ยวข้อง"@);
    let name = value_or(prompt, "ผู้ลงนาม"@, "ผู้ลงนาม"@);
    let position = value_or(prompt, "ตำแหน่ง"@, "ตำแหน่ง"@);
    let purpose = value_or(prompt, "จุดประสงค์"@, "แจ้งเพื่อทราบ"@);
    let none = JsonView::Array(Seq::empty());
    match requested_type(prompt) {
        DocType::External => {
            let o = put(empty_object(), "doc_type"@, "ภายนอก"@);
            let o = put(o, "number"@, "ศธ 0000/0001"@);
            let o = put(o, "agency"@, "หน่วยงานตัวอย่าง"@);
            let o = put(o, "date"@, "1 มกราคม 2569"@);
            let o = put(o, "subject"@, subject);
            let o = put(o, "recipient"@, recipient);
            let o = put(o, "salutation"@, ""@);
            let o = o.with("reference"@, none);
            let o = o.with("enclosure"@, none);
            let o = o.with(
                "body"@,
                text_array(
                    seq![
                        "ด้วยหน่วยงานตัวอย่างมีความประสงค์"@ + purpose,
                        "จึงเรียนมาเพื่อโปรดพิจารณา"@,
                    ],
                ),
            );
            let o = put(o, "closing"@, ""@);
            let o = put(o, "signer_name"@, name);
            put(o, "signer_position"@, position)
        },
        DocType::Internal => {
            let o = put(empty_object(), "doc_type"@, "ภายใน"@);
            let o = put(o, "agency"@, "หน่วยงานตัวอย่าง"@);
            let o = put(o, "reference_number"@, "ศธ 0000/0001"@);
            let o = put(o, "date"@, "1 มกราคม 2569"@);
            let o = put(o, "subject"@, subject);
            let o = put(o, "recipient"@, recipient);
            let o = put(o, "salutation"@, ""@);
            let o = o.with(
                "body"@,
                text_array(
                    seq!["ตามที่มีภารกิจเกี่ยวกับ"@ + purpose, "จึงเรียนมาเพื่อโปรดทราบ"@],
                ),
            );
            let o = put(o, "closing"@, ""@);
            let o = put(o, "signer_name"@, name);
            put(o, "signer_position"@, position)
        },
        DocType::Order => {
            let o = put(empty_object(), "doc_type"@, "คำสั่ง"@);
            let o = put(o, "number"@, "1/2569"@);
            let o = put(o, "title"@, subject);
            let o = o.with(
                "body"@,
                text_array(
                    seq![
                        "เพื่อให้การดำเนินงาน"@ + purpose + "เป็นไปด้วยความเรียบร้อย"@,
                        "จึงมีคำสั่งให้ผู้เกี่ยวข้องดำเนินการตามหน้าที่"@,
                    ],
                ),
            );
            let o = put(o, "date"@, "1 มกราคม 2569"@);
            let o = put(o, "signer_name"@, name);
            put(o, "signer_position"@, position)
        },
        DocType::Announcement => {
            let o = put(empty_object(), "doc_type"@, "ประกาศ"@);
            let o = put(o, "number"@, "1/2569"@);
            let o = put(o, "title"@, subject);
            let o = o.with(
                "body"@,
                text_array(
                    seq![
                        "หน่วยงานตัวอย่างขอประกาศให้ทราบเกี่ยวกับ"@ + purpose,
                        "จึงประกาศมาเพื่อทราบโดยทั่วกัน"@,
                    ],
                ),
            );
            let o = put(o, "date"@, "1 มกราคม 2569"@);
            let o = put(o, "signer_name"@, name);
            put(o, "signer_position"@, position)
        },
    }
}

/// The kind of document that a prompt asks for.
pub fn requested_doc_type(prompt: &str) -> (r: DocType)
    ensures
        r == requested_type(prompt@),
{
    let list = lines(prompt);
    let ghost all = texts(list@);
    let empty = String::new();
    let line: &str = if list.len() == 0 {
        assert(empty@ =~= Seq::<char>::empty());
        empty.as_str()
    } else {
        assert(all[0] == list@[0]@);
        list[0].as_str()
    };
    if contains(line, "ภายใน") {
        DocType::Internal
    } else if contains(line, "คำสั่ง") {
        DocType::Order
    } else if contains(line, "ประกาศ") {
        DocType::Announcement
    } else {
        DocType::External
    }
}

/// A body of two paragraphs.
fn two_paragraphs(first: String, second: &str) -> (r: Json)
    ensures
        r@ == text_array(seq![first@, second@]),
{
    let mut list: Vec<String> = Vec::new();
    push_text(&mut list, first);
    push_text(&mut list, second.to_owned());
    assert(texts(list@) =~= seq![first@, second@]);
    Json::texts(&list)
}

/// The document that is written for a prompt.
pub fn fake_document_from_prompt(prompt: &str) -> (r: Json)
    ensures
        r@ == fake_document(prompt@),
{
    let subject = extract_or(prompt, "เรื่อง", "เรื่องทดสอบ");
    let recipient = extract_or(prompt, "ผู้รับ", "ผู้เกี่ยวข้อง");
    let name = extract_or(prompt, "ผู้ลงนาม", "ผู้ลงนาม");
    let position = extract_or(prompt, "ตำแหน่ง", "ตำแหน่ง");
    let purpose = extract_or(prompt, "จุดประสงค์", "แจ้งเพื่อทราบ");
    let mut o = Json::object();
    match requested_doc_type(prompt) {
        DocType::External => {
            o.insert("doc_type", Json::text("ภายนอก"));
            o.insert("number", Json::text("ศธ 0000/0001"));
            o.insert("agency", Json::text("หน่วยงานตัวอย่าง"));
            o.insert("date", Json::text("1 มกราคม 2569"));
            o.insert("subject", Json::Text(subject));
            o.insert("recipient", Json::Text(recipient));
            o.insert("salutation", Json::text(""));
            o.insert("reference", empty_array());
            o.insert("enclosure", empty_array());
            o.insert(
                "body",
                two_paragraphs(
                    cat2("ด้วยหน่วยงานตัวอย่างมีความประสงค์", purpose.as_str()),
                    "จึงเรียนมาเพื่อโปรดพิจารณา",
                ),
            );
            o.insert("closing", Json::text(""));
            o.insert("signer_name", Json::Text(name));
            o.insert("signer_position", Json::Text(position));
        },
        DocType::Internal => {
            o.insert("doc_type", Json::text("ภายใน"));
            o.insert("agency", Json::text("หน่วยงานตัวอย่าง"));
            o.insert("reference_number", Json::text("ศธ 0000/0001"));
            o.insert("date", Json::text("1 มกราคม 2569"));
            o.insert("subject", Json::Text(subject));
            o.insert("recipient", Json::Text(recipient));
            o.insert("salutation", Json::text(""));
            o.insert(
                "body",
                two_paragraphs(
                    cat2("ตามที่มีภารกิจเกี่ยวกับ", purpose.as_str()),
                    "จึงเรียนมาเพื่อโปรดทราบ",
                ),
            );
            o.insert("closing", Json::text(""));
            o.insert("signer_name", Json::Text(name));
            o.insert("signer_position", Json::Text(position));
        },
        DocType::Order => {
            o.insert("doc_type", Json::text("คำสั่ง"));
            o.insert("number", Json::text("1/2569"));
            o.insert("title", Json::Text(subject));
            o.insert(
                "body",
                two_paragraphs(
                    cat3("เพื่อให้การดำเนินงาน", purpose.as_str(), "เป็นไปด้วยความเรียบร้อย"),
                    "จึงมีคำสั่งให้ผู้เกี่ยวข้องดำเนินการตามหน้าที่",
                ),
            );
            o.insert("date", Json::text("1 มกราคม 2569"));
            o.insert("signer_name", Json::Text(name));
            o.insert("signer_position", Json::Text(position));
        },
        DocType::Announcement => {
            o.insert("doc_type", Json::text("ประกาศ"));
            o.insert("number", Json::text("1/2569"));
            o.insert("title", Json::Text(subject));
            o.insert(
                "body",
                two_paragraphs(
                    cat2("หน่วยงานตัวอย่างขอประกาศให้ทราบเกี่ยวกับ", purpose.as_str()),
                    "จึงประกาศมาเพื่อทราบโดยทั่วกัน",
                ),
            );
            o.insert("date", Json::text("1 มกราคม 2569"));
            o.insert("signer_name", Json::Text(name));
            o.insert("signer_position", Json::Text(position));
        },
    }
    o
}

/// The array without items.
fn empty_array() -> (r: Json)
    ensures
        r@ == JsonView::Array(Seq::empty()),
{
    let r = Json::Array(Vec::new());
    assert(r@->Array_0 =~= Seq::empty());
    r
}

/// A line marked as edited.
pub open spec fn marked(line: Seq<char>, instructions: Seq<char>) -> Seq<char> {
    line + " (แก้ไข: "@ + instructions + ")"@
}

/// The lines, all marked as edited.
pub open spec fn all_marked(list: Seq<Seq<char>>, instructions: Seq<char>) -> Seq<Seq<char>> {
    Seq::new(list.len(), |i: int| marked(list[i], instructions))
}

/// The answer to an edit prompt: every line marked where the prompt asks for a
/// list, else the first line marked.
pub open spec fn fake_edit(prompt: Seq<char>) -> Seq<char> {
    let instructions = value_or(prompt, "คำสั่งแก้ไข"@, "แก้ไข"@);
    let list = editable(prompt);
    if has_text(prompt, "แต่ละบรรทัดคือ 1 ย่อหน้า"@) {
        joined(all_marked(list, instructions), "\n"@)
    } else if list.len() > 0 {
        marked(list[0], instructions)
    } else {
        "แก้ไขแล้ว: "@ + instructions
    }
}

/// The answer to an edit prompt.
pub fn fake_edit_from_prompt(prompt: &str) -> (r: String)
    ensures
        r@ == fake_edit(prompt@),
{
    let instructions = extract_or(prompt, "คำสั่งแก้ไข", "แก้ไข");
    let list = editable_lines(prompt);
    let ghost all = all_marked(texts(list@), instructions@);
    if contains(prompt, "แต่ละบรรทัดคือ 1 ย่อหน้า") {
        let mut out: Vec<String> = Vec::new();
        assert(texts(out@) =~= all.take(0));
        let mut i: usize = 0;
        while i < list.len()
            invariant
                i <= list@.len(),
                all == all_marked(texts(list@), instructions@),
                texts(out@) == all.take(i as int),
            decreases list@.len() - i,
        {
            push_text(&mut out, cat4(list[i].as_str(), " (แก้ไข: ", instructions.as_str(), ")"));
            assert(texts(out@) =~= all.take(i as int + 1));
            i += 1;
        }
        assert(all.take(all.len() as int) =~= all);
        return join(&out, "\n");
    }
    if list.len() > 0 {
        assert(texts(list@)[0] == list@[0]@);
        return cat4(list[0].as_str(), " (แก้ไข: ", instructions.as_str(), ")");
    }
    cat2("แก้ไขแล้ว: ", instructions.as_str())
}

/// The answer to a question that is to be answered with text.
pub open spec fn fake_text(system: Seq<char>, user: Seq<char>) -> Seq<char> {
    if has_text(system, "แก้ไขหนังสือราชการไทย"@) {
        fake_edit(user)
    } else {
        user
    }
}

/// The answer to a question that is to be answered with JSON: a review that
/// passes, or a document.
pub open spec fn fake_json(system: Seq<char>, user: Seq<char>) -> JsonView {
    if has_text(system, "ผู้ตรวจสอบ"@) {
        empty_object().with("passed"@, JsonView::Bool(true)).with(
            "issues"@,
            JsonView::Array(Seq::empty()),
        ).with("suggestions"@, JsonView::Array(Seq::empty()))
    } else {
        fake_document(user)
    }
}

impl FakeLlmProvider {
    /// Answers with text.
    pub fn complete(&self, system: &str, user: &str) -> (r: String)
        ensures
            r@ == fake_text(system@, user@),
    {
        if contains(system, "แก้ไขหนังสือราชการไทย") {
            return fake_edit_from_prompt(user);
        }
        user.to_owned()
    }

    /// Answers with JSON.
    pub fn complete_json(&self, system: &str, user: &str) -> (r: Json)
        ensures
            r@ == fake_json(system@, user@),
    {
        if contains(system, "ผู้ตรวจสอบ") {
            return Json::object().with("passed", Json::Bool(true)).with(
                "issues",
                empty_array(),
            ).with("suggestions", empty_array());
        }
        fake_document_from_prompt(user)
    }
}

impl FakeEmbeddingProvider {
    /// The width of the vectors.
    pub fn dimensions(&self) -> (r: usize)
        ensures
            r == FAKE_DIMENSIONS,
    {
        FAKE_DIMENSIONS
    }
}

/// The names of the fields differ.
proof fn lemma_field_names_differ()
    ensures
        "doc_type"@ != "number"@,
        "doc_type"@ != "agency"@,
        "doc_type"@ != "date"@,
        "doc_type"@ != "subject"@,
        "doc_type"@ != "recipient"@,
        "doc_type"@ != "salutation"@,
        "doc_type"@ != "reference"@,
        "doc_type"@ != "enclosure"@,
        "doc_type"@ != "body"@,
        "doc_type"@ != "closing"@,
        "doc_type"@ != "signer_name"@,
        "doc_type"@ != "signer_position"@,
        "doc_type"@ != "reference_number"@,
        "doc_type"@ != "title"@,
        "recipient"@ != "number"@,
        "recipient"@ != "agency"@,
        "recipient"@ != "date"@,
        "recipient"@ != "subject"@,
        "recipient"@ != "salutation"@,
        "recipient"@ != "reference"@,
        "recipient"@ != "enclosure"@,
        "recipient"@ != "body"@,
        "recipient"@ != "closing"@,
        "recipient"@ != "signer_name"@,
        "recipient"@ != "signer_position"@,
        "recipient"@ != "reference_number"@,
        "recipient"@ != "title"@,
        "signer_name"@ != "number"@,
        "signer_name"@ != "agency"@,
        "signer_name"@ != "date"@,
        "signer_name"@ != "subject"@,
        "signer_name"@ != "salutation"@,
        "signer_name"@ != "reference"@,
        "signer_name"@ != "enclosure"@,
        "signer_name"@ != "body"@,
        "signer_name"@ != "closing"@,
        "signer_name"@ != "signer_position"@,
        "signer_name"@ != "reference_number"@,
        "signer_name"@ != "title"@,
        "signer_position"@ != "number"@,
        "signer_position"@ != "agency"@,
        "signer_position"@ != "date"@,
        "signer_position"@ != "subject"@,
        "signer_position"@ != "salutation"@,
        "signer_position"@ != "reference"@,
        "signer_position"@ != "enclosure"@,
        "signer_position"@ != "body"@,
        "signer_position"@ != "closing"@,
        "signer_position"@ != "reference_number"@,
        "signer_position"@ != "title"@,
        "subject"@ != "number"@,
        "subject"@ != "agency"@,
        "subject"@ != "date"@,
        "subject"@ != "salutation"@,
        "subject"@ != "reference"@,
        "subject"@ != "enclosure"@,
        "subject"@ != "body"@,
        "subject"@ != "closing"@,
        "subject"@ != "reference_number"@,
        "subject"@ != "title"@,
        "title"@ != "number"@,
        "title"@ != "agency"@,
        "title"@ != "date"@,
        "title"@ != "salutation"@,
        "title"@ != "reference"@,
        "title"@ != "enclosure"@,
        "title"@ != "body"@,
        "title"@ != "closing"@,
        "title"@ != "reference_number"@,
        "body"@ != "number"@,
        "body"@ != "agency"@,
        "body"@ != "date"@,
        "body"@ != "salutation"@,
        "body"@ != "reference"@,
        "body"@ != "enclosure"@,
        "body"@ != "closing"@,
        "body"@ != "reference_number"@,
{
    reveal_strlit("doc_type");
    reveal_strlit("number");
    reveal_strlit("agency");
    reveal_strlit("date");
    reveal_strlit("subject");
    reveal_strlit("recipient");
    reveal_strlit("salutation");
    reveal_strlit("reference");
    reveal_strlit("enclosure");
    reveal_strlit("body");
    reveal_strlit("closing");
    reveal_strlit("signer_name");
    reveal_strlit("signer_position");
    reveal_strlit("reference_number");
    reveal_strlit("title");
    assert("doc_type"@.len() != "number"@.len());
    assert("doc_type"@.len() != "agency"@.len());
    assert("doc_type"@.len() != "date"@.len());
    assert("doc_type"@.len() != "subject"@.len());
    assert("doc_type"@.len() != "recipient"@.len());
    assert("doc_type"@.len() != "salutation"@.len());
    assert("doc_type"@.len() != "reference"@.len());
    assert("doc_type"@.len() != "enclosure"@.len());
    assert("doc_type"@.len() != "body"@.len());
    assert("doc_type"@.len() != "closing"@.len());
    assert("doc_type"@.len() != "signer_name"@.len());
    assert("doc_type"@.len() != "signer_position"@.len());
    assert("doc_type"@.len() != "reference_number"@.len());
    assert("doc_type"@.len() != "title"@.len());
    assert("recipient"@.len() != "number"@.len());
    assert("recipient"@.len() != "agency"@.len());
    assert("recipient"@.len() != "date"@.len());
    assert("recipient"@.len() != "subject"@.len());
    assert("recipient"@.len() != "salutation"@.len());
    assert("recipient"@[2] != "reference"@[2]);
    assert("recipient"@[0] != "enclosure"@[0]);
    assert("recipient"@.len() != "body"@.len());
    assert("recipient"@.len() != "closing"@.len());
    assert("recipient"@.len() != "signer_name"@.len());
    assert("recipient"@.len() != "signer_position"@.len());
    assert("recipient"@.len() != "reference_number"@.len());
    assert("recipient"@.len() != "title"@.len());
    assert("signer_name"@.len() != "number"@.len());
    assert("signer_name"@.len() != "agency"@.len());
    assert("signer_name"@.len() != "date"@.len());
    assert("signer_name"@.len() != "subject"@.len());
    assert("signer_name"@.len() != "salutation"@.len());
    assert("signer_name"@.len() != "reference"@.len());
    assert("signer_name"@.len() != "enclosure"@.len());
    assert("signer_name"@.len() != "body"@.len());
    assert("signer_name"@.len() != "closing"@.len());
    assert("signer_name"@.len() != "signer_position"@.len());
    assert("signer_name"@.len() != "reference_number"@.len());
    assert("signer_name"@.len() != "title"@.len());
    assert("signer_position"@.len() != "number"@.len());
    assert("signer_position"@.len() != "agency"@.len());
    assert("signer_position"@.len() != "date"@.len());
    assert("signer_position"@.len() != "subject"@.len());
    assert("signer_position"@.len() != "salutation"@.len());
    assert("signer_position"@.len() != "reference"@.len());
    assert("signer_position"@.len() != "enclosure"@.len());
    assert("signer_position"@.len() != "body"@.len());
    assert("signer_position"@.len() != "closing"@.len());
    assert("signer_position"@.len() != "reference_number"@.len());
    assert("signer_position"@.len() != "title"@.len());
    assert("subject"@.len() != "number"@.len());
    assert("subject"@.len() != "agency"@.len());
    assert("subject"@.len() != "date"@.len());
    assert("subject"@.len() != "salutation"@.len());
    assert("subject"@.len() != "reference"@.len());
    assert("subject"@.len() != "enclosure"@.len());
    assert("subject"@.len() != "body"@.len());
    assert("subject"@[0] != "closing"@[0]);
    assert("subject"@.len() != "reference_number"@.len());
    assert("subject"@.len() != "title"@.len());
    assert("title"@.len() != "number"@.len());
    assert("title"@.len() != "agency"@.len());
    assert("title"@.len() != "date"@.len());
    assert("title"@.len() != "salutation"@.len());
    assert("title"@.len() != "reference"@.len());
    assert("title"@.len() != "enclosure"@.len());
    assert("title"@.len() != "body"@.len());
    assert("title"@.len() != "closing"@.len());
    assert("title"@.len() != "reference_number"@.len());
    assert("body"@.len() != "number"@.len());
    assert("body"@.len() != "agency"@.len());
    assert("body"@[0] != "date"@[0]);
    assert("body"@.len() != "salutation"@.len());
    assert("body"@.len() != "reference"@.len());
    assert("body"@.len() != "enclosure"@.len());
    assert("body"@.len() != "closing"@.len());
    assert("body"@.len() != "reference_number"@.len());
}

/// What a document by rule takes from its prompt.
pub proof fn lemma_document_by_rule(prompt: Seq<char>)
    ensures
        ({
            let doc = fake_document(prompt);
            let kind = requested_type(prompt);
            &&& doc is Object
            &&& doc.member("doc_type"@) == Some(JsonView::Text(kind.thai()))
            &&& kind.is_letter() ==> doc.member("recipient"@) == Some(
                JsonView::Text(value_or(prompt, "ผู้รับ"@, "ผู้เกี่ยวข้อง"@)),
            )
            &&& doc.member(
                if kind.is_letter() {
                    "subject"@
                } else {
                    "title"@
                },
            ) == Some(JsonView::Text(value_or(prompt, "เรื่อง"@, "เรื่องทดสอบ"@)))
            &&& doc.member("signer_name"@) == Some(
                JsonView::Text(value_or(prompt, "ผู้ลงนาม"@, "ผู้ลงนาม"@)),
            )
            &&& doc.member("signer_position"@) == Some(
                JsonView::Text(value_or(prompt, "ตำแหน่ง"@, "ตำแหน่ง"@)),
            )
            &&& doc.member("body"@) matches Some(JsonView::Array(items)) && items.len() == 2
                && (items[0] matches JsonView::Text(first) && has_text(
                first,
                value_or(prompt, "จุดประสงค์"@, "แจ้งเพื่อทราบ"@),
            ))
        }),
{
    lemma_field_names_differ();
    let purpose = value_or(prompt, "จุดประสงค์"@, "แจ้งเพื่อทราบ"@);
    let none = Seq::<char>::empty();
    let a = "ด้วยหน่วยงานตัวอย่างมีความประสงค์"@;
    let b = "ตามที่มีภารกิจเกี่ยวกับ"@;
    let c = "เพื่อให้การดำเนินงาน"@;
    let d = "หน่วยงานตัวอย่างขอประกาศให้ทราบเกี่ยวกับ"@;
    lemma_stands_between(a, purpose, none);
    lemma_stands_between(b, purpose, none);
    lemma_stands_between(c, purpose, "เป็นไปด้วยความเรียบร้อย"@);
    lemma_stands_between(d, purpose, none);
    assert(a + purpose + none =~= a + purpose);
    assert(b + purpose + none =~= b + purpose);
    assert(d + purpose + none =~= d + purpose);
}

/// The model that answers by rule takes the question for a draft as one for a
/// document.
pub proof fn lemma_drafts_by_rule(user: Seq<char>)
    ensures
        fake_json(GENERATOR_SYSTEM_PROMPT@, user) == fake_document(user),
{
    reveal_strlit(
        "คุณคือผู้ช่วยสร้างหนังสือราชการไทย\nสร้าง JSON ตาม schema ที่กำหนดให้เท่านั้น\nเนื้อหาต้องถูกต้องตามระเบียบงานสารบรรณ\nใช้ภาษาไทยที่ถูกต้อง เป็นทางการ",
    );
    reveal_strlit("ผู้ตรวจสอบ");
    assert("ผู้ตรวจสอบ"@[6] == 'จ');
    lemma_lacks(GENERATOR_SYSTEM_PROMPT@, "ผู้ตรวจสอบ"@, 6);
}

} // verus!
