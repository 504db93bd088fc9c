//! Editing fields of a document: the language model is asked about each target
//! field in turn, and only those fields change.
//!
//! The run is a machine without input or output of its own: each state holds
//! the question to be asked next.
use vstd::prelude::*;

use crate::generation::Failed;
use crate::json::string_items;
use crate::json::strings_of;
use crate::json::text_array;
use crate::json::Json;
use crate::json::JsonView;
use crate::mock::all_marked;
use crate::mock::editable;
use crate::mock::fake_edit;
use crate::mock::fake_text;
use crate::mock::lemma_first_value_found;
use crate::mock::lemma_first_value_skips;
use crate::mock::lemma_lines_before;
use crate::mock::prompt_value;
use crate::text::begins_with;
use crate::text::cat2;
use crate::text::cat3;
use crate::text::has_text;
use crate::text::is_space;
use crate::text::join;
use crate::text::joined;
use crate::text::lemma_assoc;
use crate::text::lemma_begins_otherwise;
use crate::text::lemma_begins_with_concat;
use crate::text::lemma_cancel;
use crate::text::lemma_end_stands;
use crate::text::lemma_ended_lines;
use crate::text::lemma_joined_holds;
use crate::text::lemma_lines_concat;
use crate::text::lemma_lines_front;
use crate::text::lemma_lines_joined;
use crate::text::lemma_nonblank_concat;
use crate::text::lemma_nonblank_ended;
use crate::text::lemma_nonblank_plain;
use crate::text::lemma_one_line_concat;
use crate::text::lemma_single_line;
use crate::text::lemma_stands_between;
use crate::text::lemma_still_holds;
use crate::text::lemma_trimmed_around;
use crate::text::lemma_trimmed_plain;
use crate::text::lines_of;
use crate::text::matches_at;
use crate::text::nonblank;
use crate::text::nonblank_lines;
use crate::text::one_line;
use crate::text::plain;
use crate::text::texts;
use crate::text::trim;
use crate::text::trimmed;

verus! {

/// What the model is told to be when it edits.
pub const EDITOR_SYSTEM_PROMPT: &'static str =
    "คุณคือผู้ช่วยแก้ไขหนังสือราชการไทย\nแก้ไขเฉพาะฟิลด์ที่ระบุตามคำสั่งเท่านั้น\nตอบกลับเฉพาะข้อความที่แก้แล้วเท่านั้น\nคงรูปแบบเดิมไว้ อย่าเปลี่ยนโครงสร้าง";

/// The most tokens an edited field may take.
pub const EDIT_TOKENS: usize = 4096;

/// Why an edit failed.
#[derive(Debug)]
pub enum EditError {
    MissingField(String),
    UnsupportedField(String),
    Llm(String),
}

/// Why an edit failed.
pub enum EditErrorView {
    MissingField(Seq<char>),
    UnsupportedField(Seq<char>),
    Llm(Seq<char>),
}

impl EditErrorView {
    /// What is said of the failure.
    pub open spec fn message(self) -> Seq<char> {
        match self {
            EditErrorView::MissingField(f) => "Document has no field '"@ + f + "'"@,
            EditErrorView::UnsupportedField(f) => "Unsupported field type for '"@ + f + "'"@,
            EditErrorView::Llm(e) => "LLM error: "@ + e,
        }
    }
}

impl EditError {
    pub open spec fn view(&self) -> EditErrorView {
        match self {
            EditError::MissingField(f) => EditErrorView::MissingField(f@),
            EditError::UnsupportedField(f) => EditErrorView::UnsupportedField(f@),
            EditError::Llm(e) => EditErrorView::Llm(e@),
        }
    }

    /// What is said of the failure.
    pub fn message(&self) -> (r: String)
        ensures
            r@ == self@.message(),
    {
        match self {
            EditError::MissingField(f) => cat3("Document has no field '", f.as_str(), "'"),
            EditError::UnsupportedField(f) => cat3("Unsupported field type for '", f.as_str(), "'"),
            EditError::Llm(e) => cat2("LLM error: ", e.as_str()),
        }
    }
}

// ---------------------------------------------------------------------------
// Prompts
// ---------------------------------------------------------------------------

/// What is asked about a field, up to the last line.
pub open spec fn edit_question(
    field: Seq<char>,
    value: Seq<char>,
    instructions: Seq<char>,
) -> Seq<char> {
    "แก้ไขฟิลด์ '"@ + field + "' ต่อไปนี้ตามคำสั่ง:\n"@ + value + "\n\nคำสั่งแก้ไข: "@ + instructions
}

/// What is asked about a field that is a string.
pub open spec fn scalar_prompt(
    field: Seq<char>,
    value: Seq<char>,
    instructions: Seq<char>,
) -> Seq<char> {
    edit_question(field, value, instructions) + "\n\nตอบเฉพาะข้อความที่แก้แล้วเท่านั้น"@
}

/// What is asked about a field that is a list of paragraphs.
pub open spec fn list_prompt(
    field: Seq<char>,
    paragraphs: Seq<Seq<char>>,
    instructions: Seq<char>,
) -> Seq<char> {
    edit_question(field, joined(paragraphs, "\n"@), instructions)
        + "\n\nตอบเฉพาะข้อความที่แก้แล้วเท่านั้น แต่ละบรรทัดคือ 1 ย่อหน้า"@
}

/// What is asked about a field, up to the last line.
fn build_question(field: &str, value: &str, instructions: &str) -> (r: String)
    ensures
        r@ == edit_question(field@, value@, instructions@),
{
    let mut s = cat3("แก้ไขฟิลด์ '", field, "' ต่อไปนี้ตามคำสั่ง:\n");
    s.append(value);
    s.append("\n\nคำสั่งแก้ไข: ");
    s.append(instructions);
    s
}

/// What is asked about a field that is a string.
pub fn build_scalar_prompt(field: &str, value: &str, instructions: &str) -> (r: String)
    ensures
        r@ == scalar_prompt(field@, value@, instructions@),
{
    cat2(
        build_question(field, value, instructions).as_str(),
        "\n\nตอบเฉพาะข้อความที่แก้แล้วเท่านั้น",
    )
}

/// What is asked about a field that is a list of paragraphs.
pub fn build_list_prompt(field: &str, paragraphs: &Vec<String>, instructions: &str) -> (r: String)
    ensures
        r@ == list_prompt(field@, texts(paragraphs@), instructions@),
{
    let value = join(paragraphs, "\n");
    cat2(
        build_question(field, value.as_str(), instructions).as_str(),
        "\n\nตอบเฉพาะข้อความที่แก้แล้วเท่านั้น แต่ละบรรทัดคือ 1 ย่อหน้า",
    )
}

// ---------------------------------------------------------------------------
// The run
// ---------------------------------------------------------------------------

/// The run waits for the edited text of a field.
#[derive(Debug)]
pub struct FieldPending {
    pub doc: Json,
    pub instructions: String,
    /// The field in question.
    pub field: String,
    /// Whether the field is a list of paragraphs.
    pub list: bool,
    /// The fields that come after it.
    pub rest: Vec<String>,
    pub prompt: String,
}

/// The state of an edit.
#[derive(Debug)]
pub enum Edit {
    Ask(FieldPending),
    Done(Json),
    Failed(EditError),
}

/// What the state of an edit is.
pub enum EditView {
    Ask {
        doc: JsonView,
        instructions: Seq<char>,
        field: Seq<char>,
        list: bool,
        rest: Seq<Seq<char>>,
        prompt: Seq<char>,
    },
    Done(JsonView),
    Failed(EditErrorView),
}

impl Edit {
    pub open spec fn view(&self) -> EditView {
        match self {
            Edit::Ask(s) => EditView::Ask {
                doc: s.doc@,
                instructions: s.instructions@,
                field: s.field@,
                list: s.list,
                rest: texts(s.rest@),
                prompt: s.prompt@,
            },
            Edit::Done(doc) => EditView::Done(doc@),
            Edit::Failed(e) => EditView::Failed(e@),
        }
    }
}

/// The state of an edit that is still to change `fields`: the first of them is
/// asked about if it is there and is a string or a list.
pub open spec fn resumed(
    doc: JsonView,
    instructions: Seq<char>,
    fields: Seq<Seq<char>>,
) -> EditView {
    if fields.len() == 0 {
        EditView::Done(doc)
    } else {
        let field = fields[0];
        let rest = fields.drop_first();
        match doc.member(field) {
            Some(JsonView::Text(value)) => EditView::Ask {
                doc,
                instructions,
                field,
                list: false,
                rest,
                prompt: scalar_prompt(field, value, instructions),
            },
            Some(JsonView::Array(items)) => EditView::Ask {
                doc,
                instructions,
                field,
                list: true,
                rest,
                prompt: list_prompt(field, string_items(items), instructions),
            },
            Some(_) => EditView::Failed(EditErrorView::UnsupportedField(field)),
            None => EditView::Failed(EditErrorView::MissingField(field)),
        }
    }
}

/// The value that an answer gives a field: its text without the white space
/// around it, or its lines that are not blank.
pub open spec fn edited_value(list: bool, answer: Seq<char>) -> JsonView {
    if list {
        text_array(nonblank(lines_of(answer)))
    } else {
        JsonView::Text(trimmed(answer))
    }
}

/// Goes to the first of `fields`.
fn resume(doc: Json, instructions: String, fields: Vec<String>) -> (r: Edit)
    ensures
        r@ == resumed(doc@, instructions@, texts(fields@)),
{
    let mut rest = fields;
    if rest.len() == 0 {
        return Edit::Done(doc);
    }
    let field = rest.remove(0);
    assert(texts(rest@) =~= texts(fields@).drop_first());
    let (list, prompt) = match doc.get(field.as_str()) {
        None => {
            return Edit::Failed(EditError::MissingField(field));
        },
        Some(Json::Text(value)) => (
            false,
            build_scalar_prompt(field.as_str(), value.as_str(), instructions.as_str()),
        ),
        Some(Json::Array(items)) => {
            let paragraphs = strings_of(items);
            (true, build_list_prompt(field.as_str(), &paragraphs, instructions.as_str()))
        },
        Some(_) => {
            return Edit::Failed(EditError::UnsupportedField(field));
        },
    };
    Edit::Ask(FieldPending { doc, instructions, field, list, rest, prompt })
}

/// The state in which an edit begins.
pub open spec fn edit_started(
    doc: JsonView,
    instructions: Seq<char>,
    fields: Seq<Seq<char>>,
) -> EditView {
    if doc is Object {
        resumed(doc, instructions, fields)
    } else {
        EditView::Failed(EditErrorView::UnsupportedField("<root>"@))
    }
}

/// Begins to edit the target fields of a document.
pub fn edit_document_json(doc: Json, edit_instructions: &str, target_fields: &Vec<String>) -> (r:
    Edit)
    ensures
        r@ == edit_started(doc@, edit_instructions@, texts(target_fields@)),
{
    if !doc.is_object() {
        return Edit::Failed(EditError::UnsupportedField("<root>".to_owned()));
    }
    resume(doc, edit_instructions.to_owned(), crate::text::copy_texts(target_fields))
}

impl FieldPending {
    /// Goes on with the answer to the question, or with the reason why there
    /// is none.
    pub fn answered(self, reply: Result<String, String>) -> (r: Edit)
        ensures
            match reply {
                Ok(answer) => r@ == resumed(
                    self.doc@.with(self.field@, edited_value(self.list, answer@)),
                    self.instructions@,
                    texts(self.rest@),
                ),
                Err(e) => r@ == EditView::Failed(EditErrorView::Llm(e@)),
            },
    {
        let answer = match reply {
            Ok(answer) => answer,
            Err(e) => {
                return Edit::Failed(EditError::Llm(e));
            },
        };
        let value = if self.list {
            Json::texts(&nonblank_lines(answer.as_str()))
        } else {
            Json::Text(trim(answer.as_str()))
        };
        let mut doc = self.doc;
        doc.insert(self.field.as_str(), value);
        resume(doc, self.instructions, self.rest)
    }
}

// ---------------------------------------------------------------------------
// Whole edits
// ---------------------------------------------------------------------------

/// How an edit of `fields` ends when the questions are answered by
/// `replies`.
pub open spec fn concluded(
    doc: JsonView,
    instructions: Seq<char>,
    fields: Seq<Seq<char>>,
    replies: spec_fn(Seq<char>) -> Result<Seq<char>, Seq<char>>,
) -> EditView
    decreases fields.len(),
{
    match resumed(doc, instructions, fields) {
        EditView::Ask { doc: now, instructions: i, field, list, rest, prompt } => {
            if fields.len() == 0 {
                EditView::Done(doc)
            } else {
                match replies(prompt) {
                    Ok(answer) => concluded(
                        doc.with(fields[0], edited_value(list, answer)),
                        instructions,
                        fields.drop_first(),
                        replies,
                    ),
                    Err(e) => EditView::Failed(EditErrorView::Llm(e)),
                }
            }
        },
        end => end,
    }
}

/// An edit changes its target fields and nothing else: every other field is
/// what it was, no field is added and none is lost.
pub proof fn law_edit_keeps_other_fields(
    doc: JsonView,
    instructions: Seq<char>,
    fields: Seq<Seq<char>>,
    replies: spec_fn(Seq<char>) -> Result<Seq<char>, Seq<char>>,
    field: Seq<char>,
)
    requires
        doc is Object,
    ensures
        concluded(doc, instructions, fields, replies) matches EditView::Done(edited) ==> {
            &&& edited is Object
            &&& !fields.contains(field) ==> edited.member(field) == doc.member(field)
            &&& edited.member(field) is Some <==> doc.member(field) is Some
        },
    decreases fields.len(),
{
    match resumed(doc, instructions, fields) {
        EditView::Ask { doc: now, instructions: i, field: f, list, rest, prompt } => {
            match replies(prompt) {
                Ok(answer) => {
                    let next = doc.with(fields[0], edited_value(list, answer));
                    law_edit_keeps_other_fields(
                        next,
                        instructions,
                        fields.drop_first(),
                        replies,
                        field,
                    );
                    assert(fields.contains(fields[0]));
                    if fields.drop_first().contains(field) {
                        let j = choose|j: int|
                            0 <= j < fields.drop_first().len() && fields.drop_first()[j] == field;
                        assert(fields[j + 1] == field);
                    }
                },
                Err(e) => {},
            }
        },
        _ => {},
    }
}

/// An edit whose target fields are all there, and are strings or lists, ends
/// with an edited document when all its questions are answered.
pub proof fn law_edit_of_present_fields_succeeds(
    doc: JsonView,
    instructions: Seq<char>,
    fields: Seq<Seq<char>>,
    replies: spec_fn(Seq<char>) -> Result<Seq<char>, Seq<char>>,
)
    requires
        doc is Object,
        forall|i: int|
            0 <= i < fields.len() ==> {
                let value = doc.member(#[trigger] fields[i]);
                value is Some && (value->0 is Text || value->0 is Array)
            },
        forall|prompt: Seq<char>| (#[trigger] replies(prompt)) is Ok,
    ensures
        concluded(doc, instructions, fields, replies) is Done,
    decreases fields.len(),
{
    if fields.len() > 0 {
        match resumed(doc, instructions, fields) {
            EditView::Ask { doc: now, instructions: i, field: f, list, rest, prompt } => {
                let answer = replies(prompt)->Ok_0;
                let next = doc.with(fields[0], edited_value(list, answer));
                let left = fields.drop_first();
                assert forall|i: int| 0 <= i < left.len() implies {
                    let value = next.member(#[trigger] left[i]);
                    value is Some && (value->0 is Text || value->0 is Array)
                } by {
                    assert(left[i] == fields[i + 1]);
                }
                law_edit_of_present_fields_succeeds(next, instructions, left, replies);
            },
            _ => {
                assert(doc.member(fields[0]) is Some);
            },
        }
    }
}

// ---------------------------------------------------------------------------
// What a question tells the model
// ---------------------------------------------------------------------------

/// Whether no line of a text begins with the label of the instructions.
pub open spec fn unlabelled(text: Seq<char>) -> bool {
    forall|i: int|
        0 <= i < lines_of(text).len() ==> !begins_with(
            #[trigger] lines_of(text)[i],
            "คำสั่งแก้ไข:"@,
        )
}

/// The text of a field as it stands in a question: a string as it is, and the
/// strings of a list one to a line.
pub open spec fn present_value(value: JsonView) -> Option<Seq<char>> {
    match value {
        JsonView::Text(text) => Some(text),
        JsonView::Array(items) => Some(joined(string_items(items), "\n"@)),
        _ => None,
    }
}

/// Each string of a list is among its strings.
proof fn lemma_string_item(items: Seq<JsonView>, i: int) -> (k: int)
    requires
        0 <= i < items.len(),
        items[i] is Text,
    ensures
        0 <= k < string_items(items).len(),
        items[i] == JsonView::Text(string_items(items)[k]),
    decreases items.len(),
{
    let rest = string_items(items.drop_last());
    if i == items.len() - 1 {
        rest.len() as int
    } else {
        assert(items.drop_last()[i] == items[i]);
        let k = lemma_string_item(items.drop_last(), i);
        assert(string_items(items)[k] == rest[k]);
        k
    }
}

/// The lines of a question: the first, those of the value, an empty one, and the
/// instructions.
proof fn lemma_question_lines(
    field: Seq<char>,
    value: Seq<char>,
    instructions: Seq<char>,
    tail: Seq<char>,
) -> (first: Seq<char>)
    requires
        one_line(field),
        one_line(instructions),
    ensures
        begins_with(first, "แก้ไขฟิลด์ '"@),
        lines_of(edit_question(field, value, instructions) + seq!['\n'] + tail) == seq![first]
            + lines_of(value + seq!['\n']) + seq![
            Seq::<char>::empty(),
            "คำสั่งแก้ไข: "@ + instructions,
        ] + lines_of(tail),
{
    let feed = seq!['\n'];
    let none = Seq::<char>::empty();
    let first = "แก้ไขฟิลด์ '"@ + field + "' ต่อไปนี้ตามคำสั่ง:"@;
    let label = "คำสั่งแก้ไข: "@;
    let last = label + instructions;
    let s = edit_question(field, value, instructions) + feed + tail;
    lemma_question_texts();
    assert("' ต่อไปนี้ตามคำสั่ง:\n"@ == "' ต่อไปนี้ตามคำสั่ง:"@ + feed);
    assert("\n\nคำสั่งแก้ไข: "@ == feed + feed + label);
    let c = last + feed + tail;
    let b = none + feed + c;
    let a = value + feed + b;
    lemma_question_assembled(
        "แก้ไขฟิลด์ '"@,
        field,
        "' ต่อไปนี้ตามคำสั่ง:"@,
        value,
        label,
        instructions,
        tail,
    );
    assert(s == first + feed + a);
    lemma_one_line_concat("แก้ไขฟิลด์ '"@, field);
    lemma_one_line_concat("แก้ไขฟิลด์ '"@ + field, "' ต่อไปนี้ตามคำสั่ง:"@);
    lemma_one_line_concat(label, instructions);
    lemma_lines_front(first, a);
    lemma_lines_concat(value, b);
    lemma_lines_front(none, c);
    lemma_lines_front(last, tail);
    lemma_begins_with_concat("แก้ไขฟิลด์ '"@, field + "' ต่อไปนี้ตามคำสั่ง:"@);
    assert("แก้ไขฟิลด์ '"@ + (field + "' ต่อไปนี้ตามคำสั่ง:"@) =~= first);
    let v = lines_of(value + feed);
    let t = lines_of(tail);
    assert(seq![first] + (v + (seq![none] + (seq![last] + t))) =~= seq![first] + v + seq![
        none,
        last,
    ] + t);
    first
}

/// How a question is put together.
proof fn lemma_question_assembled(
    start: Seq<char>,
    field: Seq<char>,
    end: Seq<char>,
    value: Seq<char>,
    label: Seq<char>,
    instructions: Seq<char>,
    tail: Seq<char>,
)
    ensures
        start + field + (end + seq!['\n']) + value + (seq!['\n'] + seq!['\n'] + label)
            + instructions + seq!['\n'] + tail == (start + field + end) + seq!['\n'] + (value + seq![
            '\n',
        ] + (Seq::<char>::empty() + seq!['\n'] + (label + instructions + seq!['\n'] + tail))),
{
    assert(start + field + (end + seq!['\n']) + value + (seq!['\n'] + seq!['\n'] + label)
        + instructions + seq!['\n'] + tail =~= (start + field + end) + seq!['\n'] + (value + seq![
        '\n',
    ] + (Seq::<char>::empty() + seq!['\n'] + (label + instructions + seq!['\n'] + tail))));
}

/// The fixed texts of a question.
proof fn lemma_question_texts()
    ensures
        one_line("แก้ไขฟิลด์ '"@),
        one_line("' ต่อไปนี้ตามคำสั่ง:"@),
        one_line("คำสั่งแก้ไข: "@),
        "' ต่อไปนี้ตามคำสั่ง:\n"@ == "' ต่อไปนี้ตามคำสั่ง:"@ + seq!['\n'],
        "\n\nคำสั่งแก้ไข: "@ == seq!['\n'] + seq!['\n'] + "คำสั่งแก้ไข: "@,
        "คำสั่งแก้ไข"@ + ": "@ == "คำสั่งแก้ไข: "@,
        begins_with("คำสั่งแก้ไข: "@, "คำสั่งแก้ไข:"@),
        "คำสั่งแก้ไข:"@.len() > 0 && "คำสั่งแก้ไข:"@[0] == 'ค',
        "แก้ไขฟิลด์ '"@.len() > 0 && "แก้ไขฟิลด์ '"@[0] == 'แ',
{
    reveal_strlit("แก้ไขฟิลด์ '");
    reveal_strlit("' ต่อไปนี้ตามคำสั่ง:");
    reveal_strlit("' ต่อไปนี้ตามคำสั่ง:\n");
    reveal_strlit("คำสั่งแก้ไข: ");
    reveal_strlit("\n\nคำสั่งแก้ไข: ");
    reveal_strlit("คำสั่งแก้ไข:");
    reveal_strlit("คำสั่งแก้ไข");
    reveal_strlit(": ");
    assert("' ต่อไปนี้ตามคำสั่ง:\n"@ =~= "' ต่อไปนี้ตามคำสั่ง:"@ + seq!['\n']);
    assert("\n\nคำสั่งแก้ไข: "@ =~= seq!['\n'] + seq!['\n'] + "คำสั่งแก้ไข: "@);
    assert("คำสั่งแก้ไข"@ + ": "@ =~= "คำสั่งแก้ไข: "@);
    assert("คำสั่งแก้ไข: "@.subrange(0, "คำสั่งแก้ไข:"@.len() as int) =~= "คำสั่งแก้ไข:"@);
}

/// What is read from a question under the label of the instructions, and what is
/// read as the text to be edited.
proof fn lemma_question_read(
    field: Seq<char>,
    value: Seq<char>,
    instructions: Seq<char>,
    tail: Seq<char>,
)
    requires
        one_line(field),
        one_line(instructions),
        trimmed(instructions).len() > 0,
        unlabelled(value),
    ensures
        ({
            let prompt = edit_question(field, value, instructions) + seq!['\n'] + tail;
            &&& prompt_value(prompt, "คำสั่งแก้ไข"@) == Some(trimmed(instructions))
            &&& editable(prompt) == nonblank(lines_of(value))
        }),
{
    let prompt = edit_question(field, value, instructions) + seq!['\n'] + tail;
    let none = Seq::<char>::empty();
    let label = "คำสั่งแก้ไข: "@;
    let marker = "คำสั่งแก้ไข:"@;
    let first = lemma_question_lines(field, value, instructions, tail);
    let v = lines_of(value + seq!['\n']);
    let t = lines_of(tail);
    lemma_question_texts();
    lemma_ended_lines(value, marker);
    assert(first.subrange(0, "แก้ไขฟิลด์ '"@.len() as int)[0] == first[0]);
    assert(first[0] == 'แ');
    lemma_begins_otherwise(first, marker, 0);
    let passed = seq![first] + v + seq![none];
    let rest = seq![label + instructions] + t;
    assert(lines_of(prompt) =~= passed + rest);
    assert forall|i: int| 0 <= i < passed.len() implies !begins_with(#[trigger] passed[i], marker)
        && !begins_with(passed[i], label) by {
        if 0 < i <= v.len() {
            assert(passed[i] == v[i - 1]);
        }
        if begins_with(passed[i], label) {
            assert(passed[i].subrange(0, marker.len() as int) =~= passed[i].subrange(
                0,
                label.len() as int,
            ).subrange(0, marker.len() as int));
            assert(begins_with(passed[i], marker));
        }
    }
    lemma_first_value_skips(passed, rest, label);
    lemma_first_value_found(instructions, t, label);
    let body = lines_of(prompt).drop_first();
    let shown = v + seq![none];
    assert(body =~= shown + rest);
    assert forall|i: int| 0 <= i < shown.len() implies !begins_with(#[trigger] shown[i], marker) by {
        assert(shown[i] == passed[i + 1]);
    }
    lemma_begins_with_concat(label, instructions);
    assert((label + instructions).subrange(0, marker.len() as int) =~= label.subrange(
        0,
        marker.len() as int,
    ));
    lemma_lines_before(shown, rest, marker);
    lemma_nonblank_concat(v, seq![none]);
    assert(seq![none].drop_last() =~= Seq::<Seq<char>>::empty());
    assert(nonblank(seq![none]) =~= Seq::empty()) by {
        assert(nonblank(seq![none].drop_last()) =~= Seq::empty());
        assert(trimmed(none) =~= none);
    }
    lemma_nonblank_ended(value);
    assert(nonblank(shown) =~= nonblank(lines_of(value)));
}

/// What stands in a question.
proof fn lemma_question_shows(
    field: Seq<char>,
    text: Seq<char>,
    instructions: Seq<char>,
    tail: Seq<char>,
)
    ensures
        ({
            let prompt = edit_question(field, text, instructions) + seq!['\n'] + tail;
            &&& begins_with(prompt, "แก้ไขฟิลด์ '"@ + field + "'"@)
            &&& has_text(prompt, "\n"@ + text + "\n\nคำสั่งแก้ไข: "@ + instructions + "\n"@)
        }),
{
    let prompt = edit_question(field, text, instructions) + seq!['\n'] + tail;
    let opening = "แก้ไขฟิลด์ '"@ + field + "'"@;
    let behind = " ต่อไปนี้ตามคำสั่ง:"@;
    let shown = "\n"@ + text + "\n\nคำสั่งแก้ไข: "@ + instructions + "\n"@;
    lemma_question_pieces();
    assert(prompt =~= opening + behind + shown + tail);
    lemma_begins_with_concat(opening, behind + shown + tail);
    assert(opening + (behind + shown + tail) =~= prompt);
    lemma_stands_between(opening + behind, shown, tail);
}

/// What stands in the value of a question stands in the question.
proof fn lemma_question_keeps(
    field: Seq<char>,
    text: Seq<char>,
    instructions: Seq<char>,
    tail: Seq<char>,
    part: Seq<char>,
)
    requires
        has_text(text, part),
    ensures
        has_text(edit_question(field, text, instructions) + seq!['\n'] + tail, part),
{
    let prompt = edit_question(field, text, instructions) + seq!['\n'] + tail;
    let front = "แก้ไขฟิลด์ '"@ + field + "' ต่อไปนี้ตามคำสั่ง:\n"@;
    let back = "\n\nคำสั่งแก้ไข: "@ + instructions + seq!['\n'] + tail;
    assert(prompt =~= front + text + back);
    lemma_still_holds(front, text, back, part);
}

/// A question about a field tells the model which field it is, what its present
/// value is, and what is to be done with it, whether the field is a string or a
/// list: the instructions of the caller stand behind the value, each string of a
/// list is there, and instructions of one line are what is read under their
/// label.
pub proof fn law_question_holds_field_value_and_instructions(
    doc: JsonView,
    instructions: Seq<char>,
    fields: Seq<Seq<char>>,
    value: JsonView,
    text: Seq<char>,
)
    requires
        fields.len() > 0,
        doc.member(fields[0]) == Some(value),
        present_value(value) == Some(text),
    ensures
        resumed(doc, instructions, fields) matches EditView::Ask {
            doc: now,
            instructions: i,
            field,
            list,
            rest,
            prompt,
        } && {
            &&& field == fields[0]
            &&& list == (value is Array)
            &&& rest == fields.skip(1)
            &&& begins_with(prompt, "แก้ไขฟิลด์ '"@ + fields[0] + "'"@)
            &&& has_text(prompt, "\n"@ + text + "\n\nคำสั่งแก้ไข: "@ + instructions + "\n"@)
            &&& value matches JsonView::Array(items) ==> forall|k: int|
                0 <= k < items.len() && items[k] is Text ==> has_text(
                    prompt,
                    (#[trigger] items[k])->Text_0,
                )
            &&& one_line(fields[0]) && plain(instructions) && unlabelled(text) ==> prompt_value(
                prompt,
                "คำสั่งแก้ไข"@,
            ) == Some(instructions) && editable(prompt) == nonblank(lines_of(text))
        },
{
    let field = fields[0];
    assert(fields.drop_first() =~= fields.skip(1));
    let list = value is Array;
    let question = edit_question(field, text, instructions);
    let none = Seq::<char>::empty();
    let tail = if list {
        "\nตอบเฉพาะข้อความที่แก้แล้วเท่านั้น แต่ละบรรทัดคือ 1 ย่อหน้า"@
    } else {
        "\nตอบเฉพาะข้อความที่แก้แล้วเท่านั้น"@
    };
    let prompt = question + seq!['\n'] + tail;
    lemma_question_ends();
    assert(resumed(doc, instructions, fields) matches EditView::Ask {
        doc: now,
        instructions: i,
        field: f,
        list: l,
        rest,
        prompt: p,
    } && p == prompt) by {
        assert(question + (seq!['\n'] + tail) =~= prompt);
    }
    lemma_question_shows(field, text, instructions, tail);
    match value {
        JsonView::Array(items) => {
            assert forall|k: int| 0 <= k < items.len() && items[k] is Text implies has_text(
                prompt,
                (#[trigger] items[k])->Text_0,
            ) by {
                let at = lemma_string_item(items, k);
                lemma_joined_holds(string_items(items), "\n"@, at);
                lemma_question_keeps(field, text, instructions, tail, string_items(items)[at]);
            }
        },
        _ => {},
    }
    if one_line(field) && plain(instructions) && unlabelled(text) {
        lemma_trimmed_plain(instructions);
        lemma_question_read(field, text, instructions, tail);
    }
}

proof fn lemma_question_ends()
    ensures
        "\n\nตอบเฉพาะข้อความที่แก้แล้วเท่านั้น"@ == seq!['\n'] + "\nตอบเฉพาะข้อความที่แก้แล้วเท่านั้น"@,
        "\n\nตอบเฉพาะข้อความที่แก้แล้วเท่านั้น แต่ละบรรทัดคือ 1 ย่อหน้า"@ == seq!['\n']
            + "\nตอบเฉพาะข้อความที่แก้แล้วเท่านั้น แต่ละบรรทัดคือ 1 ย่อหน้า"@,
{
    reveal_strlit("\n\nตอบเฉพาะข้อความที่แก้แล้วเท่านั้น");
    reveal_strlit("\nตอบเฉพาะข้อความที่แก้แล้วเท่านั้น");
    reveal_strlit("\n\nตอบเฉพาะข้อความที่แก้แล้วเท่านั้น แต่ละบรรทัดคือ 1 ย่อหน้า");
    reveal_strlit("\nตอบเฉพาะข้อความที่แก้แล้วเท่านั้น แต่ละบรรทัดคือ 1 ย่อหน้า");
    assert("\n\nตอบเฉพาะข้อความที่แก้แล้วเท่านั้น"@ =~= seq!['\n']
        + "\nตอบเฉพาะข้อความที่แก้แล้วเท่านั้น"@);
    assert("\n\nตอบเฉพาะข้อความที่แก้แล้วเท่านั้น แต่ละบรรทัดคือ 1 ย่อหน้า"@ =~= seq!['\n']
        + "\nตอบเฉพาะข้อความที่แก้แล้วเท่านั้น แต่ละบรรทัดคือ 1 ย่อหน้า"@);
}

proof fn lemma_question_pieces()
    ensures
        "' ต่อไปนี้ตามคำสั่ง:\n"@ == "'"@ + " ต่อไปนี้ตามคำสั่ง:"@ + "\n"@,
        "\n"@ == seq!['\n'],
{
    reveal_strlit("' ต่อไปนี้ตามคำสั่ง:\n");
    reveal_strlit("'");
    reveal_strlit(" ต่อไปนี้ตามคำสั่ง:");
    reveal_strlit("\n");
    assert("' ต่อไปนี้ตามคำสั่ง:\n"@ =~= "'"@ + " ต่อไปนี้ตามคำสั่ง:"@ + "\n"@);
    assert("\n"@ =~= seq!['\n']);
}

/// Edits of a field that are asked for in different words ask different
/// questions; and so do edits of different values.
pub proof fn law_different_edits_ask_different_questions(
    one: JsonView,
    other: JsonView,
    first: Seq<char>,
    second: Seq<char>,
    fields: Seq<Seq<char>>,
    value: Seq<char>,
    changed: Seq<char>,
)
    requires
        fields.len() > 0,
        one.member(fields[0]) == Some(JsonView::Text(value)),
        other.member(fields[0]) == Some(JsonView::Text(changed)),
    ensures
        value == changed && first != second || value != changed && first == second ==> (resumed(
            one,
            first,
            fields,
        ) matches EditView::Ask {
            doc: d,
            instructions: i,
            field: f,
            list: l,
            rest: r,
            prompt: asked,
        } ==> resumed(other, second, fields) matches EditView::Ask {
            doc: d2,
            instructions: i2,
            field: f2,
            list: l2,
            rest: r2,
            prompt: asked_then,
        } ==> asked != asked_then),
{
    let field = fields[0];
    let a = "แก้ไขฟิลด์ '"@ + field + "' ต่อไปนี้ตามคำสั่ง:\n"@;
    let m = "\n\nคำสั่งแก้ไข: "@;
    let e = "\n\nตอบเฉพาะข้อความที่แก้แล้วเท่านั้น"@;
    let p = scalar_prompt(field, value, first);
    let q = scalar_prompt(field, changed, second);
    if p == q {
        if value == changed {
            lemma_cancel(a + value + m, first, second, e);
        }
        if first == second {
            assert(p =~= a + value + (m + first + e));
            assert(q =~= a + changed + (m + first + e));
            lemma_cancel(a, value, changed, m + first + e);
        }
    }
}

/// The model that answers by rule takes the question about a field as one for an
/// edit.
proof fn lemma_edits_by_rule(user: Seq<char>)
    ensures
        fake_text(EDITOR_SYSTEM_PROMPT@, user) == fake_edit(user),
{
    reveal_strlit(
        "คุณคือผู้ช่วยแก้ไขหนังสือราชการไทย\nแก้ไขเฉพาะฟิลด์ที่ระบุตามคำสั่งเท่านั้น\nตอบกลับเฉพาะข้อความที่แก้แล้วเท่านั้น\nคงรูปแบบเดิมไว้ อย่าเปลี่ยนโครงสร้าง",
    );
    reveal_strlit("แก้ไขหนังสือราชการไทย");
    let p = "แก้ไขหนังสือราชการไทย"@;
    assert(EDITOR_SYSTEM_PROMPT@.subrange(13, 13 + p.len() as int) =~= p);
    assert(matches_at(EDITOR_SYSTEM_PROMPT@, p, 13));
}

/// An edit of a string that is answered by rule ends in the document with the
/// string marked as edited in the way that was asked for, and with nothing else
/// changed.
pub proof fn law_edit_by_rule_marks_the_field(
    doc: JsonView,
    instructions: Seq<char>,
    field: Seq<char>,
    value: Seq<char>,
)
    requires
        doc is Object,
        doc.member(field) == Some(JsonView::Text(value)),
        one_line(field),
        plain(instructions),
        plain(value),
        unlabelled(value),
    ensures
        concluded(
            doc,
            instructions,
            seq![field],
            |prompt: Seq<char>| Ok(fake_text(EDITOR_SYSTEM_PROMPT@, prompt)),
        ) == EditView::Done(
            doc.with(field, JsonView::Text(value + " (แก้ไข: "@ + instructions + ")"@)),
        ),
{
    let fields = seq![field];
    let replies = |prompt: Seq<char>|
        Ok::<Seq<char>, Seq<char>>(fake_text(EDITOR_SYSTEM_PROMPT@, prompt));
    let prompt = scalar_prompt(field, value, instructions);
    law_question_holds_field_value_and_instructions(
        doc,
        instructions,
        fields,
        JsonView::Text(value),
        value,
    );
    lemma_edits_by_rule(prompt);
    lemma_single_line(value);
    lemma_nonblank_plain(seq![value]);
    let answer = value + " (แก้ไข: "@ + instructions + ")"@;
    let shown = editable(prompt);
    assert(shown =~= seq![value]);
    assert(fake_edit(prompt) == answer) by {
        let all = all_marked(shown, instructions);
        assert(all[0] == answer);
        assert(joined(all, "\n"@) == answer);
    }
    reveal_strlit(")");
    assert(answer[0] == value[0]);
    assert(answer[answer.len() - 1] == ')');
    lemma_trimmed_plain(answer);
    let next = doc.with(field, edited_value(false, answer));
    assert(fields.drop_first() =~= Seq::empty());
    assert(concluded(next, instructions, fields.drop_first(), replies) == EditView::Done(next));
    assert(concluded(doc, instructions, fields, replies) == EditView::Done(next));
}

/// What the model answers is what the field becomes: a plain line as it is, and
/// plain paragraphs, one to a line, as the paragraphs of the list.
pub proof fn law_answer_becomes_the_field(line: Seq<char>, paragraphs: Seq<Seq<char>>)
    requires
        plain(line),
        forall|i: int| 0 <= i < paragraphs.len() ==> plain(#[trigger] paragraphs[i]),
    ensures
        edited_value(false, line) == JsonView::Text(line),
        edited_value(true, joined(paragraphs, "\n"@)) matches JsonView::Array(items)
            && items.len() == paragraphs.len() && forall|i: int|
            0 <= i < items.len() ==> #[trigger] items[i] == JsonView::Text(paragraphs[i]),
{
    lemma_trimmed_plain(line);
    lemma_lines_joined(paragraphs);
    lemma_nonblank_plain(paragraphs);
}

/// An edit of a list that is answered by rule ends in the document with each
/// paragraph of the list marked as edited in the way that was asked for, in their
/// order, and with nothing else changed.
pub proof fn law_edit_by_rule_marks_every_paragraph(
    doc: JsonView,
    instructions: Seq<char>,
    field: Seq<char>,
    paragraphs: Seq<Seq<char>>,
)
    requires
        doc is Object,
        doc.member(field) == Some(text_array(paragraphs)),
        one_line(field),
        plain(instructions),
        forall|i: int|
            0 <= i < paragraphs.len() ==> plain(#[trigger] paragraphs[i]) && !begins_with(
                paragraphs[i],
                "คำสั่งแก้ไข:"@,
            ),
    ensures
        concluded(
            doc,
            instructions,
            seq![field],
            |prompt: Seq<char>| Ok(fake_text(EDITOR_SYSTEM_PROMPT@, prompt)),
        ) == EditView::Done(
            doc.with(
                field,
                text_array(
                    Seq::new(
                        paragraphs.len(),
                        |i: int| paragraphs[i] + " (แก้ไข: "@ + instructions + ")"@,
                    ),
                ),
            ),
        ),
{
    let fields = seq![field];
    let replies = |prompt: Seq<char>|
        Ok::<Seq<char>, Seq<char>>(fake_text(EDITOR_SYSTEM_PROMPT@, prompt));
    let value = text_array(paragraphs);
    let items = value->Array_0;
    lemma_strings_of_texts(paragraphs);
    assert(string_items(items) == paragraphs);
    let text = joined(paragraphs, "\n"@);
    lemma_lines_joined(paragraphs);
    assert(unlabelled(text));
    let prompt = list_prompt(field, paragraphs, instructions);
    law_question_holds_field_value_and_instructions(doc, instructions, fields, value, text);
    lemma_edits_by_rule(prompt);
    lemma_nonblank_plain(paragraphs);
    let shown = editable(prompt);
    assert(shown == paragraphs);
    let all = all_marked(paragraphs, instructions);
    let expected = Seq::new(
        paragraphs.len(),
        |i: int| paragraphs[i] + " (แก้ไข: "@ + instructions + ")"@,
    );
    assert(all =~= expected);
    lemma_list_is_asked_for(edit_question(field, text, instructions));
    let answer = joined(all, "\n"@);
    assert(fake_edit(prompt) == answer);
    reveal_strlit(")");
    reveal_strlit(" (แก้ไข: ");
    assert forall|i: int| 0 <= i < all.len() implies plain(#[trigger] all[i]) by {
        let p = paragraphs[i];
        assert(plain(p));
        lemma_one_line_concat(p, " (แก้ไข: "@);
        lemma_one_line_concat(p + " (แก้ไข: "@, instructions);
        lemma_one_line_concat(p + " (แก้ไข: "@ + instructions, ")"@);
        assert(all[i][0] == p[0]);
        assert(all[i][all[i].len() - 1] == ')');
    }
    lemma_lines_joined(all);
    lemma_nonblank_plain(all);
    let next = doc.with(field, edited_value(true, answer));
    assert(fields.drop_first() =~= Seq::empty());
    assert(concluded(next, instructions, fields.drop_first(), replies) == EditView::Done(next));
    assert(concluded(doc, instructions, fields, replies) == EditView::Done(next));
}

/// The strings of a list of strings.
proof fn lemma_strings_of_texts(list: Seq<Seq<char>>)
    ensures
        string_items(text_array(list)->Array_0) == list,
    decreases list.len(),
{
    let items = text_array(list)->Array_0;
    if list.len() > 0 {
        lemma_strings_of_texts(list.drop_last());
        assert(items.drop_last() =~= text_array(list.drop_last())->Array_0);
        assert(list.drop_last().push(list.last()) =~= list);
    }
    assert(string_items(items) =~= list);
}

/// The question about a list asks for one paragraph to a line.
proof fn lemma_list_is_asked_for(question: Seq<char>)
    ensures
        has_text(
            question + "\n\nตอบเฉพาะข้อความที่แก้แล้วเท่านั้น แต่ละบรรทัดคือ 1 ย่อหน้า"@,
            "แต่ละบรรทัดคือ 1 ย่อหน้า"@,
        ),
{
    reveal_strlit("\n\nตอบเฉพาะข้อความที่แก้แล้วเท่านั้น แต่ละบรรทัดคือ 1 ย่อหน้า");
    reveal_strlit("แต่ละบรรทัดคือ 1 ย่อหน้า");
    let end = "\n\nตอบเฉพาะข้อความที่แก้แล้วเท่านั้น แต่ละบรรทัดคือ 1 ย่อหน้า"@;
    let p = "แต่ละบรรทัดคือ 1 ย่อหน้า"@;
    let n = end.len() - p.len();
    assert(end.subrange(n, n + p.len()) =~= p);
    assert(end =~= end.take(n) + p);
    lemma_stands_between(question + end.take(n), p, Seq::empty());
    assert(question + end.take(n) + p + Seq::<char>::empty() =~= question + end);
}

/// An edit of a field that is not there fails, and so does one of a field that is
/// neither a string nor a list; the failure names the field.
pub proof fn law_edit_of_other_fields_fails(
    doc: JsonView,
    instructions: Seq<char>,
    fields: Seq<Seq<char>>,
)
    requires
        fields.len() > 0,
    ensures
        doc.member(fields[0]) is None ==> (resumed(doc, instructions, fields) matches
            EditView::Failed(e) && e == EditErrorView::MissingField(fields[0]) && has_text(
            e.message(),
            "'"@ + fields[0] + "'"@,
        )),
        doc.member(fields[0]) matches Some(v) && !(v is Text) && !(v is Array) ==> (resumed(
            doc,
            instructions,
            fields,
        ) matches EditView::Failed(e) && e == EditErrorView::UnsupportedField(fields[0])
            && has_text(e.message(), "'"@ + fields[0] + "'"@)),
{
    reveal_strlit("Document has no field '");
    reveal_strlit("Unsupported field type for '");
    reveal_strlit("'");
    let f = fields[0];
    let quote = "'"@;
    let a = "Document has no field '"@;
    let b = "Unsupported field type for '"@;
    assert(a =~= a.drop_last() + quote);
    assert(b =~= b.drop_last() + quote);
    lemma_assoc(a.drop_last(), quote, f);
    lemma_assoc(a.drop_last(), quote + f, quote);
    lemma_end_stands(a.drop_last(), quote + f + quote);
    lemma_assoc(b.drop_last(), quote, f);
    lemma_assoc(b.drop_last(), quote + f, quote);
    lemma_end_stands(b.drop_last(), quote + f + quote);
}

/// White space around an answer does not matter.
pub proof fn law_answer_is_trimmed(before: char, line: Seq<char>, behind: char)
    requires
        plain(line),
        is_space(before),
        is_space(behind),
    ensures
        edited_value(false, seq![before] + line + seq![behind]) == JsonView::Text(line),
{
    lemma_trimmed_around(before, line, behind);
}

} // verus!
