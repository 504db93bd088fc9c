//! Generating a document: a draft by the language model, reviews by a critic
//! until one passes, the fixed forms of address, and a last validation.
//!
//! The run is a machine without input or output of its own. Each state holds
//! what is to be asked next; the answer takes the run to its next state.
use vstd::prelude::*;

use crate::json::empty_object;
use crate::json::json_pretty_text;
use crate::json::text_array;
use crate::json::Json;
use crate::json::JsonView;
use crate::json::NumberView;
use crate::mock::fake_document;
use crate::mock::fake_json;
use crate::mock::first_value;
use crate::mock::lemma_document_by_rule;
use crate::mock::lemma_drafts_by_rule;
use crate::mock::lemma_first_value_found;
use crate::mock::lemma_first_value_skips;
use crate::mock::prompt_value;
use crate::mock::requested_type;
use crate::number::digits;
use crate::number::show_usize;
use crate::rules::closing;
use crate::rules::lookup_closing;
use crate::rules::lookup_salutation;
use crate::rules::salutation;
use crate::schemas::CriticReview;
use crate::schemas::DocRequest;
use crate::schemas::DocType;
use crate::schemas::RecipientClass;
use crate::text::begins_with;
use crate::text::cat2;
use crate::text::cat3;
use crate::text::cat4;
use crate::text::finishes_with;
use crate::text::has_text;
use crate::text::join;
use crate::text::joined;
use crate::text::lacks;
use crate::text::lemma_begins_otherwise;
use crate::text::lemma_begins_with_concat;
use crate::text::lemma_joined_front;
use crate::text::lemma_joined_holds;
use crate::text::lemma_joined_lines;
use crate::text::lemma_joined_pair;
use crate::text::lemma_lacks;
use crate::text::lemma_lacks_concat;
use crate::text::lemma_one_line_concat;
use crate::text::lemma_stands_between;
use crate::text::lemma_still_holds;
use crate::text::lemma_trimmed_plain;
use crate::text::lines_of;
use crate::text::one_line;
use crate::text::plain;
use crate::text::push_text;
use crate::text::texts;
use crate::text::trimmed;

verus! {

/// What the model is told to be when it drafts.
pub const GENERATOR_SYSTEM_PROMPT: &'static str =
    "คุณคือผู้ช่วยสร้างหนังสือราชการไทย\nสร้าง JSON ตาม schema ที่กำหนดให้เท่านั้น\nเนื้อหาต้องถูกต้องตามระเบียบงานสารบรรณ\nใช้ภาษาไทยที่ถูกต้อง เป็นทางการ";

/// What the model is told to be when it reviews.
pub const CRITIC_SYSTEM_PROMPT: &'static str =
    "คุณคือผู้ตรวจสอบหนังสือราชการไทย\nตรวจสอบว่า JSON ถูกต้องตามระเบียบงานสารบรรณหรือไม่\nตอบเป็น JSON ด้วย {\"passed\": bool, \"issues\": [...], \"suggestions\": [...]}";

/// The most tokens a draft may take.
pub const DRAFT_TOKENS: usize = 8192;

/// The most tokens a review may take.
pub const REVIEW_TOKENS: usize = 2048;

/// The most examples that a draft is shown.
pub const EXAMPLE_LIMIT: usize = 3;

// ---------------------------------------------------------------------------
// The summary by which similar documents are found
// ---------------------------------------------------------------------------

/// `label: value`, or nothing where there is no value.
pub open spec fn labelled(label: Seq<char>, value: Seq<char>) -> Seq<Seq<char>> {
    if value.len() == 0 {
        Seq::empty()
    } else {
        seq![label + ": "@ + value]
    }
}

/// Who is named as the recipient: the agency, and where there is none, the
/// person.
pub open spec fn recipient_of(req: DocRequest) -> Seq<char> {
    if req.recipient_agency@.len() == 0 {
        req.recipient_name@
    } else {
        req.recipient_agency@
    }
}

/// The summary of a request.
pub open spec fn query_summary(req: DocRequest) -> Seq<char> {
    joined(
        seq!["ประเภท"@ + ": "@ + req.doc_type.thai()] + labelled("เรื่อง"@, req.subject@) + labelled(
            "จุดประสงค์"@,
            req.purpose@,
        ) + labelled("ผู้รับ"@, recipient_of(req)) + labelled("บริบท"@, req.additional_context@),
        " | "@,
    )
}

/// Appends `label: value` to `parts` where there is a value.
pub fn append_if_present(parts: &mut Vec<String>, label: &str, value: &str)
    ensures
        texts(final(parts)@) == texts(old(parts)@) + labelled(label@, value@),
{
    if !value.is_empty() {
        push_text(parts, cat3(label, ": ", value));
        assert(texts(parts@) =~= texts(old(parts)@) + labelled(label@, value@));
    } else {
        assert(texts(parts@) =~= texts(old(parts)@) + labelled(label@, value@));
    }
}

/// The summary of a request, by which similar documents are found.
pub fn build_query_summary(req: &DocRequest) -> (r: String)
    ensures
        r@ == query_summary(*req),
{
    let mut parts: Vec<String> = Vec::new();
    push_text(&mut parts, cat3("ประเภท", ": ", req.doc_type.as_thai()));
    assert(texts(parts@) =~= seq!["ประเภท"@ + ": "@ + req.doc_type.thai()]);
    append_if_present(&mut parts, "เรื่อง", req.subject.as_str());
    append_if_present(&mut parts, "จุดประสงค์", req.purpose.as_str());
    if req.recipient_agency.as_str().is_empty() {
        append_if_present(&mut parts, "ผู้รับ", req.recipient_name.as_str());
    } else {
        append_if_present(&mut parts, "ผู้รับ", req.recipient_agency.as_str());
    }
    append_if_present(&mut parts, "บริบท", req.additional_context.as_str());
    join(&parts, " | ")
}

// ---------------------------------------------------------------------------
// Prompts
// ---------------------------------------------------------------------------

/// The examples as they stand in a prompt, numbered from one.
pub open spec fn example_parts(examples: Seq<JsonView>) -> Seq<Seq<char>>
    decreases examples.len(),
{
    if examples.len() == 0 {
        Seq::empty()
    } else {
        example_parts(examples.drop_last()).push(
            "--- ตัวอย่าง "@ + digits(examples.len()) + " ---"@,
        ).push(json_pretty_text(examples.last()))
    }
}

/// The part of a prompt about examples, which is missing when there are none.
pub open spec fn example_section(examples: Seq<JsonView>) -> Seq<Seq<char>> {
    if examples.len() == 0 {
        Seq::empty()
    } else {
        seq![Seq::<char>::empty(), "ตัวอย่างเอกสารที่คล้ายกัน:"@] + example_parts(examples)
    }
}

/// What the model is asked for a first draft.
pub open spec fn generator_prompt(
    req: DocRequest,
    examples: Seq<JsonView>,
    schema: JsonView,
) -> Seq<char> {
    let noun = if req.doc_type.is_letter() {
        "หนังสือ"@
    } else {
        ""@
    };
    joined(
        seq!["จงสร้าง"@ + noun + "ราชการประเภท "@ + req.doc_type.thai()] + labelled(
            "เรื่อง"@,
            req.subject@,
        ) + labelled("จุดประสงค์"@, req.purpose@) + labelled("ผู้รับ"@, req.recipient_name@) + labelled(
            "หน่วยงานผู้รับ"@,
            req.recipient_agency@,
        ) + labelled("ผู้ลงนาม"@, req.sender_name@) + labelled("ตำแหน่ง"@, req.sender_position@)
            + labelled("บริบทเพิ่มเติม"@, req.additional_context@) + seq![
            Seq::<char>::empty(),
            "Schema JSON ที่ต้องเอาต์พุต:"@,
            json_pretty_text(schema),
        ] + example_section(examples),
        "\n"@,
    )
}

/// What the model is asked for a first draft.
pub fn build_generator_prompt(req: &DocRequest, examples: &Vec<Json>, schema: &Json) -> (r: String)
    ensures
        r@ == generator_prompt(*req, crate::json::items_view(examples@), schema@),
{
    let noun = if req.doc_type.has_recipient() {
        "หนังสือ"
    } else {
        ""
    };
    let mut parts: Vec<String> = Vec::new();
    push_text(&mut parts, cat4("จงสร้าง", noun, "ราชการประเภท ", req.doc_type.as_thai()));
    assert(texts(parts@) =~= seq!["จงสร้าง"@ + noun@ + "ราชการประเภท "@ + req.doc_type.thai()]);
    append_if_present(&mut parts, "เรื่อง", req.subject.as_str());
    append_if_present(&mut parts, "จุดประสงค์", req.purpose.as_str());
    append_if_present(&mut parts, "ผู้รับ", req.recipient_name.as_str());
    append_if_present(&mut parts, "หน่วยงานผู้รับ", req.recipient_agency.as_str());
    append_if_present(&mut parts, "ผู้ลงนาม", req.sender_name.as_str());
    append_if_present(&mut parts, "ตำแหน่ง", req.sender_position.as_str());
    append_if_present(&mut parts, "บริบทเพิ่มเติม", req.additional_context.as_str());
    let ghost head = texts(parts@);
    push_text(&mut parts, String::new());
    push_text(&mut parts, "Schema JSON ที่ต้องเอาต์พุต:".to_owned());
    push_text(&mut parts, schema.to_pretty_text());
    let ghost body = head + seq![
        Seq::<char>::empty(),
        "Schema JSON ที่ต้องเอาต์พุต:"@,
        json_pretty_text(schema@),
    ];
    assert(texts(parts@) =~= body);
    let ghost views = crate::json::items_view(examples@);
    if examples.len() > 0 {
        push_text(&mut parts, String::new());
        push_text(&mut parts, "ตัวอย่างเอกสารที่คล้ายกัน:".to_owned());
        let ghost opened = body + seq![Seq::<char>::empty(), "ตัวอย่างเอกสารที่คล้ายกัน:"@];
        assert(texts(parts@) =~= opened + example_parts(views.take(0)));
        let mut i: usize = 0;
        while i < examples.len()
            invariant
                i <= examples@.len(),
                views == crate::json::items_view(examples@),
                texts(parts@) == opened + example_parts(views.take(i as int)),
            decreases examples@.len() - i,
        {
            let number = show_usize(i + 1);
            push_text(&mut parts, cat3("--- ตัวอย่าง ", number.as_str(), " ---"));
            push_text(&mut parts, examples[i].to_pretty_text());
            proof {
                let next = views.take(i as int + 1);
                assert(next.drop_last() =~= views.take(i as int));
                assert(texts(parts@) =~= opened + example_parts(next));
            }
            i += 1;
        }
        assert(views.take(views.len() as int) =~= views);
        assert(texts(parts@) =~= body + example_section(views));
    } else {
        assert(texts(parts@) =~= body + example_section(views));
    }
    join(&parts, "\n")
}

// ---------------------------------------------------------------------------
// What a prompt tells of its request
// ---------------------------------------------------------------------------

/// Whether no value of a request holds a line break.
pub open spec fn one_line_values(req: DocRequest) -> bool {
    &&& one_line(req.subject@)
    &&& one_line(req.purpose@)
    &&& one_line(req.recipient_name@)
    &&& one_line(req.recipient_agency@)
    &&& one_line(req.sender_name@)
    &&& one_line(req.sender_position@)
    &&& one_line(req.additional_context@)
}

/// The labels of the values of a request, in the order of a prompt.
spec fn request_labels() -> Seq<Seq<char>> {
    seq![
        "เรื่อง"@,
        "จุดประสงค์"@,
        "ผู้รับ"@,
        "หน่วยงานผู้รับ"@,
        "ผู้ลงนาม"@,
        "ตำแหน่ง"@,
        "บริบทเพิ่มเติม"@,
    ]
}

/// The values of a request, in the order of a prompt.
spec fn request_values(req: DocRequest) -> Seq<Seq<char>> {
    seq![
        req.subject@,
        req.purpose@,
        req.recipient_name@,
        req.recipient_agency@,
        req.sender_name@,
        req.sender_position@,
        req.additional_context@,
    ]
}

/// The line of an opening, and the lines of the first `n` labelled values.
spec fn labelled_up_to(
    opening: Seq<char>,
    labels: Seq<Seq<char>>,
    values: Seq<Seq<char>>,
    n: int,
) -> Seq<Seq<char>>
    decreases n,
{
    if n <= 0 {
        seq![opening]
    } else {
        labelled_up_to(opening, labels, values, n - 1) + labelled(labels[n - 1], values[n - 1])
    }
}

/// Whether two labels differ where both have a character.
spec fn labels_differ(a: Seq<char>, b: Seq<char>) -> bool {
    exists|k: int| 0 <= k < a.len() && k < b.len() && #[trigger] a[k] != b[k]
}

proof fn lemma_labels_differ()
    ensures
        forall|i: int, j: int|
            0 <= i < request_labels().len() && 0 <= j < request_labels().len() && i != j
                ==> labels_differ(#[trigger] request_labels()[i], #[trigger] request_labels()[j]),
        forall|i: int|
            0 <= i < request_labels().len() ==> one_line(#[trigger] request_labels()[i]),
        request_labels().len() == 7,
{
    reveal_strlit("เรื่อง");
    reveal_strlit("จุดประสงค์");
    reveal_strlit("ผู้รับ");
    reveal_strlit("หน่วยงานผู้รับ");
    reveal_strlit("ผู้ลงนาม");
    reveal_strlit("ตำแหน่ง");
    reveal_strlit("บริบทเพิ่มเติม");
    let labels = request_labels();
    assert(labels[0][0] != labels[1][0]);
    assert(labels[0][0] != labels[2][0]);
    assert(labels[0][0] != labels[3][0]);
    assert(labels[0][0] != labels[4][0]);
    assert(labels[0][0] != labels[5][0]);
    assert(labels[0][0] != labels[6][0]);
    assert(labels[1][0] != labels[2][0]);
    assert(labels[1][0] != labels[3][0]);
    assert(labels[1][0] != labels[4][0]);
    assert(labels[1][0] != labels[5][0]);
    assert(labels[1][0] != labels[6][0]);
    assert(labels[2][0] != labels[3][0]);
    assert(labels[2][3] != labels[4][3]);
    assert(labels[2][0] != labels[5][0]);
    assert(labels[2][0] != labels[6][0]);
    assert(labels[3][0] != labels[4][0]);
    assert(labels[3][0] != labels[5][0]);
    assert(labels[3][0] != labels[6][0]);
    assert(labels[4][0] != labels[5][0]);
    assert(labels[4][0] != labels[6][0]);
    assert(labels[5][0] != labels[6][0]);
}

/// A line under one label does not begin with another.
proof fn lemma_other_label(label: Seq<char>, value: Seq<char>, other: Seq<char>)
    requires
        labels_differ(label, other),
    ensures
        forall|i: int|
            0 <= i < labelled(label, value).len() ==> !begins_with(
                #[trigger] labelled(label, value)[i],
                other + ": "@,
            ),
{
    let k = choose|k: int| 0 <= k < label.len() && k < other.len() && #[trigger] label[k] != other[k];
    let line = label + ": "@ + value;
    assert(line[k] == label[k]);
    assert((other + ": "@)[k] == other[k]);
    lemma_begins_otherwise(line, other + ": "@, k);
}

/// No line under other labels begins with a label.
proof fn lemma_labels_passed(
    opening: Seq<char>,
    labels: Seq<Seq<char>>,
    values: Seq<Seq<char>>,
    n: int,
    label: Seq<char>,
)
    requires
        0 <= n <= labels.len(),
        !begins_with(opening, label + ": "@),
        forall|k: int| 0 <= k < n ==> labels_differ(#[trigger] labels[k], label),
    ensures
        forall|i: int|
            0 <= i < labelled_up_to(opening, labels, values, n).len() ==> !begins_with(
                #[trigger] labelled_up_to(opening, labels, values, n)[i],
                label + ": "@,
            ),
    decreases n,
{
    if n > 0 {
        lemma_labels_passed(opening, labels, values, n - 1, label);
        assert(labels_differ(labels[n - 1], label));
        lemma_other_label(labels[n - 1], values[n - 1], label);
        let before = labelled_up_to(opening, labels, values, n - 1);
        let here = labelled(labels[n - 1], values[n - 1]);
        let all = labelled_up_to(opening, labels, values, n);
        assert(all == before + here);
        assert forall|i: int| 0 <= i < all.len() implies !begins_with(
            #[trigger] all[i],
            label + ": "@,
        ) by {
            if i < before.len() {
                assert(all[i] == before[i]);
            } else {
                assert(all[i] == here[i - before.len()]);
            }
        }
    }
}

/// The value under a label is found among the labelled lines.
proof fn lemma_labelled_found(
    opening: Seq<char>,
    labels: Seq<Seq<char>>,
    values: Seq<Seq<char>>,
    n: int,
    j: int,
    rest: Seq<Seq<char>>,
)
    requires
        labels.len() == values.len(),
        0 <= j < n <= labels.len(),
        !begins_with(opening, labels[j] + ": "@),
        forall|k: int|
            0 <= k < labels.len() && k != j ==> labels_differ(#[trigger] labels[k], labels[j]),
        trimmed(values[j]).len() > 0,
    ensures
        first_value(
            labelled_up_to(opening, labels, values, n) + rest,
            labels[j] + ": "@,
        ) == Some(trimmed(values[j])),
    decreases n,
{
    let prefix = labels[j] + ": "@;
    let before = labelled_up_to(opening, labels, values, n - 1);
    let here = labelled(labels[n - 1], values[n - 1]);
    assert(labelled_up_to(opening, labels, values, n) + rest =~= before + (here + rest));
    if j < n - 1 {
        lemma_labelled_found(opening, labels, values, n - 1, j, here + rest);
    } else {
        assert(values[j].len() > 0) by {
            if values[j].len() == 0 {
                assert(values[j] =~= Seq::empty());
            }
        }
        lemma_labels_passed(opening, labels, values, j, labels[j]);
        lemma_first_value_skips(before, here + rest, prefix);
        assert(here =~= seq![prefix + values[j]]);
        lemma_first_value_found(values[j], rest, prefix);
    }
}

/// The labelled lines are lines where their values are.
proof fn lemma_labelled_lines(
    opening: Seq<char>,
    labels: Seq<Seq<char>>,
    values: Seq<Seq<char>>,
    n: int,
)
    requires
        labels.len() == values.len(),
        0 <= n <= labels.len(),
        one_line(opening),
        forall|k: int| 0 <= k < labels.len() ==> one_line(#[trigger] labels[k]),
        forall|k: int| 0 <= k < values.len() ==> one_line(#[trigger] values[k]),
    ensures
        forall|k: int|
            0 <= k < labelled_up_to(opening, labels, values, n).len() ==> one_line(
                #[trigger] labelled_up_to(opening, labels, values, n)[k],
            ),
    decreases n,
{
    if n > 0 {
        lemma_labelled_lines(opening, labels, values, n - 1);
        reveal_strlit(": ");
        let before = labelled_up_to(opening, labels, values, n - 1);
        let here = labelled(labels[n - 1], values[n - 1]);
        let all = labelled_up_to(opening, labels, values, n);
        assert(one_line(": "@));
        assert(one_line(labels[n - 1]) && one_line(values[n - 1]));
        lemma_one_line_concat(labels[n - 1], ": "@);
        lemma_one_line_concat(labels[n - 1] + ": "@, values[n - 1]);
        assert forall|k: int| 0 <= k < all.len() implies one_line(#[trigger] all[k]) by {
            if k < before.len() {
                assert(all[k] == before[k]);
            } else {
                assert(all[k] == here[k - before.len()]);
            }
        }
    }
}

/// The first line of a prompt for a draft.
spec fn opening_line(doc_type: DocType) -> Seq<char> {
    "จงสร้าง"@ + (if doc_type.is_letter() {
        "หนังสือ"@
    } else {
        ""@
    }) + "ราชการประเภท "@ + doc_type.thai()
}

proof fn lemma_opening_is_a_line(doc_type: DocType)
    ensures
        one_line(opening_line(doc_type)),
{
    reveal_strlit("จงสร้าง");
    reveal_strlit("หนังสือ");
    reveal_strlit("");
    reveal_strlit("ราชการประเภท ");
    reveal_strlit("ภายนอก");
    reveal_strlit("ภายใน");
    reveal_strlit("คำสั่ง");
    reveal_strlit("ประกาศ");
    let noun = if doc_type.is_letter() {
        "หนังสือ"@
    } else {
        ""@
    };
    assert(one_line("จงสร้าง"@) && one_line(noun) && one_line("ราชการประเภท "@));
    assert(one_line(doc_type.thai()));
    lemma_one_line_concat("จงสร้าง"@, noun);
    lemma_one_line_concat("จงสร้าง"@ + noun, "ราชการประเภท "@);
    lemma_one_line_concat("จงสร้าง"@ + noun + "ราชการประเภท "@, doc_type.thai());
}

/// The parts of a prompt for a draft.
proof fn lemma_generator_parts(
    req: DocRequest,
    examples: Seq<JsonView>,
    schema: JsonView,
    tail: Seq<Seq<char>>,
)
    requires
        tail == seq![
            Seq::<char>::empty(),
            "Schema JSON ที่ต้องเอาต์พุต:"@,
            json_pretty_text(schema),
        ] + example_section(examples),
    ensures
        generator_prompt(req, examples, schema) == joined(
            labelled_up_to(
                opening_line(req.doc_type),
                request_labels(),
                request_values(req),
                7,
            ) + tail,
            "\n"@,
        ),
{
    let labels = request_labels();
    let values = request_values(req);
    let opening = opening_line(req.doc_type);
    let h0 = seq![opening];
    let h1 = h0 + labelled("เรื่อง"@, req.subject@);
    let h2 = h1 + labelled("จุดประสงค์"@, req.purpose@);
    let h3 = h2 + labelled("ผู้รับ"@, req.recipient_name@);
    let h4 = h3 + labelled("หน่วยงานผู้รับ"@, req.recipient_agency@);
    let h5 = h4 + labelled("ผู้ลงนาม"@, req.sender_name@);
    let h6 = h5 + labelled("ตำแหน่ง"@, req.sender_position@);
    let h7 = h6 + labelled("บริบทเพิ่มเติม"@, req.additional_context@);
    assert(labelled_up_to(opening, labels, values, 0) == h0);
    assert(labelled_up_to(opening, labels, values, 1) == h1);
    assert(labelled_up_to(opening, labels, values, 2) == h2);
    assert(labelled_up_to(opening, labels, values, 3) == h3);
    assert(labelled_up_to(opening, labels, values, 4) == h4);
    assert(labelled_up_to(opening, labels, values, 5) == h5);
    assert(labelled_up_to(opening, labels, values, 6) == h6);
    assert(labelled_up_to(opening, labels, values, 7) == h7);
    lemma_parts_behind(
        h7,
        seq![
            Seq::<char>::empty(),
            "Schema JSON ที่ต้องเอาต์พุต:"@,
            json_pretty_text(schema),
        ],
        example_section(examples),
    );
}

proof fn lemma_parts_behind(a: Seq<Seq<char>>, b: Seq<Seq<char>>, c: Seq<Seq<char>>)
    ensures
        a + b + c == a + (b + c),
{
    assert(a + b + c =~= a + (b + c));
}

/// The lines of a prompt for a draft: the first, the values of the request, and
/// then the schema and the examples.
proof fn lemma_generator_lines(
    req: DocRequest,
    examples: Seq<JsonView>,
    schema: JsonView,
) -> (rest: Seq<Seq<char>>)
    requires
        one_line_values(req),
    ensures
        lines_of(generator_prompt(req, examples, schema)) == labelled_up_to(
            opening_line(req.doc_type),
            request_labels(),
            request_values(req),
            7,
        ) + rest,
{
    let labels = request_labels();
    let values = request_values(req);
    let opening = opening_line(req.doc_type);
    lemma_labels_differ();
    lemma_opening_is_a_line(req.doc_type);
    lemma_labelled_lines(opening, labels, values, 7);
    let tail = seq![
        Seq::<char>::empty(),
        "Schema JSON ที่ต้องเอาต์พุต:"@,
        json_pretty_text(schema),
    ] + example_section(examples);
    lemma_generator_parts(req, examples, schema, tail);
    lemma_joined_lines(labelled_up_to(opening, labels, values, 7), tail);
    lines_of(joined(tail, "\n"@))
}

/// The first line of a prompt begins with none of the labels.
proof fn lemma_opening_has_no_label(doc_type: DocType, j: int)
    requires
        0 <= j < 7,
    ensures
        !begins_with(opening_line(doc_type), request_labels()[j] + ": "@),
{
    reveal_strlit("จงสร้าง");
    reveal_strlit("เรื่อง");
    reveal_strlit("จุดประสงค์");
    reveal_strlit("ผู้รับ");
    reveal_strlit("หน่วยงานผู้รับ");
    reveal_strlit("ผู้ลงนาม");
    reveal_strlit("ตำแหน่ง");
    reveal_strlit("บริบทเพิ่มเติม");
    let opening = opening_line(doc_type);
    let label = request_labels()[j];
    let prefix = label + ": "@;
    assert(opening[0] == "จงสร้าง"@[0]);
    assert(opening[1] == "จงสร้าง"@[1]);
    let at: int = if j == 1 {
        1
    } else {
        0
    };
    assert(prefix[at] == label[at]);
    lemma_begins_otherwise(opening, prefix, at);
}

/// The opening comes first.
proof fn lemma_labelled_opening(
    opening: Seq<char>,
    labels: Seq<Seq<char>>,
    values: Seq<Seq<char>>,
    n: int,
)
    ensures
        labelled_up_to(opening, labels, values, n).len() > 0,
        labelled_up_to(opening, labels, values, n)[0] == opening,
    decreases n,
{
    if n > 0 {
        lemma_labelled_opening(opening, labels, values, n - 1);
    }
}

/// The prompt for a draft gives the request back: reading it by label gives each
/// value of the request that is a plain line, and under no other label. The
/// first line names the kind.
pub proof fn law_prompt_gives_the_request_back(
    req: DocRequest,
    examples: Seq<JsonView>,
    schema: JsonView,
)
    requires
        one_line_values(req),
    ensures
        ({
            let prompt = generator_prompt(req, examples, schema);
            &&& plain(req.subject@) ==> prompt_value(prompt, "เรื่อง"@) == Some(req.subject@)
            &&& plain(req.purpose@) ==> prompt_value(prompt, "จุดประสงค์"@) == Some(req.purpose@)
            &&& plain(req.recipient_name@) ==> prompt_value(prompt, "ผู้รับ"@) == Some(req.recipient_name@)
            &&& plain(req.recipient_agency@) ==> prompt_value(prompt, "หน่วยงานผู้รับ"@) == Some(req.recipient_agency@)
            &&& plain(req.sender_name@) ==> prompt_value(prompt, "ผู้ลงนาม"@) == Some(req.sender_name@)
            &&& plain(req.sender_position@) ==> prompt_value(prompt, "ตำแหน่ง"@) == Some(req.sender_position@)
            &&& plain(req.additional_context@) ==> prompt_value(prompt, "บริบทเพิ่มเติม"@) == Some(req.additional_context@)
            &&& requested_type(prompt) == req.doc_type
        }),
{
    let prompt = generator_prompt(req, examples, schema);
    let labels = request_labels();
    let values = request_values(req);
    let rest = lemma_generator_lines(req, examples, schema);
    let opening = opening_line(req.doc_type);
    lemma_labels_differ();
    assert forall|j: int| 0 <= j < 7 && plain(values[j]) implies prompt_value(
        prompt,
        #[trigger] labels[j],
    ) == Some(values[j]) by {
        lemma_trimmed_plain(values[j]);
        lemma_opening_has_no_label(req.doc_type, j);
        lemma_labelled_found(opening, labels, values, 7, j, rest);
    }
    assert(labels[0] == "เรื่อง"@);
    assert(labels[1] == "จุดประสงค์"@);
    assert(labels[2] == "ผู้รับ"@);
    assert(labels[3] == "หน่วยงานผู้รับ"@);
    assert(labels[4] == "ผู้ลงนาม"@);
    assert(labels[5] == "ตำแหน่ง"@);
    assert(labels[6] == "บริบทเพิ่มเติม"@);
    lemma_kind_is_named(req.doc_type);
    lemma_labelled_opening(opening, labels, values, 7);
    assert(lines_of(prompt)[0] == opening);
}

/// The first line of a prompt names its kind and no other.
proof fn lemma_kind_is_named(doc_type: DocType)
    ensures
        has_text(opening_line(doc_type), "ภายใน"@) == (doc_type == DocType::Internal),
        has_text(opening_line(doc_type), "คำสั่ง"@) == (doc_type == DocType::Order),
        has_text(opening_line(doc_type), "ประกาศ"@) == (doc_type == DocType::Announcement),
{
    let line = opening_line(doc_type);
    let name = doc_type.thai();
    let noun = if doc_type.is_letter() {
        "หนังสือ"@
    } else {
        ""@
    };
    let front = "จงสร้าง"@ + noun + "ราชการประเภท "@;
    assert(line =~= front + name + Seq::empty());
    lemma_stands_between(front, name, Seq::empty());
    lemma_names_lack(doc_type);
    lemma_opening_lacks(noun, name, 'ใ', doc_type != DocType::Internal);
    lemma_opening_lacks(noun, name, 'ค', doc_type != DocType::Order);
    lemma_opening_lacks(noun, name, 'ศ', doc_type != DocType::Announcement);
    if doc_type != DocType::Internal {
        lemma_lacks(line, "ภายใน"@, 3);
    }
    if doc_type != DocType::Order {
        lemma_lacks(line, "คำสั่ง"@, 0);
    }
    if doc_type != DocType::Announcement {
        lemma_lacks(line, "ประกาศ"@, 5);
    }
}

/// A character of the name of each kind that stands in no other.
proof fn lemma_names_lack(doc_type: DocType)
    ensures
        "ภายใน"@.len() == 5 && "ภายใน"@[3] == 'ใ',
        "คำสั่ง"@.len() == 6 && "คำสั่ง"@[0] == 'ค',
        "ประกาศ"@.len() == 6 && "ประกาศ"@[5] == 'ศ',
        doc_type != DocType::Internal ==> lacks(doc_type.thai(), 'ใ'),
        doc_type != DocType::Order ==> lacks(doc_type.thai(), 'ค'),
        doc_type != DocType::Announcement ==> lacks(doc_type.thai(), 'ศ'),
        lacks("หนังสือ"@, 'ใ') && lacks("หนังสือ"@, 'ค') && lacks("หนังสือ"@, 'ศ'),
        lacks(""@, 'ใ') && lacks(""@, 'ค') && lacks(""@, 'ศ'),
{
    reveal_strlit("หนังสือ");
    reveal_strlit("");
    reveal_strlit("ภายนอก");
    reveal_strlit("ภายใน");
    reveal_strlit("คำสั่ง");
    reveal_strlit("ประกาศ");
}

/// What the first line of a prompt lacks.
proof fn lemma_opening_lacks(noun: Seq<char>, name: Seq<char>, c: char, lacking: bool)
    requires
        lacking ==> lacks(name, c),
        lacks(noun, c),
        c == 'ใ' || c == 'ค' || c == 'ศ',
    ensures
        lacking ==> lacks("จงสร้าง"@ + noun + "ราชการประเภท "@ + name, c),
{
    reveal_strlit("จงสร้าง");
    reveal_strlit("ราชการประเภท ");
    lemma_lacks_concat("จงสร้าง"@, noun, c);
    lemma_lacks_concat("จงสร้าง"@ + noun, "ราชการประเภท "@, c);
    if lacking {
        lemma_lacks_concat("จงสร้าง"@ + noun + "ราชการประเภท "@, name, c);
    }
}

/// The points that a review of a document of a kind is to check.
pub open spec fn checklist(doc_type: DocType) -> Seq<Seq<char>> {
    if doc_type.is_letter() {
        seq![
            "มีคำขึ้นต้นที่ถูกต้อง (เรียน/กราบเรียน/กราบนมัสการ/กราบบังคมทูล)"@,
            "มีคำลงท้ายที่ถูกต้อง"@,
            "เนื้อความอ่านเข้าใจได้ เหมาะสมกับระดับผู้รับ"@,
            "ครบถ้วน: เลขที่, วันที่, เรื่อง, เนื้อความ, ลงชื่อ, ตำแหน่ง"@,
        ]
    } else {
        seq!["มีเลขที่ รายการข้อ วันที่ ผู้ลงนาม ตำแหน่ง"@, "เนื้อความเป็นข้อ ๆ ชัดเจน"@]
    }
}

/// The points, numbered from one.
pub open spec fn numbered(points: Seq<Seq<char>>) -> Seq<Seq<char>>
    decreases points.len(),
{
    if points.len() == 0 {
        Seq::empty()
    } else {
        numbered(points.drop_last()).push(digits(points.len()) + ". "@ + points.last())
    }
}

/// What the model is asked for a review.
pub open spec fn critic_prompt(doc: JsonView, doc_type: DocType) -> Seq<char> {
    joined(
        seq![
            "ตรวจสอบ JSON หนังสือราชการต่อไปนี้:"@,
            json_pretty_text(doc),
            Seq::<char>::empty(),
            "รายการตรวจสอบ:"@,
        ] + numbered(checklist(doc_type)) + seq![
            Seq::<char>::empty(),
            "ตอบเป็น JSON: {\"passed\": true/false, \"issues\": [\"...\"], \"suggestions\": [\"...\"]}"@,
        ],
        "\n"@,
    )
}

/// The points that a review of a document of a kind is to check.
fn checklist_of(doc_type: DocType) -> (r: Vec<String>)
    ensures
        texts(r@) == checklist(doc_type),
{
    let mut points: Vec<String> = Vec::new();
    if doc_type.has_recipient() {
        push_text(
            &mut points,
            "มีคำขึ้นต้นที่ถูกต้อง (เรียน/กราบเรียน/กราบนมัสการ/กราบบังคมทูล)".to_owned(),
        );
        push_text(&mut points, "มีคำลงท้ายที่ถูกต้อง".to_owned());
        push_text(&mut points, "เนื้อความอ่านเข้าใจได้ เหมาะสมกับระดับผู้รับ".to_owned());
        push_text(
            &mut points,
            "ครบถ้วน: เลขที่, วันที่, เรื่อง, เนื้อความ, ลงชื่อ, ตำแหน่ง".to_owned(),
        );
    } else {
        push_text(&mut points, "มีเลขที่ รายการข้อ วันที่ ผู้ลงนาม ตำแหน่ง".to_owned());
        push_text(&mut points, "เนื้อความเป็นข้อ ๆ ชัดเจน".to_owned());
    }
    assert(texts(points@) =~= checklist(doc_type));
    points
}

/// What the model is asked for a review.
pub fn build_critic_prompt(doc: &Json, doc_type: DocType) -> (r: String)
    ensures
        r@ == critic_prompt(doc@, doc_type),
{
    let mut parts: Vec<String> = Vec::new();
    push_text(&mut parts, "ตรวจสอบ JSON หนังสือราชการต่อไปนี้:".to_owned());
    push_text(&mut parts, doc.to_pretty_text());
    push_text(&mut parts, String::new());
    push_text(&mut parts, "รายการตรวจสอบ:".to_owned());
    let points = checklist_of(doc_type);
    let ghost head = seq![
        "ตรวจสอบ JSON หนังสือราชการต่อไปนี้:"@,
        json_pretty_text(doc@),
        Seq::<char>::empty(),
        "รายการตรวจสอบ:"@,
    ];
    let ghost all = texts(points@);
    assert(texts(parts@) =~= head + numbered(all.take(0)));
    let mut i: usize = 0;
    while i < points.len()
        invariant
            i <= points@.len(),
            all == texts(points@),
            texts(parts@) == head + numbered(all.take(i as int)),
        decreases points@.len() - i,
    {
        let number = show_usize(i + 1);
        push_text(&mut parts, cat3(number.as_str(), ". ", points[i].as_str()));
        proof {
            let next = all.take(i as int + 1);
            assert(next.drop_last() =~= all.take(i as int));
            assert(texts(parts@) =~= head + numbered(next));
        }
        i += 1;
    }
    assert(all.take(all.len() as int) =~= all);
    let ghost listed = texts(parts@);
    push_text(&mut parts, String::new());
    push_text(
        &mut parts,
        "ตอบเป็น JSON: {\"passed\": true/false, \"issues\": [\"...\"], \"suggestions\": [\"...\"]}".to_owned(),
    );
    assert(texts(parts@) =~= listed + seq![
        Seq::<char>::empty(),
        "ตอบเป็น JSON: {\"passed\": true/false, \"issues\": [\"...\"], \"suggestions\": [\"...\"]}"@,
    ]);
    join(&parts, "\n")
}

/// The suggestions as a list with dashes.
pub open spec fn dashed(suggestions: Seq<Seq<char>>) -> Seq<Seq<char>> {
    Seq::new(suggestions.len(), |i: int| "- "@ + suggestions[i])
}

/// What the model is asked for another draft: the first question, and what the
/// critic suggests.
pub open spec fn feedback_prompt(prompt: Seq<char>, suggestions: Seq<Seq<char>>) -> Seq<char> {
    prompt + "\n\nข้อแก้ไขจากผู้ตรวจ:\n"@ + joined(dashed(suggestions), "\n"@)
}

/// What the model is asked for another draft.
pub fn build_feedback_prompt(prompt: &str, suggestions: &Vec<String>) -> (r: String)
    ensures
        r@ == feedback_prompt(prompt@, texts(suggestions@)),
{
    let mut lines: Vec<String> = Vec::new();
    let ghost all = dashed(texts(suggestions@));
    assert(texts(lines@) =~= all.take(0));
    let mut i: usize = 0;
    while i < suggestions.len()
        invariant
            i <= suggestions@.len(),
            all == dashed(texts(suggestions@)),
            texts(lines@) == all.take(i as int),
        decreases suggestions@.len() - i,
    {
        push_text(&mut lines, cat2("- ", suggestions[i].as_str()));
        assert(texts(lines@) =~= all.take(i as int + 1));
        i += 1;
    }
    assert(all.take(all.len() as int) =~= all);
    cat3(prompt, "\n\nข้อแก้ไขจากผู้ตรวจ:\n", join(&lines, "\n").as_str())
}

/// The examples of a prompt are among its parts.
proof fn lemma_example_part(examples: Seq<JsonView>, i: int) -> (k: int)
    requires
        0 <= i < examples.len(),
    ensures
        1 <= k < example_parts(examples).len(),
        example_parts(examples)[k] == json_pretty_text(examples[i]),
        example_parts(examples)[k - 1] == "--- ตัวอย่าง "@ + digits((i + 1) as nat) + " ---"@,
    decreases examples.len(),
{
    let before = example_parts(examples.drop_last());
    if i == examples.len() - 1 {
        assert(examples.last() == examples[i]);
        before.len() as int + 1
    } else {
        let k = lemma_example_part(examples.drop_last(), i);
        assert(examples.drop_last()[i] == examples[i]);
        assert(example_parts(examples)[k] == before[k]);
        assert(example_parts(examples)[k - 1] == before[k - 1]);
        k
    }
}

/// The prompt for a draft shows the schema that the draft is to follow, and every
/// example that was found, under its number.
pub proof fn law_prompt_shows_schema_and_examples(
    req: DocRequest,
    examples: Seq<JsonView>,
    schema: JsonView,
    i: int,
)
    requires
        0 <= i < examples.len(),
    ensures
        has_text(generator_prompt(req, examples, schema), json_pretty_text(schema)),
        has_text(generator_prompt(req, examples, schema), json_pretty_text(examples[i])),
        has_text(
            generator_prompt(req, examples, schema),
            "--- ตัวอย่าง "@ + digits((i + 1) as nat) + " ---"@ + "\n"@ + json_pretty_text(examples[i]),
        ),
{
    let tail = seq![
        Seq::<char>::empty(),
        "Schema JSON ที่ต้องเอาต์พุต:"@,
        json_pretty_text(schema),
    ] + example_section(examples);
    lemma_generator_parts(req, examples, schema, tail);
    let head = labelled_up_to(
        opening_line(req.doc_type),
        request_labels(),
        request_values(req),
        7,
    );
    let all = head + tail;
    let n = head.len() as int;
    assert(all[n + 2] == tail[2]);
    lemma_joined_holds(all, "\n"@, n + 2);
    let k = lemma_example_part(examples, i);
    let section = example_section(examples);
    assert(section[2 + k] == example_parts(examples)[k]);
    assert(tail[3 + 2 + k] == section[2 + k]);
    assert(all[n + 5 + k] == tail[5 + k]);
    lemma_joined_holds(all, "\n"@, n + 5 + k);
    assert(section[2 + k - 1] == example_parts(examples)[k - 1]);
    assert(tail[3 + 2 + k - 1] == section[2 + k - 1]);
    assert(all[n + 5 + k - 1] == tail[5 + k - 1]);
    lemma_joined_pair(all, "\n"@, n + 5 + k - 1);
}

/// The summary by which similar documents are found tells the kind, the subject,
/// the purpose, the context and the recipient of the request: the agency that it
/// goes to, and where none is named, the person.
pub proof fn law_query_tells_of_the_request(req: DocRequest)
    ensures
        ({
            let query = query_summary(req);
            &&& begins_with(query, "ประเภท"@ + ": "@ + req.doc_type.thai())
            &&& req.subject@.len() > 0 ==> has_text(query, "เรื่อง"@ + ": "@ + req.subject@)
            &&& req.purpose@.len() > 0 ==> has_text(query, "จุดประสงค์"@ + ": "@ + req.purpose@)
            &&& req.additional_context@.len() > 0 ==> has_text(
                query,
                "บริบท"@ + ": "@ + req.additional_context@,
            )
            &&& req.recipient_agency@.len() > 0 ==> has_text(
                query,
                "ผู้รับ"@ + ": "@ + req.recipient_agency@,
            )
            &&& req.recipient_agency@.len() == 0 && req.recipient_name@.len() > 0 ==> has_text(
                query,
                "ผู้รับ"@ + ": "@ + req.recipient_name@,
            )
        }),
{
    let kind = "ประเภท"@ + ": "@ + req.doc_type.thai();
    let l0 = seq![kind];
    let l1 = labelled("เรื่อง"@, req.subject@);
    let l2 = labelled("จุดประสงค์"@, req.purpose@);
    let l3 = labelled("ผู้รับ"@, recipient_of(req));
    let l4 = labelled("บริบท"@, req.additional_context@);
    let all = l0 + l1 + l2 + l3 + l4;
    let n1 = l0.len() as int;
    let n2 = n1 + l1.len();
    let n3 = n2 + l2.len();
    let n4 = n3 + l3.len();
    assert(all[0] == kind);
    let query = joined(all, " | "@);
    assert(query == query_summary(req));
    if all.len() == 1 {
        assert(query == kind);
        assert(kind.subrange(0, kind.len() as int) =~= kind);
    } else {
        lemma_joined_front(all, " | "@);
        lemma_begins_with_concat(kind, " | "@ + joined(all.drop_first(), " | "@));
        assert(kind + (" | "@ + joined(all.drop_first(), " | "@)) =~= query);
    }
    if l1.len() > 0 {
        assert(all[n1] == l1[0]);
        lemma_joined_holds(all, " | "@, n1);
    }
    if l2.len() > 0 {
        assert(all[n2] == l2[0]);
        lemma_joined_holds(all, " | "@, n2);
    }
    if l3.len() > 0 {
        assert(all[n3] == l3[0]);
        lemma_joined_holds(all, " | "@, n3);
    }
    if l4.len() > 0 {
        assert(all[n4] == l4[0]);
        lemma_joined_holds(all, " | "@, n4);
    }
}

// ---------------------------------------------------------------------------
// The fixed forms of address
// ---------------------------------------------------------------------------

/// A draft with the salutation and the closing that the recipient is owed.
pub open spec fn ruled(draft: JsonView, class: RecipientClass) -> JsonView {
    draft.with("salutation"@, JsonView::Text(salutation(class))).with(
        "closing"@,
        JsonView::Text(closing(class)),
    )
}

/// Puts the salutation and the closing that the recipient is owed into a draft.
pub fn apply_deterministic_rules(draft: &mut Json, recipient_class: &RecipientClass)
    ensures
        final(draft)@ == ruled(old(draft)@, *recipient_class),
{
    draft.insert("salutation", Json::text(lookup_salutation(recipient_class)));
    draft.insert("closing", Json::text(lookup_closing(recipient_class)));
}

/// The two forms of address are the only fields that the rules touch, and they
/// are the ones that the recipient is owed whatever the draft said.
pub proof fn law_rules_fix_the_address(draft: JsonView, class: RecipientClass, field: Seq<char>)
    requires
        draft is Object,
    ensures
        ruled(draft, class).member("salutation"@) == Some(JsonView::Text(salutation(class))),
        ruled(draft, class).member("closing"@) == Some(JsonView::Text(closing(class))),
        field != "salutation"@ && field != "closing"@ ==> ruled(draft, class).member(field)
            == draft.member(field),
        ruled(ruled(draft, class), class) == ruled(draft, class),
{
    reveal_strlit("salutation");
    reveal_strlit("closing");
    assert("salutation"@.len() != "closing"@.len());
    let once = ruled(draft, class);
    let twice = ruled(once, class);
    assert(twice->Object_0 =~= once->Object_0);
}

// ---------------------------------------------------------------------------
// The run
// ---------------------------------------------------------------------------

/// One step of a run, as it is reported to the caller.
#[derive(Debug)]
pub struct TraceEvent {
    pub step: String,
    pub detail: Json,
}

/// What a step of a run is.
pub struct TraceView {
    pub step: Seq<char>,
    pub detail: JsonView,
}

impl TraceEvent {
    pub open spec fn view(&self) -> TraceView {
        TraceView { step: self.step@, detail: self.detail@ }
    }
}

/// The steps of a list.
pub open spec fn steps(trace: Seq<TraceEvent>) -> Seq<TraceView> {
    Seq::new(trace.len(), |i: int| trace[i]@)
}

/// How a run is to be done.
#[derive(Clone, Copy, Debug, PartialEq, Eq, Structural)]
pub struct GenerationOptions {
    pub max_rounds: usize,
    pub use_critic: bool,
}

impl Default for GenerationOptions {
    fn default() -> (r: GenerationOptions)
        ensures
            r.max_rounds == 3,
            r.use_critic,
    {
        GenerationOptions { max_rounds: 3, use_critic: true }
    }
}

impl GenerationOptions {
    /// The options for a request: three rounds, with a critic unless the
    /// request declines one.
    pub fn for_request(req: &DocRequest) -> (r: GenerationOptions)
        ensures
            r.max_rounds == 3,
            r.use_critic == (req.use_critic != Some(false)),
    {
        let use_critic = match req.use_critic {
            Some(choice) => choice,
            None => true,
        };
        GenerationOptions { max_rounds: 3, use_critic }
    }
}

/// Why a run failed.
#[derive(Debug)]
pub enum GenerationError {
    /// The language model could not be asked, or gave no usable answer.
    Llm(String),
    /// A review or the document does not have the right shape.
    Validation(String),
    /// No review passed in the rounds allowed.
    CriticLoopExceeded(usize),
}

/// Why a run failed.
pub enum ErrorView {
    Llm(Seq<char>),
    Validation(Seq<char>),
    CriticLoopExceeded(nat),
}

impl ErrorView {
    /// What is said of the failure.
    pub open spec fn message(self) -> Seq<char> {
        match self {
            ErrorView::Llm(e) => "LLM error: "@ + e,
            ErrorView::Validation(e) => "validation error: "@ + e,
            ErrorView::CriticLoopExceeded(n) => "ไม่ผ่านการตรวจหลัง "@ + digits(n)
                + " รอบ ส่งต่อให้มนุษย์ตรวจสอบ"@,
        }
    }
}

impl GenerationError {
    pub open spec fn view(&self) -> ErrorView {
        match self {
            GenerationError::Llm(e) => ErrorView::Llm(e@),
            GenerationError::Validation(e) => ErrorView::Validation(e@),
            GenerationError::CriticLoopExceeded(n) => ErrorView::CriticLoopExceeded(*n as nat),
        }
    }

    /// What is said of the failure.
    pub fn message(&self) -> (r: String)
        ensures
            r@ == self@.message(),
    {
        match self {
            GenerationError::Llm(e) => cat2("LLM error: ", e.as_str()),
            GenerationError::Validation(e) => cat2("validation error: ", e.as_str()),
            GenerationError::CriticLoopExceeded(n) => cat3(
                "ไม่ผ่านการตรวจหลัง ",
                show_usize(*n).as_str(),
                " รอบ ส่งต่อให้มนุษย์ตรวจสอบ",
            ),
        }
    }
}

/// A question to the language model that is to be answered with JSON.
#[derive(Debug)]
pub struct LlmCall {
    pub system: String,
    pub user: String,
    pub schema: Json,
    pub max_tokens: usize,
}

/// What a question to the language model is.
pub struct CallView {
    pub system: Seq<char>,
    pub user: Seq<char>,
    pub schema: JsonView,
    pub max_tokens: nat,
}

impl LlmCall {
    pub open spec fn view(&self) -> CallView {
        CallView {
            system: self.system@,
            user: self.user@,
            schema: self.schema@,
            max_tokens: self.max_tokens as nat,
        }
    }
}

/// What stays the same in all states of a run, and what it has come to.
#[derive(Debug)]
pub struct Run {
    pub doc_type: DocType,
    pub recipient_class: RecipientClass,
    pub prompt: String,
    pub schema: Json,
    pub review_schema: Json,
    pub options: GenerationOptions,
    /// The number of reviews so far.
    pub round: usize,
    pub draft: Json,
    pub trace: Vec<TraceEvent>,
}

/// What a run is.
pub struct RunView {
    pub doc_type: DocType,
    pub class: RecipientClass,
    pub prompt: Seq<char>,
    pub schema: JsonView,
    pub review_schema: JsonView,
    pub options: GenerationOptions,
    pub round: nat,
    pub draft: JsonView,
    pub trace: Seq<TraceView>,
}

impl Run {
    pub open spec fn view(&self) -> RunView {
        RunView {
            doc_type: self.doc_type,
            class: self.recipient_class,
            prompt: self.prompt@,
            schema: self.schema@,
            review_schema: self.review_schema@,
            options: self.options,
            round: self.round as nat,
            draft: self.draft@,
            trace: steps(self.trace@),
        }
    }

    /// Adds a step to the trace.
    fn log(&mut self, step: &str, detail: Json)
        ensures
            final(self)@ == (RunView {
                trace: old(self)@.trace.push(TraceView { step: step@, detail: detail@ }),
                ..old(self)@
            }),
    {
        let ghost before = self.trace@;
        self.trace.push(TraceEvent { step: step.to_owned(), detail });
        assert(steps(self.trace@) =~= steps(before).push(
            TraceView { step: step@, detail: detail@ },
        ));
    }
}

/// The run waits for a draft.
#[derive(Debug)]
pub struct DraftPending {
    pub run: Run,
    pub call: LlmCall,
}

/// The run waits for review `number`.
#[derive(Debug)]
pub struct ReviewPending {
    pub run: Run,
    pub number: usize,
    pub call: LlmCall,
}

/// The run waits for word whether its draft has the shape of its kind.
#[derive(Debug)]
pub struct ValidationPending {
    pub run: Run,
}

/// A finished document.
#[derive(Debug)]
pub struct Generated {
    pub doc: Json,
    pub trace: Vec<TraceEvent>,
}

/// A failed run.
#[derive(Debug)]
pub struct Failed {
    pub error: GenerationError,
    pub trace: Vec<TraceEvent>,
}

/// The state of a run.
#[derive(Debug)]
pub enum Generation {
    Draft(DraftPending),
    Review(ReviewPending),
    Validate(ValidationPending),
    Done(Generated),
    Failed(Failed),
}

/// What the state of a run is.
pub enum StateView {
    Draft { run: RunView, call: CallView },
    Review { run: RunView, number: nat, call: CallView },
    Validate { run: RunView },
    Done { doc: JsonView, trace: Seq<TraceView> },
    Failed { error: ErrorView, trace: Seq<TraceView> },
}

impl Generation {
    pub open spec fn view(&self) -> StateView {
        match self {
            Generation::Draft(s) => StateView::Draft { run: s.run@, call: s.call@ },
            Generation::Review(s) => StateView::Review {
                run: s.run@,
                number: s.number as nat,
                call: s.call@,
            },
            Generation::Validate(s) => StateView::Validate { run: s.run@ },
            Generation::Done(s) => StateView::Done { doc: s.doc@, trace: steps(s.trace@) },
            Generation::Failed(s) => StateView::Failed {
                error: s.error@,
                trace: steps(s.trace@),
            },
        }
    }
}

/// A JSON number.
pub open spec fn count(n: nat) -> JsonView {
    JsonView::Number(NumberView::Unsigned(n as u64))
}

/// The step that reports how many examples were found.
pub open spec fn retrieval_step(examples: nat) -> TraceView {
    TraceView { step: "retrieval"@, detail: empty_object().with("examples"@, count(examples)) }
}

/// The step that reports a draft after `round` reviews.
pub open spec fn draft_step(round: nat) -> TraceView {
    TraceView {
        step: "generate"@,
        detail: empty_object().with("round"@, count(round)).with(
            "detail"@,
            JsonView::Text(
                if round == 0 {
                    "ร่างแรก"@
                } else {
                    "แก้ตามข้อติงของ critic"@
                },
            ),
        ),
    }
}

/// The step that reports review `number`.
pub open spec fn review_step(
    number: nat,
    passed: bool,
    issues: Seq<Seq<char>>,
    suggestions: Seq<Seq<char>>,
) -> TraceView {
    TraceView {
        step: "critic"@,
        detail: empty_object().with("round"@, count(number)).with(
            "passed"@,
            JsonView::Bool(passed),
        ).with("issues"@, text_array(issues)).with("suggestions"@, text_array(suggestions)),
    }
}

/// The step that reports that there is no review.
pub open spec fn skipped_step() -> TraceView {
    TraceView {
        step: "critic"@,
        detail: empty_object().with("skipped"@, JsonView::Bool(true)).with(
            "detail"@,
            JsonView::Text("โหมด single-agent — ข้ามการตรวจ"@),
        ),
    }
}

/// The question for a draft.
pub open spec fn draft_call(run: RunView, user: Seq<char>) -> CallView {
    CallView {
        system: GENERATOR_SYSTEM_PROMPT@,
        user,
        schema: run.schema,
        max_tokens: DRAFT_TOKENS as nat,
    }
}

/// The question for a review.
pub open spec fn review_call(run: RunView) -> CallView {
    CallView {
        system: CRITIC_SYSTEM_PROMPT@,
        user: critic_prompt(run.draft, run.doc_type),
        schema: run.review_schema,
        max_tokens: REVIEW_TOKENS as nat,
    }
}

/// The state in which a run begins, once the examples are found.
pub open spec fn started(
    req: DocRequest,
    examples: Seq<JsonView>,
    schema: JsonView,
    review_schema: JsonView,
    options: GenerationOptions,
) -> StateView {
    let run = RunView {
        doc_type: req.doc_type,
        class: req.recipient_class,
        prompt: generator_prompt(req, examples, schema),
        schema,
        review_schema,
        options,
        round: 0,
        draft: JsonView::Null,
        trace: seq![retrieval_step(examples.len())],
    };
    StateView::Draft { run, call: draft_call(run, run.prompt) }
}

/// The state after a draft was accepted: the forms of address are put in, and
/// the document is to be validated.
pub open spec fn accepted(run: RunView) -> StateView {
    StateView::Validate { run: RunView { draft: ruled(run.draft, run.class), ..run } }
}

/// The state after a draft. Without a critic it is accepted; otherwise it is to
/// be reviewed, unless all rounds have been used up.
pub open spec fn drafted(run: RunView, draft: JsonView) -> StateView {
    let run = RunView { draft, trace: run.trace.push(draft_step(run.round)), ..run };
    if !run.options.use_critic {
        accepted(RunView { trace: run.trace.push(skipped_step()), ..run })
    } else if run.round < run.options.max_rounds {
        StateView::Review { run, number: run.round + 1, call: review_call(run) }
    } else {
        StateView::Failed {
            error: ErrorView::CriticLoopExceeded(run.options.max_rounds as nat),
            trace: run.trace,
        }
    }
}

/// The state after a review. A draft that passed is accepted; otherwise another
/// draft is asked for that heeds the suggestions.
pub open spec fn reviewed(
    run: RunView,
    number: nat,
    passed: bool,
    issues: Seq<Seq<char>>,
    suggestions: Seq<Seq<char>>,
) -> StateView {
    let run = RunView {
        round: number,
        trace: run.trace.push(review_step(number, passed, issues, suggestions)),
        ..run
    };
    if passed {
        accepted(run)
    } else {
        StateView::Draft {
            run,
            call: draft_call(run, feedback_prompt(run.prompt, suggestions)),
        }
    }
}

/// The state after a failure.
pub open spec fn failed(run: RunView, error: ErrorView) -> StateView {
    StateView::Failed { error, trace: run.trace }
}

/// Begins a run: `examples` are the documents found for the request, `schema`
/// and `review_schema` describe the JSON that drafts and reviews are to be.
pub fn generate_document_json(
    req: &DocRequest,
    examples: &Vec<Json>,
    schema: Json,
    review_schema: Json,
    options: GenerationOptions,
) -> (r: Generation)
    ensures
        r@ == started(
            *req,
            crate::json::items_view(examples@),
            schema@,
            review_schema@,
            options,
        ),
{
    let prompt = build_generator_prompt(req, examples, &schema);
    let call = LlmCall {
        system: GENERATOR_SYSTEM_PROMPT.to_owned(),
        user: prompt.clone(),
        schema: schema.copy(),
        max_tokens: DRAFT_TOKENS,
    };
    let mut run = Run {
        doc_type: req.doc_type,
        recipient_class: req.recipient_class,
        prompt,
        schema,
        review_schema,
        options,
        round: 0,
        draft: Json::Null,
        trace: Vec::new(),
    };
    assert(steps(run.trace@) =~= Seq::empty());
    run.log(
        "retrieval",
        Json::object().with("examples", Json::unsigned(examples.len() as u64)),
    );
    assert(run@.trace =~= seq![retrieval_step(examples@.len())]);
    Generation::Draft(DraftPending { run, call })
}

/// Accepts the draft of a run.
fn accept(run: Run) -> (r: Generation)
    ensures
        r@ == accepted(run@),
{
    let mut run = run;
    apply_deterministic_rules(&mut run.draft, &run.recipient_class);
    Generation::Validate(ValidationPending { run })
}

impl DraftPending {
    /// Goes on with the draft, or with the reason why there is none.
    pub fn drafted(self, reply: Result<Json, String>) -> (r: Generation)
        ensures
            match reply {
                Ok(draft) => r@ == drafted(self.run@, draft@),
                Err(e) => r@ == failed(self.run@, ErrorView::Llm(e@)),
            },
    {
        let mut run = self.run;
        let draft = match reply {
            Ok(draft) => draft,
            Err(e) => {
                return Generation::Failed(
                    Failed { error: GenerationError::Llm(e), trace: run.trace },
                );
            },
        };
        let note = if run.round == 0 {
            "ร่างแรก"
        } else {
            "แก้ตามข้อติงของ critic"
        };
        let detail = Json::object().with("round", Json::unsigned(run.round as u64)).with(
            "detail",
            Json::text(note),
        );
        run.draft = draft;
        run.log("generate", detail);
        if !run.options.use_critic {
            let detail = Json::object().with("skipped", Json::Bool(true)).with(
                "detail",
                Json::text("โหมด single-agent — ข้ามการตรวจ"),
            );
            run.log("critic", detail);
            return accept(run);
        }
        if run.round < run.options.max_rounds {
            let call = LlmCall {
                system: CRITIC_SYSTEM_PROMPT.to_owned(),
                user: build_critic_prompt(&run.draft, run.doc_type),
                schema: run.review_schema.copy(),
                max_tokens: REVIEW_TOKENS,
            };
            let number: usize = run.round + 1;
            return Generation::Review(ReviewPending { run, number, call });
        }
        let error = GenerationError::CriticLoopExceeded(run.options.max_rounds);
        Generation::Failed(Failed { error, trace: run.trace })
    }
}

/// What came of asking for a review.
#[derive(Debug)]
pub enum ReviewReply {
    /// The model could not be asked.
    Unavailable(String),
    /// The answer does not have the shape of a review.
    Malformed(String),
    /// A review.
    Review(CriticReview),
}

impl ReviewPending {
    /// Goes on with the review, or with the reason why there is none.
    pub fn reviewed(self, reply: ReviewReply) -> (r: Generation)
        ensures
            match reply {
                ReviewReply::Unavailable(e) => r@ == failed(self.run@, ErrorView::Llm(e@)),
                ReviewReply::Malformed(e) => r@ == failed(self.run@, ErrorView::Validation(e@)),
                ReviewReply::Review(review) => r@ == reviewed(
                    self.run@,
                    self.number as nat,
                    review.passed,
                    texts(review.issues@),
                    texts(review.suggestions@),
                ),
            },
    {
        let mut run = self.run;
        let review = match reply {
            ReviewReply::Unavailable(e) => {
                return Generation::Failed(
                    Failed { error: GenerationError::Llm(e), trace: run.trace },
                );
            },
            ReviewReply::Malformed(e) => {
                return Generation::Failed(
                    Failed { error: GenerationError::Validation(e), trace: run.trace },
                );
            },
            ReviewReply::Review(review) => review,
        };
        let detail = Json::object().with("round", Json::unsigned(self.number as u64)).with(
            "passed",
            Json::Bool(review.passed),
        ).with("issues", Json::texts(&review.issues)).with(
            "suggestions",
            Json::texts(&review.suggestions),
        );
        run.round = self.number;
        run.log("critic", detail);
        if review.passed {
            return accept(run);
        }
        let call = LlmCall {
            system: GENERATOR_SYSTEM_PROMPT.to_owned(),
            user: build_feedback_prompt(run.prompt.as_str(), &review.suggestions),
            schema: run.schema.copy(),
            max_tokens: DRAFT_TOKENS,
        };
        Generation::Draft(DraftPending { run, call })
    }
}

impl ValidationPending {
    /// Ends the run, with its document or with the reason why the document does
    /// not have the shape of its kind.
    pub fn validated(self, verdict: Result<(), String>) -> (r: Generation)
        ensures
            match verdict {
                Ok(_) => r@ == (StateView::Done { doc: self.run@.draft, trace: self.run@.trace }),
                Err(e) => r@ == failed(self.run@, ErrorView::Validation(e@)),
            },
    {
        match verdict {
            Ok(_) => Generation::Done(Generated { doc: self.run.draft, trace: self.run.trace }),
            Err(e) => Generation::Failed(
                Failed { error: GenerationError::Validation(e), trace: self.run.trace },
            ),
        }
    }
}

// ---------------------------------------------------------------------------
// Whole runs
// ---------------------------------------------------------------------------

/// What came of asking for a review.
pub enum ReviewView {
    Unavailable(Seq<char>),
    Malformed(Seq<char>),
    Review { passed: bool, issues: Seq<Seq<char>>, suggestions: Seq<Seq<char>> },
}

/// All that a run is told: the draft after each number of reviews, each review,
/// and what is wrong with the shape of a document.
pub struct Answers {
    pub draft: spec_fn(nat) -> Result<JsonView, Seq<char>>,
    pub review: spec_fn(nat) -> ReviewView,
    pub verdict: spec_fn(JsonView) -> Result<(), Seq<char>>,
}

/// The state after one more answer.
pub open spec fn stepped(state: StateView, answers: Answers) -> StateView {
    match state {
        StateView::Draft { run, call } => match (answers.draft)(run.round) {
            Ok(draft) => drafted(run, draft),
            Err(e) => failed(run, ErrorView::Llm(e)),
        },
        StateView::Review { run, number, call } => match (answers.review)(number) {
            ReviewView::Unavailable(e) => failed(run, ErrorView::Llm(e)),
            ReviewView::Malformed(e) => failed(run, ErrorView::Validation(e)),
            ReviewView::Review { passed, issues, suggestions } => reviewed(
                run,
                number,
                passed,
                issues,
                suggestions,
            ),
        },
        StateView::Validate { run } => match (answers.verdict)(run.draft) {
            Ok(_) => StateView::Done { doc: run.draft, trace: run.trace },
            Err(e) => failed(run, ErrorView::Validation(e)),
        },
        end => end,
    }
}

/// The state after `n` more answers.
pub open spec fn after(state: StateView, answers: Answers, n: nat) -> StateView
    decreases n,
{
    if n == 0 {
        state
    } else {
        after(stepped(state, answers), answers, (n - 1) as nat)
    }
}

/// Whether a run is over.
pub open spec fn ended(state: StateView) -> bool {
    state is Done || state is Failed
}

/// How many answers a run can still take, at most.
spec fn remaining(state: StateView) -> int {
    match state {
        StateView::Draft { run, call } => 2 * (run.options.max_rounds - run.round) + 3,
        StateView::Review { run, number, call } => 2 * (run.options.max_rounds - run.round) + 2,
        StateView::Validate { run } => 1,
        _ => 0,
    }
}

/// What every state of a run for a recipient keeps: the rounds are within
/// bounds, and what is to be validated has its forms of address.
spec fn in_order(state: StateView, class: RecipientClass) -> bool {
    match state {
        StateView::Draft { run, call } => run.class == class && run.round
            <= run.options.max_rounds,
        StateView::Review { run, number, call } => run.class == class && number == run.round + 1
            && number <= run.options.max_rounds,
        StateView::Validate { run } => exists|d: JsonView| #[trigger] ruled(d, class) == run.draft,
        StateView::Done { doc, trace } => exists|d: JsonView| #[trigger] ruled(d, class) == doc,
        StateView::Failed { error, trace } => true,
    }
}

proof fn lemma_step_in_order(state: StateView, answers: Answers, class: RecipientClass)
    requires
        in_order(state, class),
    ensures
        in_order(stepped(state, answers), class),
        !ended(state) ==> 0 <= remaining(stepped(state, answers)) < remaining(state),
{
}

proof fn lemma_after_in_order(state: StateView, answers: Answers, class: RecipientClass, n: nat)
    requires
        in_order(state, class),
    ensures
        in_order(after(state, answers, n), class),
        n >= remaining(state) ==> ended(after(state, answers, n)),
    decreases n,
{
    if n > 0 {
        lemma_step_in_order(state, answers, class);
        lemma_after_in_order(stepped(state, answers), answers, class, (n - 1) as nat);
        if ended(state) {
            assert(stepped(state, answers) == state);
        }
    }
}

/// How many drafts a run asks for before it has had `n` more answers.
pub open spec fn drafts_asked(state: StateView, answers: Answers, n: nat) -> nat
    decreases n,
{
    if n == 0 {
        0
    } else {
        let later = drafts_asked(stepped(state, answers), answers, (n - 1) as nat);
        if state is Draft {
            later + 1
        } else {
            later
        }
    }
}

/// How many reviews a run asks for before it has had `n` more answers.
pub open spec fn reviews_asked(state: StateView, answers: Answers, n: nat) -> nat
    decreases n,
{
    if n == 0 {
        0
    } else {
        let later = reviews_asked(stepped(state, answers), answers, (n - 1) as nat);
        if state is Review {
            later + 1
        } else {
            later
        }
    }
}

/// How many drafts a run can still ask for, at most.
spec fn drafts_left(state: StateView) -> int {
    match state {
        StateView::Draft { run, call } => run.options.max_rounds - run.round + 1,
        StateView::Review { run, number, call } => run.options.max_rounds - run.round,
        _ => 0,
    }
}

/// How many reviews a run can still ask for, at most.
spec fn reviews_left(state: StateView) -> int {
    match state {
        StateView::Draft { run, call } => run.options.max_rounds - run.round,
        StateView::Review { run, number, call } => run.options.max_rounds - run.round,
        _ => 0,
    }
}

proof fn lemma_questions_bounded(state: StateView, answers: Answers, class: RecipientClass, n: nat)
    requires
        in_order(state, class),
    ensures
        drafts_asked(state, answers, n) <= drafts_left(state),
        reviews_asked(state, answers, n) <= reviews_left(state),
    decreases n,
{
    if n > 0 {
        lemma_step_in_order(state, answers, class);
        lemma_questions_bounded(stepped(state, answers), answers, class, (n - 1) as nat);
    }
}

/// Whatever the answers are, a run ends: it asks for no more drafts than the
/// rounds allowed and one, and for no more reviews than the rounds allowed.
pub proof fn law_run_ends(
    req: DocRequest,
    examples: Seq<JsonView>,
    schema: JsonView,
    review_schema: JsonView,
    options: GenerationOptions,
    answers: Answers,
    n: nat,
)
    ensures
        ({
            let state = started(req, examples, schema, review_schema, options);
            &&& n >= 2 * options.max_rounds + 3 ==> ended(after(state, answers, n))
            &&& drafts_asked(state, answers, n) <= options.max_rounds + 1
            &&& reviews_asked(state, answers, n) <= options.max_rounds
        }),
{
    let state = started(req, examples, schema, review_schema, options);
    lemma_after_in_order(state, answers, req.recipient_class, n);
    lemma_questions_bounded(state, answers, req.recipient_class, n);
}

/// Whatever the model wrote, a finished document addresses its recipient in the
/// forms that the recipient is owed.
pub proof fn law_document_addresses_recipient(
    req: DocRequest,
    examples: Seq<JsonView>,
    schema: JsonView,
    review_schema: JsonView,
    options: GenerationOptions,
    answers: Answers,
    n: nat,
)
    ensures
        after(started(req, examples, schema, review_schema, options), answers, n) matches
            StateView::Done { doc, trace } ==> doc is Object ==> {
            &&& doc.member("salutation"@) == Some(JsonView::Text(salutation(req.recipient_class)))
            &&& doc.member("closing"@) == Some(JsonView::Text(closing(req.recipient_class)))
        },
{
    let state = started(req, examples, schema, review_schema, options);
    lemma_after_in_order(state, answers, req.recipient_class, n);
    match after(state, answers, n) {
        StateView::Done { doc, trace } => {
            if doc is Object {
                let d = choose|d: JsonView| #[trigger] ruled(d, req.recipient_class) == doc;
                assert(d is Object);
                law_rules_fix_the_address(d, req.recipient_class, Seq::empty());
            }
        },
        _ => {},
    }
}

/// Without a critic the first draft is the document, if it has the shape of its
/// kind, and the trace says that the review was left out.
pub proof fn law_without_critic_first_draft_is_final(
    req: DocRequest,
    examples: Seq<JsonView>,
    schema: JsonView,
    review_schema: JsonView,
    options: GenerationOptions,
    answers: Answers,
    draft: JsonView,
)
    requires
        !options.use_critic,
        (answers.draft)(0) == Ok::<JsonView, Seq<char>>(draft),
        (answers.verdict)(ruled(draft, req.recipient_class)) is Ok,
    ensures
        after(started(req, examples, schema, review_schema, options), answers, 2) == (
        StateView::Done {
            doc: ruled(draft, req.recipient_class),
            trace: seq![retrieval_step(examples.len()), draft_step(0), skipped_step()],
        }),
{
    reveal_with_fuel(after, 3);
    let t = seq![retrieval_step(examples.len())];
    assert(t.push(draft_step(0)).push(skipped_step()) =~= seq![
        retrieval_step(examples.len()),
        draft_step(0),
        skipped_step(),
    ]);
}

/// Whether a review is a review that found fault.
pub open spec fn faulted(review: ReviewView) -> bool {
    review matches ReviewView::Review { passed, issues, suggestions } && !passed
}

/// The trace of a run up to review `k`, where each draft came back and each
/// review had the shape of one.
pub open spec fn trace_of_rounds(examples: nat, answers: Answers, k: nat) -> Seq<TraceView>
    decreases k,
{
    if k == 0 {
        seq![retrieval_step(examples)]
    } else {
        let before = trace_of_rounds(examples, answers, (k - 1) as nat).push(
            draft_step((k - 1) as nat),
        );
        match (answers.review)(k) {
            ReviewView::Review { passed, issues, suggestions } => before.push(
                review_step(k, passed, issues, suggestions),
            ),
            _ => before,
        }
    }
}

/// The state after `a` and then `b` more answers.
proof fn lemma_after_sum(state: StateView, answers: Answers, a: nat, b: nat)
    ensures
        after(state, answers, a + b) == after(after(state, answers, a), answers, b),
    decreases a,
{
    if a > 0 {
        lemma_after_sum(stepped(state, answers), answers, (a - 1) as nat, b);
        assert((a + b - 1) as nat == (a - 1) as nat + b);
    }
}

/// The state of a run after `k` reviews that found fault: it waits for the next
/// draft.
proof fn lemma_after_faults(
    req: DocRequest,
    examples: Seq<JsonView>,
    schema: JsonView,
    review_schema: JsonView,
    options: GenerationOptions,
    answers: Answers,
    k: nat,
)
    requires
        options.use_critic,
        k <= options.max_rounds,
        forall|i: nat| i < k ==> (#[trigger] (answers.draft)(i)) is Ok,
        forall|i: nat| 0 < i <= k ==> faulted(#[trigger] (answers.review)(i)),
    ensures
        after(started(req, examples, schema, review_schema, options), answers, 2 * k) matches
            StateView::Draft { run, call } && run.round == k && run.class == req.recipient_class
            && run.options == options && run.trace == trace_of_rounds(examples.len(), answers, k),
    decreases k,
{
    let state = started(req, examples, schema, review_schema, options);
    if k > 0 {
        lemma_after_faults(
            req,
            examples,
            schema,
            review_schema,
            options,
            answers,
            (k - 1) as nat,
        );
        lemma_after_sum(state, answers, (2 * (k - 1)) as nat, 2);
        assert((2 * (k - 1)) as nat + 2 == 2 * k);
        reveal_with_fuel(after, 3);
        assert((answers.draft)((k - 1) as nat) is Ok);
        assert(faulted((answers.review)(k)));
    }
}

/// A draft that passes its review in any of the rounds allowed, and has the
/// shape of its kind, is the document, with the forms of address put in; and
/// the trace tells of every draft and every review up to then.
pub proof fn law_passing_review_ends_the_run(
    req: DocRequest,
    examples: Seq<JsonView>,
    schema: JsonView,
    review_schema: JsonView,
    options: GenerationOptions,
    answers: Answers,
    k: nat,
    draft: JsonView,
)
    requires
        options.use_critic,
        0 < k <= options.max_rounds,
        forall|i: nat| i < k ==> (#[trigger] (answers.draft)(i)) is Ok,
        (answers.draft)((k - 1) as nat) == Ok::<JsonView, Seq<char>>(draft),
        forall|i: nat| 0 < i < k ==> faulted(#[trigger] (answers.review)(i)),
        (answers.review)(k) matches ReviewView::Review { passed, issues, suggestions } && passed,
        (answers.verdict)(ruled(draft, req.recipient_class)) is Ok,
    ensures
        after(started(req, examples, schema, review_schema, options), answers, 2 * k + 1) == (
        StateView::Done {
            doc: ruled(draft, req.recipient_class),
            trace: trace_of_rounds(examples.len(), answers, k),
        }),
{
    let state = started(req, examples, schema, review_schema, options);
    lemma_after_faults(req, examples, schema, review_schema, options, answers, (k - 1) as nat);
    lemma_after_sum(state, answers, (2 * (k - 1)) as nat, 3);
    assert((2 * (k - 1)) as nat + 3 == 2 * k + 1);
    reveal_with_fuel(after, 4);
}

proof fn lemma_faulted_rounds(run: RunView, call: CallView, answers: Answers)
    requires
        run.options.use_critic,
        run.round <= run.options.max_rounds,
        forall|i: nat| (#[trigger] (answers.draft)(i)) is Ok,
        forall|i: nat|
            run.round < i <= run.options.max_rounds ==> faulted(#[trigger] (answers.review)(i)),
    ensures
        after(
            StateView::Draft { run, call },
            answers,
            (2 * (run.options.max_rounds - run.round) + 1) as nat,
        ) matches StateView::Failed { error, trace } && error == ErrorView::CriticLoopExceeded(
            run.options.max_rounds as nat,
        ),
    decreases run.options.max_rounds - run.round,
{
    let first = StateView::Draft { run, call };
    let left = (2 * (run.options.max_rounds - run.round) + 1) as nat;
    let second = stepped(first, answers);
    assert((answers.draft)(run.round) is Ok);
    if run.round < run.options.max_rounds {
        let third = stepped(second, answers);
        assert(faulted((answers.review)(run.round + 1)));
        match third {
            StateView::Draft { run: next, call: again } => {
                lemma_faulted_rounds(next, again, answers);
                reveal_with_fuel(after, 3);
                assert(after(first, answers, left) == after(third, answers, (left - 2) as nat));
            },
            _ => {},
        }
    } else {
        reveal_with_fuel(after, 2);
    }
}

/// When every review finds fault, the run fails once the rounds are used up,
/// and says how many there were.
pub proof fn law_rounds_run_out(
    req: DocRequest,
    examples: Seq<JsonView>,
    schema: JsonView,
    review_schema: JsonView,
    options: GenerationOptions,
    answers: Answers,
)
    requires
        options.use_critic,
        forall|i: nat| (#[trigger] (answers.draft)(i)) is Ok,
        forall|i: nat| 0 < i <= options.max_rounds ==> faulted(#[trigger] (answers.review)(i)),
    ensures
        after(
            started(req, examples, schema, review_schema, options),
            answers,
            (2 * options.max_rounds + 1) as nat,
        ) matches StateView::Failed { error, trace } && error == ErrorView::CriticLoopExceeded(
            options.max_rounds as nat,
        ),
{
    match started(req, examples, schema, review_schema, options) {
        StateView::Draft { run, call } => lemma_faulted_rounds(run, call, answers),
        _ => {},
    }
}

/// The trace of a state.
pub open spec fn trace_of(state: StateView) -> Seq<TraceView> {
    match state {
        StateView::Draft { run, call } => run.trace,
        StateView::Review { run, number, call } => run.trace,
        StateView::Validate { run } => run.trace,
        StateView::Done { doc, trace } => trace,
        StateView::Failed { error, trace } => trace,
    }
}

/// A step of a run adds to the trace and takes nothing back, and a run that
/// fails keeps the trace of what went before.
pub proof fn law_trace_only_grows(state: StateView, answers: Answers)
    ensures
        trace_of(state).is_prefix_of(trace_of(stepped(state, answers))),
{
}

/// A run with the model that answers by rule ends in the document that was asked
/// for: of the kind of the request, addressed to its recipient, signed by its
/// sender under the position given, about its subject, and with its purpose in
/// the first paragraph.
pub proof fn law_run_by_rule_ends_in_the_document_asked_for(
    req: DocRequest,
    examples: Seq<JsonView>,
    schema: JsonView,
    review_schema: JsonView,
    options: GenerationOptions,
    answers: Answers,
)
    requires
        one_line_values(req),
        started(req, examples, schema, review_schema, options) matches StateView::Draft {
            run,
            call,
        } ==> (answers.draft)(0) == Ok::<JsonView, Seq<char>>(fake_json(call.system, call.user)),
        options.use_critic ==> options.max_rounds > 0 && ((answers.review)(1) matches
            ReviewView::Review { passed, issues, suggestions } && passed),
        forall|doc: JsonView| (#[trigger] (answers.verdict)(doc)) is Ok,
    ensures
        after(
            started(req, examples, schema, review_schema, options),
            answers,
            if options.use_critic {
                3
            } else {
                2
            },
        ) matches StateView::Done { doc, trace } && {
            &&& doc.member("doc_type"@) == Some(JsonView::Text(req.doc_type.thai()))
            &&& plain(req.recipient_name@) && req.doc_type.is_letter() ==> doc.member(
                "recipient"@,
            ) == Some(JsonView::Text(req.recipient_name@))
            &&& plain(req.sender_name@) ==> doc.member("signer_name"@) == Some(
                JsonView::Text(req.sender_name@),
            )
            &&& plain(req.sender_position@) ==> doc.member("signer_position"@) == Some(
                JsonView::Text(req.sender_position@),
            )
            &&& plain(req.subject@) ==> doc.member(
                if req.doc_type.is_letter() {
                    "subject"@
                } else {
                    "title"@
                },
            ) == Some(JsonView::Text(req.subject@))
            &&& plain(req.purpose@) ==> (doc.member("body"@) matches Some(JsonView::Array(items))
                && items.len() > 0 && (items[0] matches JsonView::Text(first) && has_text(
                first,
                req.purpose@,
            )))
        },
{
    reveal_with_fuel(after, 4);
    let prompt = generator_prompt(req, examples, schema);
    let draft = fake_document(prompt);
    let class = req.recipient_class;
    lemma_drafts_by_rule(prompt);
    lemma_document_by_rule(prompt);
    law_prompt_gives_the_request_back(req, examples, schema);
    lemma_address_names_differ();
    law_rules_fix_the_address(draft, class, "doc_type"@);
    law_rules_fix_the_address(draft, class, "recipient"@);
    law_rules_fix_the_address(draft, class, "signer_name"@);
    law_rules_fix_the_address(draft, class, "signer_position"@);
    law_rules_fix_the_address(draft, class, "subject"@);
    law_rules_fix_the_address(draft, class, "title"@);
    law_rules_fix_the_address(draft, class, "body"@);
    assert((answers.verdict)(ruled(draft, class)) is Ok);
}

/// The forms of address stand under names of their own.
proof fn lemma_address_names_differ()
    ensures
        "salutation"@ != "doc_type"@,
        "salutation"@ != "recipient"@,
        "salutation"@ != "signer_name"@,
        "salutation"@ != "signer_position"@,
        "salutation"@ != "subject"@,
        "salutation"@ != "title"@,
        "salutation"@ != "body"@,
        "closing"@ != "doc_type"@,
        "closing"@ != "recipient"@,
        "closing"@ != "signer_name"@,
        "closing"@ != "signer_position"@,
        "closing"@ != "subject"@,
        "closing"@ != "title"@,
        "closing"@ != "body"@,
{
    reveal_strlit("salutation");
    reveal_strlit("closing");
    reveal_strlit("doc_type");
    reveal_strlit("recipient");
    reveal_strlit("signer_name");
    reveal_strlit("signer_position");
    reveal_strlit("subject");
    reveal_strlit("title");
    reveal_strlit("body");
    assert("salutation"@.len() != "doc_type"@.len());
    assert("salutation"@.len() != "recipient"@.len());
    assert("salutation"@.len() != "signer_name"@.len());
    assert("salutation"@.len() != "signer_position"@.len());
    assert("salutation"@.len() != "subject"@.len());
    assert("salutation"@.len() != "title"@.len());
    assert("salutation"@.len() != "body"@.len());
    assert("closing"@.len() != "doc_type"@.len());
    assert("closing"@.len() != "recipient"@.len());
    assert("closing"@.len() != "signer_name"@.len());
    assert("closing"@.len() != "signer_position"@.len());
    assert("closing"@.len() != "title"@.len());
    assert("closing"@.len() != "body"@.len());
    assert("closing"@[0] != "subject"@[0]);
}

/// Where there is a critic, a draft is reviewed as it is: the critic is shown the
/// whole draft, and is asked for a passing mark, for what is wrong and for what
/// to do about it.
pub proof fn law_critic_sees_the_draft(run: RunView, draft: JsonView)
    requires
        run.options.use_critic,
        run.round < run.options.max_rounds,
    ensures
        drafted(run, draft) matches StateView::Review { run: next, number, call } && {
            &&& next.draft == draft
            &&& number == run.round + 1
            &&& call.system == CRITIC_SYSTEM_PROMPT@
            &&& call.schema == run.review_schema
            &&& has_text(call.user, json_pretty_text(draft))
            &&& finishes_with(
                call.user,
                "ตอบเป็น JSON: {\"passed\": true/false, \"issues\": [\"...\"], \"suggestions\": [\"...\"]}"@,
            )
        },
{
    let head = seq![
        "ตรวจสอบ JSON หนังสือราชการต่อไปนี้:"@,
        json_pretty_text(draft),
        Seq::<char>::empty(),
        "รายการตรวจสอบ:"@,
    ];
    let points = numbered(checklist(run.doc_type));
    let last =
        "ตอบเป็น JSON: {\"passed\": true/false, \"issues\": [\"...\"], \"suggestions\": [\"...\"]}"@;
    let all = head + points + seq![Seq::<char>::empty(), last];
    assert(all[1] == json_pretty_text(draft));
    lemma_joined_holds(all, "\n"@, 1);
    assert(all.last() == last);
    let front = joined(all.drop_last(), "\n"@) + "\n"@;
    let none = Seq::<char>::empty();
    lemma_stands_between(front, last, none);
    assert(front + last + none =~= joined(all, "\n"@));
}

/// A draft that does not pass is asked for again: with the whole first question,
/// and with every suggestion of the critic, each on a line of its own.
pub proof fn law_next_draft_is_told_the_suggestions(
    run: RunView,
    number: nat,
    issues: Seq<Seq<char>>,
    suggestions: Seq<Seq<char>>,
    i: int,
)
    requires
        0 <= i < suggestions.len(),
    ensures
        reviewed(run, number, false, issues, suggestions) matches StateView::Draft {
            run: next,
            call,
        } && {
            &&& next.prompt == run.prompt
            &&& next.round == number
            &&& call.system == GENERATOR_SYSTEM_PROMPT@
            &&& call.schema == run.schema
            &&& begins_with(call.user, run.prompt)
            &&& has_text(call.user, "\n- "@ + suggestions[i])
        },
{
    let list = dashed(suggestions);
    let note = "\n\nข้อแก้ไขจากผู้ตรวจ:\n"@;
    let shown = joined(list, "\n"@);
    let user = feedback_prompt(run.prompt, suggestions);
    lemma_begins_with_concat(run.prompt, note + shown);
    assert(run.prompt + (note + shown) =~= user);
    reveal_strlit("\n- ");
    reveal_strlit("- ");
    reveal_strlit("\n");
    reveal_strlit("\n\nข้อแก้ไขจากผู้ตรวจ:\n");
    let front = run.prompt + note.drop_last();
    assert(note =~= note.drop_last() + "\n"@);
    assert(user =~= front + ("\n"@ + shown));
    assert(list[i] == "- "@ + suggestions[i]);
    assert("\n"@ + list[i] =~= "\n- "@ + suggestions[i]);
    lemma_line_of_list(list, i);
    lemma_still_holds(front, "\n"@ + shown, Seq::empty(), "\n"@ + list[i]);
    assert(front + ("\n"@ + shown) + Seq::<char>::empty() =~= user);
}

/// Each of joined lines stands behind a line feed where the text does.
proof fn lemma_line_of_list(list: Seq<Seq<char>>, i: int)
    requires
        0 <= i < list.len(),
    ensures
        has_text("\n"@ + joined(list, "\n"@), "\n"@ + list[i]),
    decreases list.len(),
{
    let feed = "\n"@;
    let none = Seq::<char>::empty();
    let n = list.len() - 1;
    let line = feed + list[i];
    let last = list[n];
    if n == 0 {
        assert(joined(list, feed) == last);
        lemma_stands_between(none, line, none);
        lemma_ends_empty(line);
    } else {
        let before = joined(list.drop_last(), feed);
        assert(joined(list, feed) == before + feed + last);
        lemma_regrouped(feed, before, feed, last);
        if i == n {
            lemma_stands_between(feed + before, line, none);
            lemma_ends_empty(feed + before + line);
        } else {
            lemma_line_of_list(list.drop_last(), i);
            assert(list.drop_last()[i] == list[i]);
            lemma_still_holds(none, feed + before, feed + last, line);
            lemma_ends_empty(feed + before);
        }
    }
}

/// Four texts in a row, taken in two ways.
proof fn lemma_regrouped(a: Seq<char>, b: Seq<char>, c: Seq<char>, d: Seq<char>)
    ensures
        a + (b + c + d) == a + b + (c + d),
{
    assert(a + (b + c + d) =~= a + b + (c + d));
}

/// A text with nothing on either side.
proof fn lemma_ends_empty(a: Seq<char>)
    ensures
        Seq::<char>::empty() + a == a,
        a + Seq::<char>::empty() == a,
{
    assert(Seq::<char>::empty() + a =~= a);
    assert(a + Seq::<char>::empty() =~= a);
}

/// The points of a list are numbered from one, in their order.
proof fn lemma_numbered(points: Seq<Seq<char>>)
    ensures
        numbered(points).len() == points.len(),
        forall|i: int|
            0 <= i < points.len() ==> #[trigger] numbered(points)[i] == digits((i + 1) as nat)
                + ". "@ + points[i],
    decreases points.len(),
{
    if points.len() > 0 {
        lemma_numbered(points.drop_last());
        let all = numbered(points);
        assert forall|i: int| 0 <= i < points.len() implies #[trigger] all[i] == digits(
            (i + 1) as nat,
        ) + ". "@ + points[i] by {
            if i < points.len() - 1 {
                assert(all[i] == numbered(points.drop_last())[i]);
            }
        }
    }
}

/// The critic is asked to check a letter for its salutation, its closing, its
/// wording and its completeness, and any other document for its completeness and
/// its clauses; each point has its number.
pub proof fn law_critic_checks_every_point(doc: JsonView, doc_type: DocType)
    ensures
        ({
            let prompt = critic_prompt(doc, doc_type);
            &&& doc_type.is_letter() ==> {
                &&& has_text(
                    prompt,
                    digits(1) + ". "@
                        + "มีคำขึ้นต้นที่ถูกต้อง (เรียน/กราบเรียน/กราบนมัสการ/กราบบังคมทูล)"@,
                )
                &&& has_text(prompt, digits(2) + ". "@ + "มีคำลงท้ายที่ถูกต้อง"@)
                &&& has_text(
                    prompt,
                    digits(3) + ". "@ + "เนื้อความอ่านเข้าใจได้ เหมาะสมกับระดับผู้รับ"@,
                )
                &&& has_text(
                    prompt,
                    digits(4) + ". "@
                        + "ครบถ้วน: เลขที่, วันที่, เรื่อง, เนื้อความ, ลงชื่อ, ตำแหน่ง"@,
                )
            }
            &&& !doc_type.is_letter() ==> {
                &&& has_text(
                    prompt,
                    digits(1) + ". "@ + "มีเลขที่ รายการข้อ วันที่ ผู้ลงนาม ตำแหน่ง"@,
                )
                &&& has_text(prompt, digits(2) + ". "@ + "เนื้อความเป็นข้อ ๆ ชัดเจน"@)
            }
        }),
{
    let points = checklist(doc_type);
    lemma_point_is_shown(doc, doc_type, 0);
    lemma_point_is_shown(doc, doc_type, 1);
    if doc_type.is_letter() {
        lemma_point_is_shown(doc, doc_type, 2);
        lemma_point_is_shown(doc, doc_type, 3);
    }
}

proof fn lemma_point_is_shown(doc: JsonView, doc_type: DocType, i: int)
    requires
        0 <= i < checklist(doc_type).len(),
    ensures
        has_text(
            critic_prompt(doc, doc_type),
            digits((i + 1) as nat) + ". "@ + checklist(doc_type)[i],
        ),
{
    let points = numbered(checklist(doc_type));
    lemma_numbered(checklist(doc_type));
    let head = seq![
        "ตรวจสอบ JSON หนังสือราชการต่อไปนี้:"@,
        json_pretty_text(doc),
        Seq::<char>::empty(),
        "รายการตรวจสอบ:"@,
    ];
    let last =
        "ตอบเป็น JSON: {\"passed\": true/false, \"issues\": [\"...\"], \"suggestions\": [\"...\"]}"@;
    let all = head + points + seq![Seq::<char>::empty(), last];
    assert(all[4 + i] == points[i]);
    lemma_joined_holds(all, "\n"@, 4 + i);
}

/// The names in the detail of a step differ.
proof fn lemma_step_names_differ()
    ensures
        "round"@ != "passed"@,
        "round"@ != "issues"@,
        "round"@ != "suggestions"@,
        "round"@ != "detail"@,
        "passed"@ != "issues"@,
        "passed"@ != "suggestions"@,
        "issues"@ != "suggestions"@,
{
    reveal_strlit("round");
    reveal_strlit("passed");
    reveal_strlit("issues");
    reveal_strlit("suggestions");
    reveal_strlit("detail");
    assert("round"@.len() == 5);
    assert("passed"@.len() == 6 && "passed"@[0] == 'p');
    assert("issues"@.len() == 6 && "issues"@[0] == 'i');
    assert("suggestions"@.len() == 11);
    assert("detail"@.len() == 6);
}

/// The trace of a run tells what happened: how many examples were found, each draft
/// with the number of reviews before it, and each review with its verdict, what it
/// found and what it suggested.
pub proof fn law_trace_tells_what_happened(
    run: RunView,
    draft: JsonView,
    number: nat,
    passed: bool,
    issues: Seq<Seq<char>>,
    suggestions: Seq<Seq<char>>,
    req: DocRequest,
    examples: Seq<JsonView>,
    schema: JsonView,
    review_schema: JsonView,
    options: GenerationOptions,
)
    requires
        run.round <= u64::MAX,
        number <= u64::MAX,
        examples.len() <= u64::MAX,
    ensures
        ({
            let trace = trace_of(reviewed(run, number, passed, issues, suggestions));
            &&& trace.len() == run.trace.len() + 1
            &&& trace.drop_last() == run.trace
            &&& trace.last().step == "critic"@
            &&& trace.last().detail.member("passed"@) == Some(JsonView::Bool(passed))
            &&& trace.last().detail.member("issues"@) == Some(text_array(issues))
            &&& trace.last().detail.member("suggestions"@) == Some(text_array(suggestions))
            &&& trace.last().detail.member("round"@) matches Some(
                JsonView::Number(NumberView::Unsigned(n)),
            ) && n == number
        }),
        ({
            let trace = trace_of(drafted(run, draft));
            let at = run.trace.len() as int;
            &&& trace.len() > at
            &&& trace.take(at) == run.trace
            &&& trace[at].step == "generate"@
            &&& trace[at].detail.member("round"@) matches Some(
                JsonView::Number(NumberView::Unsigned(n)),
            ) && n == run.round
            &&& run.round == 0 ==> trace[at].detail.member("detail"@) == Some(
                JsonView::Text("ร่างแรก"@),
            )
            &&& run.round > 0 ==> trace[at].detail.member("detail"@) == Some(
                JsonView::Text("แก้ตามข้อติงของ critic"@),
            )
        }),
        ({
            let trace = trace_of(started(req, examples, schema, review_schema, options));
            &&& trace.len() == 1
            &&& trace[0].step == "retrieval"@
            &&& trace[0].detail.member("examples"@) matches Some(
                JsonView::Number(NumberView::Unsigned(n)),
            ) && n == examples.len()
        }),
{
    lemma_step_names_differ();
    let trace = trace_of(reviewed(run, number, passed, issues, suggestions));
    assert(trace.drop_last() =~= run.trace);
    let at = run.trace.len() as int;
    let drafts = trace_of(drafted(run, draft));
    assert(drafts.take(at) =~= run.trace);
}

/// A run begins with the question for a draft of the document that was asked for,
/// by its schema, and remembers for later how it is to be reviewed and addressed.
pub proof fn law_run_begins_with_the_request(
    req: DocRequest,
    examples: Seq<JsonView>,
    schema: JsonView,
    review_schema: JsonView,
    options: GenerationOptions,
)
    ensures
        started(req, examples, schema, review_schema, options) matches StateView::Draft {
            run,
            call,
        } && {
            &&& call.system == GENERATOR_SYSTEM_PROMPT@
            &&& call.user == generator_prompt(req, examples, schema)
            &&& call.schema == schema
            &&& run.prompt == call.user
            &&& run.schema == schema
            &&& run.review_schema == review_schema
            &&& run.class == req.recipient_class
            &&& run.doc_type == req.doc_type
            &&& run.options == options
            &&& run.round == 0
        },
{
}

} // verus!
