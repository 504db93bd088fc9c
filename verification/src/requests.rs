//! What is done for requests about saved documents and templates.
use vstd::prelude::*;

use crate::database::text_arg;
use crate::database::ArgView;
use crate::database::Event;
use crate::database::Fault;
use crate::error::bad_request;
use crate::error::blame;
use crate::error::internal;
use crate::error::missing;
use crate::error::not_found;
use crate::error::refused;
use crate::error::refused_with;
use crate::error::store_error;
use crate::error::store_result;
use crate::error::BAD_REQUEST;
use crate::error::INTERNAL_SERVER_ERROR;
use crate::error::NOT_FOUND;
use crate::error::ApiError;
use crate::error::Refusal;
use crate::general_store::failure_of;
use crate::json::json_text;
use crate::json::parsed_json;
use crate::json::reads_back;
use crate::json::MAX_DEPTH;
use crate::json::Json;
use crate::number::decimal;
use crate::number::show_i64;
use crate::schemas::DocType;
use crate::schemas::RenderRequest;
use crate::sqlite::all_of;
use crate::sqlite::answer;
use crate::sqlite::any_result;
use crate::sqlite::asked;
use crate::sqlite::changed_rows;
use crate::sqlite::default_resolved;
use crate::sqlite::document_option;
use crate::sqlite::executed;
use crate::sqlite::first_of;
use crate::sqlite::inserted;
use crate::sqlite::meanings;
use crate::sqlite::option_outcome;
use crate::sqlite::template_created;
use crate::sqlite::templates_args;
use crate::sqlite::templates_sql;
use crate::sqlite::DELETE_DOCUMENT;
use crate::sqlite::DOCUMENTS;
use crate::sqlite::DOCUMENTS_OF_TYPE;
use crate::sqlite::GET_DOCUMENT;
use crate::sqlite::GET_TEMPLATE;
use crate::sqlite::SAVE_DOCUMENT;
use crate::sqlite::UPDATE_DOCUMENT;
use crate::sqlite::DocumentRecord;
use crate::sqlite::DocumentSummary;
use crate::sqlite::NewTemplateRecord;
use crate::sqlite::Record;
use crate::sqlite::SqliteStore;
use crate::sqlite::TemplateRecord;
use crate::sqlite::TemplateRecordView;
use crate::text::cat3;
use crate::text::finishes_with;
use crate::text::has_text;
use crate::text::lemma_assoc;
use crate::text::lemma_end_stands;
use crate::text::lemma_front_holds;
use crate::text::opt_str;
use crate::text::same;

verus! {

// ---------------------------------------------------------------------------
// Answers
// ---------------------------------------------------------------------------

/// Whether a request for a list was answered with what the store has.
pub open spec fn answers_list<R: Record>(
    r: Result<Vec<R>, ApiError>,
    kept: Result<Seq<R::V>, Fault>,
) -> bool {
    match kept {
        Ok(list) => r matches Ok(v) && meanings(v@) == list,
        Err(f) => refused(r, f),
    }
}

/// Whether a request for one record was answered with what the store has, or
/// refused where it has none.
pub open spec fn answers_one<R: Record>(
    r: Result<R, ApiError>,
    kept: Result<Option<R::V>, Fault>,
    otherwise: Refusal,
) -> bool {
    match kept {
        Ok(Some(v)) => r matches Ok(x) && x.meaning() == v,
        Ok(None) => refused_with(r, otherwise),
        Err(f) => refused(r, f),
    }
}

/// The record that the store has, or a refusal where it has none.
pub fn one_or<R: Record>(
    r: Result<Option<R>, crate::database::StoreError>,
    otherwise: ApiError,
) -> (out: Result<R, ApiError>)
    ensures
        answers_one(out, option_outcome(r), otherwise@),
{
    match r {
        Ok(Some(v)) => Ok(v),
        Ok(None) => Err(otherwise),
        Err(e) => Err(store_error(&e)),
    }
}

// ---------------------------------------------------------------------------
// Saved documents
// ---------------------------------------------------------------------------

/// Saves a document and says what number it has.
pub fn save_document(
    store: &mut SqliteStore,
    doc_type: DocType,
    title: Option<&str>,
    doc_data: &Json,
) -> (r: Result<i64, ApiError>)
    ensures
        ({
            let args = seq![
                ArgView::Text(doc_type.thai()),
                text_arg(opt_str(title)),
                ArgView::Text(json_text(doc_data@)),
            ];
            match r {
                Ok(id) => inserted(
                    old(store).history(),
                    final(store).history(),
                    SAVE_DOCUMENT@,
                    args,
                    Ok(id),
                ),
                Err(e) => {
                    let fault = failure_of(final(store).history().last());
                    &&& inserted(
                        old(store).history(),
                        final(store).history(),
                        SAVE_DOCUMENT@,
                        args,
                        Err(fault),
                    )
                    &&& e@ == blame(fault)
                },
            }
        }),
        reads_back(doc_data@, MAX_DEPTH as nat) ==> parsed_json(json_text(doc_data@)) == Some(doc_data@),
{
    store_result(store.save_document(doc_type.as_thai(), title, doc_data))
}

/// The saved documents of one kind or of all, the last first.
pub fn list_documents(store: &mut SqliteStore, doc_type: Option<&str>) -> (r: Result<
    Vec<DocumentSummary>,
    ApiError,
>)
    ensures
        match doc_type {
            Some(t) => asked(
                old(store).history(),
                final(store).history(),
                DOCUMENTS_OF_TYPE@,
                seq![ArgView::Text(t@)],
            ),
            None => asked(old(store).history(), final(store).history(), DOCUMENTS@, Seq::empty()),
        },
        answers_list(r, all_of::<DocumentSummary>(answer(final(store).history()))),
{
    store_result(store.list_documents(doc_type))
}

/// A saved document.
pub fn get_document(store: &mut SqliteStore, id: i64) -> (r: Result<DocumentRecord, ApiError>)
    ensures
        asked(
            old(store).history(),
            final(store).history(),
            GET_DOCUMENT@,
            seq![ArgView::Integer(id)],
        ),
        match document_option(answer(final(store).history())) {
            Ok(Some(d)) => r matches Ok(x) && x@ == d,
            Ok(None) => refused_with(r, missing("Document"@, id as int)),
            Err(f) => refused(r, f),
        },
{
    match store.get_document(id) {
        Ok(Some(d)) => Ok(d),
        Ok(None) => Err(not_found("Document", id)),
        Err(e) => Err(store_error(&e)),
    }
}

/// Whether a request that is about one document was answered as the store says
/// that there was one.
pub open spec fn answers_change<T>(
    r: Result<T, ApiError>,
    value: T,
    changed: Result<usize, Seq<char>>,
    otherwise: Refusal,
) -> bool {
    match any_result(changed) {
        Ok(true) => r == Ok::<T, ApiError>(value),
        Ok(false) => refused_with(r, otherwise),
        Err(f) => refused(r, f),
    }
}

/// Replaces a saved document.
pub fn update_document(
    store: &mut SqliteStore,
    id: i64,
    doc_type: DocType,
    title: Option<&str>,
    doc_data: &Json,
) -> (r: Result<i64, ApiError>)
    ensures
        executed(
            old(store).history(),
            final(store).history(),
            UPDATE_DOCUMENT@,
            seq![
                ArgView::Text(doc_type.thai()),
                text_arg(opt_str(title)),
                ArgView::Text(json_text(doc_data@)),
                ArgView::Integer(id),
            ],
        ),
        answers_change(
            r,
            id,
            changed_rows(final(store).history()),
            missing("Document"@, id as int),
        ),
        reads_back(doc_data@, MAX_DEPTH as nat) ==> parsed_json(json_text(doc_data@)) == Some(doc_data@),
{
    match store.update_document(id, doc_type.as_thai(), title, doc_data) {
        Ok(true) => Ok(id),
        Ok(false) => Err(not_found("Document", id)),
        Err(e) => Err(store_error(&e)),
    }
}

/// Deletes a saved document.
pub fn delete_document(store: &mut SqliteStore, id: i64) -> (r: Result<(), ApiError>)
    ensures
        executed(
            old(store).history(),
            final(store).history(),
            DELETE_DOCUMENT@,
            seq![ArgView::Integer(id)],
        ),
        answers_change(
            r,
            (),
            changed_rows(final(store).history()),
            missing("Document"@, id as int),
        ),
{
    match store.delete_document(id) {
        Ok(true) => Ok(()),
        Ok(false) => Err(not_found("Document", id)),
        Err(e) => Err(store_error(&e)),
    }
}

// ---------------------------------------------------------------------------
// Templates
// ---------------------------------------------------------------------------

/// What is said where a template that was just registered is not there.
pub open spec fn vanished() -> Refusal {
    internal("created template could not be read back"@)
}

/// Whether the history has grown by the registration of a template and, if that
/// succeeded, by the question for it; and what came of it.
pub open spec fn template_registered(
    before: Seq<Event>,
    after: Seq<Event>,
    record: NewTemplateRecord<'_>,
    r: Result<TemplateRecord, ApiError>,
) -> bool {
    let between = after.drop_last();
    let fault = failure_of(after.last());
    ||| template_created(before, after, record, Err(fault)) && refused(r, fault)
    ||| {
        &&& after.len() > 1
        &&& between.last() matches Event::LastInsertRowid(id) && template_created(
            before,
            between,
            record,
            Ok(id),
        ) && asked(between, after, GET_TEMPLATE@, seq![ArgView::Integer(id)])
        &&& answers_one(r, first_of::<TemplateRecord>(answer(after)), vanished())
    }
}

/// Registers a template and gives it back as it is kept.
pub fn create_template(store: &mut SqliteStore, record: NewTemplateRecord<'_>) -> (r: Result<
    TemplateRecord,
    ApiError,
>)
    ensures
        template_registered(old(store).history(), final(store).history(), record, r),
{
    match store.create_template(record) {
        Ok(id) => {
            let ghost between = store.history();
            let got = store.get_template(id);
            assert(store.history().drop_last() == between);
            one_or(
                got,
                ApiError::new(INTERNAL_SERVER_ERROR, "created template could not be read back"),
            )
        },
        Err(e) => Err(store_error(&e)),
    }
}

/// The registered templates, the last first.
pub fn list_templates(
    store: &mut SqliteStore,
    doc_type: Option<&str>,
    agency: Option<&str>,
) -> (r: Result<Vec<TemplateRecord>, ApiError>)
    ensures
        asked(
            old(store).history(),
            final(store).history(),
            templates_sql(opt_str(doc_type), opt_str(agency)),
            templates_args(opt_str(doc_type), opt_str(agency)),
        ),
        answers_list(r, all_of::<TemplateRecord>(answer(final(store).history()))),
{
    store_result(store.list_templates(doc_type, agency))
}

/// Whether the history has grown by the questions for the default template, and
/// the request was answered with what came of them.
pub open spec fn default_answered(
    before: Seq<Event>,
    after: Seq<Event>,
    doc_type: Seq<char>,
    agency: Option<Seq<char>>,
    r: Result<TemplateRecord, ApiError>,
) -> bool {
    exists|kept: Result<Option<TemplateRecordView>, Fault>| #[trigger]
        default_resolved(before, after, doc_type, agency, kept) && answers_one(
            r,
            kept,
            Refusal { status: NOT_FOUND, detail: "template not found"@ },
        )
}

/// The default template of a kind: that of the agency, and where it has none,
/// the central one.
pub fn resolve_default_template(
    store: &mut SqliteStore,
    doc_type: &str,
    agency: Option<&str>,
) -> (r: Result<TemplateRecord, ApiError>)
    ensures
        default_answered(
            old(store).history(),
            final(store).history(),
            doc_type@,
            opt_str(agency),
            r,
        ),
{
    let got = store.resolve_default(doc_type, agency);
    let ghost kept = option_outcome(got);
    assert(default_resolved(
        old(store).history(),
        store.history(),
        doc_type@,
        opt_str(agency),
        kept,
    ));
    one_or(got, ApiError::new(NOT_FOUND, "template not found"))
}

/// What is said where a document is to be rendered with a template of another
/// kind.
pub open spec fn wrong_template(id: i64, kept: Seq<char>, asked_for: Seq<char>) -> Refusal {
    bad_request("Template "@ + decimal(id as int) + " is for "@ + kept + ", not "@ + asked_for)
}

/// Whether the history has grown by the questions for the central default of a
/// kind, and what came of them: where the default is, if there is one.
pub open spec fn default_path_answered(
    before: Seq<Event>,
    after: Seq<Event>,
    doc_type: Seq<char>,
    r: Result<Option<String>, ApiError>,
) -> bool {
    exists|kept: Result<Option<TemplateRecordView>, Fault>| #[trigger]
        default_resolved(before, after, doc_type, None, kept) && match kept {
            Err(f) => refused(r, f),
            Ok(None) => r == Ok::<Option<String>, ApiError>(None),
            Ok(Some(t)) => r matches Ok(Some(path)) && path@ == t.file_path,
        }
}

/// Where the template for a document is: that of the template which the request
/// names, and which has to be registered for the kind of the document; where it
/// names none, that of the central default of the kind, if there is one.
pub fn resolve_template_path(store: &mut SqliteStore, req: &RenderRequest) -> (r: Result<
    Option<String>,
    ApiError,
>)
    ensures
        match req.template_id {
            None => default_path_answered(
                old(store).history(),
                final(store).history(),
                req.doc_type.thai(),
                r,
            ),
            Some(id) => {
                &&& asked(
                    old(store).history(),
                    final(store).history(),
                    GET_TEMPLATE@,
                    seq![ArgView::Integer(id)],
                )
                &&& match first_of::<TemplateRecord>(answer(final(store).history())) {
                    Err(f) => refused(r, f),
                    Ok(None) => refused_with(r, missing("Template"@, id as int)),
                    Ok(Some(t)) => if t.doc_type == req.doc_type.thai() {
                        r matches Ok(Some(path)) && path@ == t.file_path
                    } else {
                        refused_with(r, wrong_template(id, t.doc_type, req.doc_type.thai()))
                    },
                }
            },
        },
{
    let id = match req.template_id {
        Some(id) => id,
        None => {
            let got = store.resolve_default(req.doc_type.as_thai(), None);
            let ghost kept = option_outcome(got);
            assert(default_resolved(
                old(store).history(),
                store.history(),
                req.doc_type.thai(),
                None,
                kept,
            ));
            return match got {
                Ok(Some(template)) => Ok(Some(template.file_path)),
                Ok(None) => Ok(None),
                Err(e) => Err(store_error(&e)),
            };
        },
    };
    let template = match store.get_template(id) {
        Ok(Some(template)) => template,
        Ok(None) => {
            return Err(not_found("Template", id));
        },
        Err(e) => {
            return Err(store_error(&e));
        },
    };
    if !same(template.doc_type.as_str(), req.doc_type.as_thai()) {
        let mut detail = cat3("Template ", show_i64(id).as_str(), " is for ");
        detail.append(template.doc_type.as_str());
        detail.append(", not ");
        detail.append(req.doc_type.as_thai());
        return Err(ApiError { status: BAD_REQUEST, detail });
    }
    Ok(Some(template.file_path))
}

/// Who asks for a template of another kind is told what kind it is for, and then
/// what was asked for.
pub proof fn law_wrong_template_is_told(id: i64, kept: Seq<char>, asked_for: Seq<char>)
    ensures
        ({
            let detail = wrong_template(id, kept, asked_for).detail;
            &&& has_text(detail, decimal(id as int) + " is for "@ + kept)
            &&& finishes_with(detail, ", not "@ + asked_for)
        }),
{
    let a = "Template "@;
    let n = decimal(id as int);
    let b = " is for "@;
    let c = ", not "@;
    lemma_assoc(a, n, b);
    lemma_assoc(a, n + b, kept);
    lemma_end_stands(a, n + b + kept);
    lemma_front_holds(a + n + b + kept, c, n + b + kept);
    lemma_front_holds(a + n + b + kept + c, asked_for, n + b + kept);
    lemma_assoc(a + n + b + kept, c, asked_for);
    lemma_end_stands(a + n + b + kept, c + asked_for);
}

} // verus!
