//! Reading the pages of a general document, one after the other.
//!
//! A run marks a page as being read and asks for its text; it keeps what comes
//! of that, pauses, and goes on with the next page. What is read is the outside
//! world's business; which page is read when, what is sent and what is kept is
//! decided here.
use vstd::prelude::*;

use crate::blocks::block_records;
use crate::blocks::draft_args;
use crate::blocks::drafts;
use crate::blocks::drafts_args;
use crate::blocks::DraftGeneralBlock;
use crate::blocks::DraftView;
use crate::database::outcome_of;
use crate::database::text_arg;
use crate::database::ArgView;
use crate::database::Event;
use crate::database::Fault;
use crate::database::StoreError;
use crate::error::refused;
use crate::error::store_error;
use crate::error::ApiError;
use crate::general::asked_for_document;
use crate::general::current_status;
use crate::general::document_in;
use crate::general::status_answered;
use crate::general_store::blocks_replaced;
use crate::general_store::page_ocr_args;
use crate::general_store::told_with_status;
use crate::general_store::BLOCKS_OF_PAGE;
use crate::general_store::GET_PAGE;
use crate::general_store::SET_PAGE_OCR;
use crate::general_store::GeneralDocumentBlock;
use crate::general_store::GeneralDocumentBlockView;
use crate::general_store::GeneralDocumentPage;
use crate::general_store::GeneralDocumentPageView;
use crate::general_store::GeneralDocumentSummaryView;
use crate::general_tables::all_on_page;
use crate::general_tables::has_general;
use crate::general_tables::has_page;
use crate::general_tables::inserted_block;
use crate::general_tables::law_reading_is_kept;
use crate::general_tables::law_replaced_blocks_come_back;
use crate::general_tables::law_replaced_blocks_leave_pages;
use crate::general_tables::places_ascend;
use crate::generation::Failed;
use crate::json::json_text;
use crate::json::JsonView;
use crate::providers::OcrPageOutput;
use crate::sqlite::all_of;
use crate::sqlite::answer;
use crate::sqlite::asked;
use crate::sqlite::first_of;
use crate::sqlite::SqliteStore;
use crate::tables::after_events;
use crate::tables::arg_number;
use crate::tables::arg_option;
use crate::tables::lemma_ran_part;
use crate::tables::obeys;
use crate::tables::ran;
use crate::tables::Tables;
use crate::text::opt_text;
use crate::text::text_or;

verus! {

// ---------------------------------------------------------------------------
// What is kept of a page
// ---------------------------------------------------------------------------

/// Whether the history has grown by the statement that keeps what came of
/// reading a page, and the update of the status of the document.
pub open spec fn page_marked(
    before: Seq<Event>,
    after: Seq<Event>,
    id: i64,
    page: i64,
    status: Seq<char>,
    text: Option<Seq<char>>,
    raw_json: Option<JsonView>,
    error: Option<Seq<char>>,
    result: Result<(), Fault>,
) -> bool {
    told_with_status(
        before,
        after,
        SET_PAGE_OCR@,
        page_ocr_args(id, page, status, text, raw_json, error),
        id,
        result,
    )
}

/// Where the image is that the last answer gives a page, if it gives it one.
pub open spec fn image_in(history: Seq<Event>) -> Result<Option<Seq<char>>, Fault> {
    match first_of::<GeneralDocumentPage>(answer(history)) {
        Err(f) => Err(f),
        Ok(None) => Ok(None),
        Ok(Some(page)) => Ok(page.page_image_path),
    }
}

/// What came of reading a page.
#[derive(Debug)]
pub enum Reading {
    /// The page was read, and these are its blocks.
    Read { output: OcrPageOutput, blocks: Vec<DraftGeneralBlock> },
    /// The page could not be read, for this reason.
    Failed(String),
}

/// What came of reading a page.
pub enum ReadingView {
    Read { text: Seq<char>, raw_json: JsonView, blocks: Seq<DraftView> },
    Failed(Seq<char>),
}

impl Reading {
    pub open spec fn view(&self) -> ReadingView {
        match self {
            Reading::Read { output, blocks } => ReadingView::Read {
                text: output.text@,
                raw_json: output.raw_json@,
                blocks: drafts(blocks@),
            },
            Reading::Failed(error) => ReadingView::Failed(error@),
        }
    }
}

/// Whether the history has grown by the statements that keep what was read on a
/// page and then, if those were carried out, its blocks.
pub open spec fn page_read(
    before: Seq<Event>,
    after: Seq<Event>,
    id: i64,
    page: i64,
    text: Seq<char>,
    raw_json: JsonView,
    blocks: Seq<DraftView>,
    result: Result<(), Fault>,
) -> bool {
    exists|mid: Seq<Event>, marked: Result<(), Fault>|
        {
            &&& #[trigger] page_marked(
                before,
                mid,
                id,
                page,
                "succeeded"@,
                Some(text),
                Some(raw_json),
                None,
                marked,
            )
            &&& match marked {
                Err(f) => after == mid && result == Err::<(), Fault>(f),
                Ok(_) => blocks_replaced(mid, after, id, page, drafts_args(blocks), result),
            }
        }
}

/// Whether the history has grown by the statements that keep what came of
/// reading a page.
pub open spec fn reading_kept(
    before: Seq<Event>,
    after: Seq<Event>,
    id: i64,
    page: i64,
    reading: ReadingView,
    result: Result<(), Fault>,
) -> bool {
    match reading {
        ReadingView::Read { text, raw_json, blocks } => page_read(
            before,
            after,
            id,
            page,
            text,
            raw_json,
            blocks,
            result,
        ),
        ReadingView::Failed(error) => page_marked(
            before,
            after,
            id,
            page,
            "failed"@,
            None,
            None,
            Some(error),
            result,
        ),
    }
}

/// Keeps what came of reading a page.
pub fn keep_reading(store: &mut SqliteStore, id: i64, page: i64, reading: &Reading) -> (r: Result<
    (),
    StoreError,
>)
    ensures
        reading_kept(old(store).history(), final(store).history(), id, page, reading@, outcome_of(r)),
{
    match reading {
        Reading::Read { output, blocks } => {
            let marked = store.update_general_page_ocr(
                id,
                page,
                "succeeded",
                Some(output.text.as_str()),
                Some(&output.raw_json),
                None,
            );
            let ghost mid = store.history();
            assert(page_marked(
                old(store).history(),
                mid,
                id,
                page,
                "succeeded"@,
                Some(output.text@),
                Some(output.raw_json@),
                None,
                outcome_of(marked),
            ));
            match marked {
                Ok(_) => {},
                Err(e) => {
                    return Err(e);
                },
            }
            let records = block_records(blocks);
            store.replace_general_page_blocks(id, page, &records)
        },
        Reading::Failed(error) => store.update_general_page_ocr(
            id,
            page,
            "failed",
            None,
            None,
            Some(error.as_str()),
        ),
    }
}

// ---------------------------------------------------------------------------
// What is sent
// ---------------------------------------------------------------------------

/// What is sent to the service that reads scans.
#[derive(Debug)]
pub struct PagePayload {
    pub bytes: Vec<u8>,
    pub filename: String,
    /// The page to be read, where the file has several.
    pub page: Option<usize>,
}

/// A copy of bytes.
fn copy_bytes(bytes: &[u8]) -> (r: Vec<u8>)
    ensures
        r@ == bytes@,
{
    let mut out: Vec<u8> = Vec::new();
    let n: usize = bytes.len();
    let mut i: usize = 0;
    while i < n
        invariant
            i <= n,
            n == bytes@.len(),
            out@ == bytes@.take(i as int),
        decreases n - i,
    {
        out.push(bytes[i]);
        assert(out@ =~= bytes@.take(i as int + 1));
        i += 1;
    }
    assert(out@ =~= bytes@);
    out
}

/// What is sent to have a page read: its image, under the name of its file, or
/// the whole document with the number of the page.
pub fn page_payload(
    image: Option<(Vec<u8>, Option<String>)>,
    document: &[u8],
    filename: &str,
    page: usize,
) -> (r: PagePayload)
    ensures
        match image {
            Some((bytes, name)) => r.bytes@ == bytes@ && r.filename@ == text_or(
                opt_text(name),
                "page.png"@,
            ) && r.page is None,
            None => r.bytes@ == document@ && r.filename@ == filename@ && r.page == Some(page),
        },
{
    match image {
        Some((bytes, name)) => PagePayload {
            bytes,
            filename: match name {
                Some(name) => name,
                None => "page.png".to_owned(),
            },
            page: None,
        },
        None => PagePayload {
            bytes: copy_bytes(document),
            filename: filename.to_owned(),
            page: Some(page),
        },
    }
}

// ---------------------------------------------------------------------------
// The run
// ---------------------------------------------------------------------------

/// How many seconds pass between one page and the next.
pub const PAUSE_SECONDS: u64 = 3;

/// A page that is to be read.
#[derive(Debug)]
pub struct PageTurn {
    pub id: i64,
    pub page: i64,
    pub page_count: i64,
    /// Where the image of the page is, if it has one.
    pub image: Option<String>,
}

/// A pause before a page is read.
#[derive(Debug)]
pub struct PagePause {
    pub id: i64,
    pub page: i64,
    pub page_count: i64,
}

/// What is to be done next.
#[derive(Debug)]
pub enum OcrStep {
    /// A page is to be read.
    Read(PageTurn),
    /// Some time has to pass.
    Pause(PagePause),
    /// All pages have been read, and this is the status of the document.
    Finished(String),
}

/// Whether the history has grown by the beginning of the turn of a page: it is
/// marked as being read, and there is a question for where its image is.
pub open spec fn turn_begun(
    before: Seq<Event>,
    after: Seq<Event>,
    id: i64,
    page: i64,
    page_count: i64,
    r: Result<OcrStep, ApiError>,
) -> bool {
    exists|mid: Seq<Event>, marked: Result<(), Fault>|
        {
            &&& #[trigger] page_marked(
                before,
                mid,
                id,
                page,
                "running"@,
                None,
                None,
                None,
                marked,
            )
            &&& match marked {
                Err(f) => after == mid && refused(r, f),
                Ok(_) => {
                    &&& asked(
                        mid,
                        after,
                        GET_PAGE@,
                        seq![ArgView::Integer(id), ArgView::Integer(page)],
                    )
                    &&& match image_in(after) {
                        Err(f) => refused(r, f),
                        Ok(path) => r matches Ok(OcrStep::Read(turn)) && turn.id == id && turn.page
                            == page && turn.page_count == page_count && opt_text(turn.image)
                            == path,
                    }
                },
            }
        }
}

/// Whether the history has grown by the question for the status of a document,
/// and the run has ended with it.
pub open spec fn run_ended(
    before: Seq<Event>,
    after: Seq<Event>,
    id: i64,
    r: Result<OcrStep, ApiError>,
) -> bool {
    &&& asked_for_document(before, after, id)
    &&& match document_in(after) {
        Err(f) => refused(r, f),
        Ok(Some(doc)) => r matches Ok(OcrStep::Finished(s)) && s@ == doc.status,
        Ok(None) => r matches Ok(OcrStep::Finished(s)) && s@ == "unknown"@,
    }
}

/// Begins the turn of a page.
fn begin_turn(store: &mut SqliteStore, id: i64, page: i64, page_count: i64) -> (r: Result<
    OcrStep,
    ApiError,
>)
    ensures
        turn_begun(old(store).history(), final(store).history(), id, page, page_count, r),
{
    let marked = store.update_general_page_ocr(id, page, "running", None, None, None);
    let ghost mid = store.history();
    assert(page_marked(
        old(store).history(),
        mid,
        id,
        page,
        "running"@,
        None,
        None,
        None,
        outcome_of(marked),
    ));
    match marked {
        Ok(_) => {},
        Err(e) => {
            return Err(store_error(&e));
        },
    }
    let image = match store.get_general_document_page(id, page) {
        Ok(Some(found)) => found.page_image_path,
        Ok(None) => None,
        Err(e) => {
            return Err(store_error(&e));
        },
    };
    Ok(OcrStep::Read(PageTurn { id, page, page_count, image }))
}

/// Ends a run.
fn end_run(store: &mut SqliteStore, id: i64) -> (r: Result<OcrStep, ApiError>)
    ensures
        run_ended(old(store).history(), final(store).history(), id, r),
{
    match current_status(store, id) {
        Ok(status) => Ok(OcrStep::Finished(status)),
        Err(e) => Err(e),
    }
}

/// Begins to read the pages of a document, from the first to the last.
pub fn ocr_general_document(store: &mut SqliteStore, id: i64, page_count: i64) -> (r: Result<
    OcrStep,
    ApiError,
>)
    ensures
        if page_count < 1 {
            run_ended(old(store).history(), final(store).history(), id, r)
        } else {
            turn_begun(old(store).history(), final(store).history(), id, 1, page_count, r)
        },
{
    if page_count < 1 {
        return end_run(store, id);
    }
    begin_turn(store, id, 1, page_count)
}

impl PageTurn {
    /// Goes on when the page has been read or could not be: what came of it is
    /// kept, and there is a pause before the next page, or the run ends.
    pub fn finished(self, store: &mut SqliteStore, reading: Reading) -> (r: Result<
        OcrStep,
        ApiError,
    >)
        ensures
            exists|mid: Seq<Event>, kept: Result<(), Fault>|
                {
                    &&& #[trigger] reading_kept(
                        old(store).history(),
                        mid,
                        self.id,
                        self.page,
                        reading@,
                        kept,
                    )
                    &&& match kept {
                        Err(f) => final(store).history() == mid && refused(r, f),
                        Ok(_) => if self.page < self.page_count {
                            &&& final(store).history() == mid
                            &&& r matches Ok(OcrStep::Pause(pause)) && pause.id == self.id
                                && pause.page == self.page + 1 && pause.page_count
                                == self.page_count
                        } else {
                            run_ended(mid, final(store).history(), self.id, r)
                        },
                    }
                },
    {
        let kept = keep_reading(store, self.id, self.page, &reading);
        let ghost mid = store.history();
        assert(reading_kept(
            old(store).history(),
            mid,
            self.id,
            self.page,
            reading@,
            outcome_of(kept),
        ));
        match kept {
            Ok(_) => {},
            Err(e) => {
                return Err(store_error(&e));
            },
        }
        if self.page < self.page_count {
            return Ok(
                OcrStep::Pause(
                    PagePause {
                        id: self.id,
                        page: self.page + 1,
                        page_count: self.page_count,
                    },
                ),
            );
        }
        end_run(store, self.id)
    }
}

impl PagePause {
    /// Goes on with the next page when the pause is over.
    pub fn over(self, store: &mut SqliteStore) -> (r: Result<OcrStep, ApiError>)
        ensures
            turn_begun(
                old(store).history(),
                final(store).history(),
                self.id,
                self.page,
                self.page_count,
                r,
            ),
    {
        begin_turn(store, self.id, self.page, self.page_count)
    }
}

// ---------------------------------------------------------------------------
// Laws
// ---------------------------------------------------------------------------

/// The part of a reading that was kept at which the page was marked.
proof fn lemma_page_was_marked(
    before: Seq<Event>,
    kept: Seq<Event>,
    id: i64,
    page: i64,
    text: Seq<char>,
    raw_json: JsonView,
    blocks: Seq<DraftView>,
) -> (mid: Seq<Event>)
    requires
        page_read(before, kept, id, page, text, raw_json, blocks, Ok(())),
    ensures
        page_marked(
            before,
            mid,
            id,
            page,
            "succeeded"@,
            Some(text),
            Some(raw_json),
            None,
            Ok(()),
        ),
        blocks_replaced(mid, kept, id, page, drafts_args(blocks), Ok(())),
{
    let (mid, marked) = choose|mid: Seq<Event>, marked: Result<(), Fault>|
        {
            &&& #[trigger] page_marked(
                before,
                mid,
                id,
                page,
                "succeeded"@,
                Some(text),
                Some(raw_json),
                None,
                marked,
            )
            &&& match marked {
                Err(f) => kept == mid && Ok::<(), Fault>(()) == Err::<(), Fault>(f),
                Ok(_) => blocks_replaced(mid, kept, id, page, drafts_args(blocks), Ok(())),
            }
        };
    assert(marked == Ok::<(), Fault>(()));
    mid
}

/// Once a reading has been kept, the page tells what came of it: a page that was
/// read has its text, what the service gave and no error, and one that could not
/// be read has the error and no text. What else is known of the page stays.
pub proof fn law_page_tells_what_came_of_reading(
    states: Seq<Tables>,
    before: Seq<Event>,
    kept: Seq<Event>,
    row: GeneralDocumentSummaryView,
    page: GeneralDocumentPageView,
    reading: ReadingView,
) -> (now: GeneralDocumentPageView)
    requires
        ran(states, kept),
        page.document_id == row.id,
        reading_kept(before, kept, row.id, page.page_number, reading, Ok(())),
        has_general(after_events(states, before.len()).general, row),
        has_page(after_events(states, before.len()).general, page),
    ensures
        has_page(after_events(states, kept.len()).general, now),
        reading matches ReadingView::Read { text, raw_json, blocks } ==> {
            &&& now.status == "succeeded"@
            &&& now.ocr_text == Some(text)
            &&& now.ocr_raw_json == Some(json_text(raw_json))
            &&& now.error is None
        },
        reading matches ReadingView::Failed(error) ==> {
            &&& now.status == "failed"@
            &&& now.ocr_text is None
            &&& now.ocr_raw_json is None
            &&& now.error == Some(error)
        },
        now.document_id == page.document_id,
        now.page_number == page.page_number,
        now.edited_text == page.edited_text,
        now.page_image_path == page.page_image_path,
{
    match reading {
        ReadingView::Read { text, raw_json, blocks } => {
            let mid = lemma_page_was_marked(
                before,
                kept,
                row.id,
                page.page_number,
                text,
                raw_json,
                blocks,
            );
            let n = mid.len() as int;
            assert(kept.take(n) =~= mid);
            lemma_ran_part(states, kept, n);
            let held = states.take(n + 1);
            let now = law_reading_is_kept(
                held,
                before,
                mid,
                row,
                page,
                "succeeded"@,
                Some(text),
                Some(raw_json),
                None,
            );
            law_replaced_blocks_leave_pages(
                states,
                mid,
                kept,
                row.id,
                page.page_number,
                drafts_args(blocks),
            );
            assert(held[n] == states[n]);
            now
        },
        ReadingView::Failed(error) => law_reading_is_kept(
            states,
            before,
            kept,
            row,
            page,
            "failed"@,
            None,
            None,
            Some(error),
        ),
    }
}

/// Whether a block that was kept is the one that was drafted.
pub open spec fn kept_as_drafted(block: GeneralDocumentBlockView, draft: DraftView) -> bool {
    &&& block.document_id == draft.document_id
    &&& block.page_number == draft.page_number
    &&& block.block_index == draft.block_index
    &&& block.block_type == draft.block_type
    &&& block.text == draft.text
    &&& block.bbox_json == draft.bbox_json
    &&& block.style_json == draft.style_json
    &&& block.image_path == draft.image_path
    &&& block.embedding == draft.embedding
}

/// The blocks that were drafted of a page that was read are those that come back
/// when the blocks of the page are listed: all of them, in their order, and no
/// others.
pub proof fn law_blocks_of_a_read_page_come_back(
    states: Seq<Tables>,
    before: Seq<Event>,
    kept: Seq<Event>,
    after: Seq<Event>,
    id: i64,
    page: i64,
    text: Seq<char>,
    raw_json: JsonView,
    blocks: Seq<DraftView>,
) -> (found: Seq<GeneralDocumentBlockView>)
    requires
        ran(states, after),
        reading_kept(
            before,
            kept,
            id,
            page,
            (ReadingView::Read { text, raw_json, blocks }),
            Ok(()),
        ),
        blocks.len() <= i64::MAX,
        forall|i: int|
            0 <= i < blocks.len() ==> (#[trigger] blocks[i]).document_id == id
                && blocks[i].page_number == page && blocks[i].block_index == i,
        asked(
            kept,
            after,
            BLOCKS_OF_PAGE@,
            seq![ArgView::Integer(id), ArgView::Integer(page)],
        ),
        answer(after) is Ok,
    ensures
        all_of::<GeneralDocumentBlock>(answer(after)) == Ok::<
            Seq<GeneralDocumentBlockView>,
            Fault,
        >(found),
        found.len() == blocks.len(),
        forall|i: int| 0 <= i < found.len() ==> kept_as_drafted(#[trigger] found[i], blocks[i]),
{
    let mid = lemma_page_was_marked(before, kept, id, page, text, raw_json, blocks);
    let args = drafts_args(blocks);
    lemma_drafts_args(blocks, id, page);
    let (made, found) = law_replaced_blocks_come_back(states, mid, kept, after, id, page, args);
    assert forall|i: int| 0 <= i < found.len() implies kept_as_drafted(
        #[trigger] found[i],
        blocks[i],
    ) by {
        assert(made[i] == found[i]);
        assert(args[i] == draft_args(blocks[i]));
        lemma_inserted_as_drafted(
            blocks[i],
            found[i].id,
            found[i].created_at,
            found[i].updated_at,
        );
    }
    found
}

/// What is known of the arguments of the statements that keep the blocks of a page.
proof fn lemma_drafts_args(blocks: Seq<DraftView>, id: i64, page: i64)
    requires
        blocks.len() <= i64::MAX,
        forall|i: int|
            0 <= i < blocks.len() ==> (#[trigger] blocks[i]).document_id == id
                && blocks[i].page_number == page && blocks[i].block_index == i,
    ensures
        all_on_page(drafts_args(blocks), id, page),
        places_ascend(drafts_args(blocks)),
        drafts_args(blocks).len() == blocks.len(),
{
    let args = drafts_args(blocks);
    assert forall|i: int| 0 <= i < args.len() implies (#[trigger] args[i])[0] == ArgView::Integer(
        id,
    ) && args[i][1] == ArgView::Integer(page) by {
        assert(args[i] == draft_args(blocks[i]));
    }
    assert forall|i: int, j: int| 0 <= i < j < args.len() implies arg_number(
        (#[trigger] args[i])[2],
    ) < arg_number((#[trigger] args[j])[2]) by {
        assert(args[i] == draft_args(blocks[i]));
        assert(args[j] == draft_args(blocks[j]));
    }
}

/// A block that was inserted is the one that was drafted.
proof fn lemma_inserted_as_drafted(
    draft: DraftView,
    id: i64,
    created_at: Seq<char>,
    updated_at: Seq<char>,
)
    ensures
        kept_as_drafted(inserted_block(draft_args(draft), id, created_at, updated_at), draft),
{
    assert(arg_option(text_arg(draft.text)) == draft.text);
    assert(arg_option(text_arg(draft.bbox_json)) == draft.bbox_json);
    assert(arg_option(text_arg(draft.style_json)) == draft.style_json);
    assert(arg_option(text_arg(draft.image_path)) == draft.image_path);
    assert(arg_option(text_arg(draft.embedding)) == draft.embedding);
}

/// A run ends with the status that is then told of the document.
pub proof fn law_run_ends_with_the_status(
    before: Seq<Event>,
    after: Seq<Event>,
    id: i64,
    r: Result<OcrStep, ApiError>,
    told: Result<String, ApiError>,
)
    requires
        run_ended(before, after, id, r),
        status_answered(before, after, id, told),
    ensures
        r is Ok <==> told is Ok,
        r matches Ok(step) ==> (step matches OcrStep::Finished(s) && s@ == told->Ok_0@),
{
}

/// While a page is being read it says so, and shows no text and no error of an
/// earlier reading; what was edited stays.
pub proof fn law_page_in_turn_is_running(
    states: Seq<Tables>,
    before: Seq<Event>,
    after: Seq<Event>,
    row: GeneralDocumentSummaryView,
    page: GeneralDocumentPageView,
    page_count: i64,
    r: Result<OcrStep, ApiError>,
) -> (now: GeneralDocumentPageView)
    requires
        ran(states, after),
        page.document_id == row.id,
        turn_begun(before, after, row.id, page.page_number, page_count, r),
        r is Ok,
        has_general(after_events(states, before.len()).general, row),
        has_page(after_events(states, before.len()).general, page),
    ensures
        has_page(after_events(states, after.len()).general, now),
        now.status == "running"@,
        now.ocr_text is None,
        now.error is None,
        now.edited_text == page.edited_text,
        now.page_image_path == page.page_image_path,
{
    let id = row.id;
    let number = page.page_number;
    let (mid, marked) = choose|mid: Seq<Event>, marked: Result<(), Fault>|
        {
            &&& #[trigger] page_marked(
                before,
                mid,
                id,
                number,
                "running"@,
                None,
                None,
                None,
                marked,
            )
            &&& match marked {
                Err(f) => after == mid && refused(r, f),
                Ok(_) => asked(
                    mid,
                    after,
                    GET_PAGE@,
                    seq![ArgView::Integer(id), ArgView::Integer(number)],
                ),
            }
        };
    assert(marked == Ok::<(), Fault>(()));
    let n = mid.len() as int;
    assert(after.take(n) =~= mid);
    lemma_ran_part(states, after, n);
    let held = states.take(n + 1);
    let now = law_reading_is_kept(held, before, mid, row, page, "running"@, None, None, None);
    assert(after.last() == after[n]);
    assert(obeys(states[n], after[n], states[n + 1]));
    assert(held[n] == states[n]);
    now
}

} // verus!
