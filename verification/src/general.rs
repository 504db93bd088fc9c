//! What is done for requests about general documents: looking them up, keeping
//! the images of their pages, reading the pages and editing what was read.
use vstd::prelude::*;

use crate::database::int_arg;
use crate::database::text_arg;
use crate::database::ArgView;
use crate::database::Event;
use crate::database::Fault;
use crate::error::missing;
use crate::error::not_found;
use crate::error::refused;
use crate::error::refused_with;
use crate::error::store_error;
use crate::error::store_result;
use crate::error::NOT_FOUND;
use crate::error::ApiError;
use crate::error::Refusal;
use crate::general_store::failure_of;
use crate::general_store::BLOCKS;
use crate::general_store::BLOCKS_OF_PAGE;
use crate::general_store::DELETE_GENERAL_DOCUMENT;
use crate::general_store::GET_GENERAL_DOCUMENT;
use crate::general_store::GET_PAGE;
use crate::general_store::PAGES;
use crate::general_store::SET_PAGE_ASSET;
use crate::general_store::GeneralDocumentBlock;
use crate::general_store::GeneralDocumentBlockView;
use crate::general_store::GeneralDocumentPage;
use crate::general_store::GeneralDocumentPageView;
use crate::general_store::GeneralDocumentSummary;
use crate::general_store::GeneralDocumentSummaryView;
use crate::general_tables::arg_opt_number;
use crate::general_tables::pages_step;
use crate::json::parse_json_opt;
use crate::json::parsed_json;
use crate::json::parsed_optional;
use crate::json::Json;
use crate::json::JsonView;
use crate::number::decimal;
use crate::number::show_i64;
use crate::pages::asset_views;
use crate::pages::is_pdf;
use crate::pages::pdf_name;
use crate::pages::AssetView;
use crate::pages::PageImageAsset;
use crate::requests::answers_list;
use crate::requests::answers_one;
use crate::requests::one_or;
use crate::sqlite::all_of;
use crate::sqlite::answer;
use crate::sqlite::any_result;
use crate::sqlite::asked;
use crate::sqlite::changed_rows;
use crate::sqlite::executed;
use crate::sqlite::first_of;
use crate::sqlite::meanings;
use crate::sqlite::Record;
use crate::sqlite::SqliteStore;
use crate::tables::arg_option;
use crate::text::borrow;
use crate::text::copy_option;
use crate::text::opt_str;
use crate::text::opt_text;
use crate::text::same;
use crate::text::string_or;
use crate::text::text_or;

verus! {

// ---------------------------------------------------------------------------
// Looking up
// ---------------------------------------------------------------------------

/// Whether the history has grown by the question for a general document.
pub open spec fn asked_for_document(before: Seq<Event>, after: Seq<Event>, id: i64) -> bool {
    asked(before, after, GET_GENERAL_DOCUMENT@, seq![ArgView::Integer(id)])
}

/// The general document that the last answer holds.
pub open spec fn document_in(history: Seq<Event>) -> Result<
    Option<crate::general_store::GeneralDocumentSummaryView>,
    Fault,
> {
    first_of::<GeneralDocumentSummary>(answer(history))
}

/// There is no such general document.
pub open spec fn no_document(id: i64) -> Refusal {
    missing("general document"@, id as int)
}

/// A general document.
pub fn general_document(store: &mut SqliteStore, id: i64) -> (r: Result<
    GeneralDocumentSummary,
    ApiError,
>)
    ensures
        asked_for_document(old(store).history(), final(store).history(), id),
        answers_one(r, document_in(final(store).history()), no_document(id)),
{
    one_or(store.get_general_document(id), not_found("general document", id))
}

/// Refuses a request where there is no such general document.
pub fn ensure_general_document(store: &mut SqliteStore, id: i64) -> (r: Result<(), ApiError>)
    ensures
        asked_for_document(old(store).history(), final(store).history(), id),
        match document_in(final(store).history()) {
            Ok(Some(_)) => r is Ok,
            Ok(None) => refused_with(r, no_document(id)),
            Err(f) => refused(r, f),
        },
{
    match general_document(store, id) {
        Ok(_) => Ok(()),
        Err(e) => Err(e),
    }
}

/// Whether the history has grown by the question for a general document and, if
/// there is one, by another question, to which the request was answered.
pub open spec fn document_and<R: Record>(
    before: Seq<Event>,
    after: Seq<Event>,
    id: i64,
    sql: Seq<char>,
    args: Seq<ArgView>,
    r: Result<Vec<R>, ApiError>,
) -> bool {
    let first = after.take(before.len() as int + 1);
    &&& after.len() > before.len()
    &&& asked_for_document(before, first, id)
    &&& match document_in(first) {
        Err(f) => after == first && refused(r, f),
        Ok(None) => after == first && refused_with(r, no_document(id)),
        Ok(Some(_)) => asked(first, after, sql, args) && answers_list(
            r,
            all_of::<R>(answer(after)),
        ),
    }
}

/// The blocks of a general document, of one page or of all.
pub fn general_document_blocks(store: &mut SqliteStore, id: i64, page: Option<i64>) -> (r: Result<
    Vec<GeneralDocumentBlock>,
    ApiError,
>)
    ensures
        document_and(
            old(store).history(),
            final(store).history(),
            id,
            match page {
                Some(_) => BLOCKS_OF_PAGE@,
                None => BLOCKS@,
            },
            match page {
                Some(n) => seq![ArgView::Integer(id), ArgView::Integer(n)],
                None => seq![ArgView::Integer(id)],
            },
            r,
        ),
{
    let ghost before = store.history();
    let found = ensure_general_document(store, id);
    let ghost first = store.history();
    assert(first.take(before.len() as int + 1) =~= first);
    match found {
        Ok(_) => {},
        Err(e) => {
            return Err(e);
        },
    }
    let list = store.list_general_document_blocks(id, page);
    assert(store.history().take(before.len() as int + 1) =~= first);
    store_result(list)
}

/// The blocks of a page.
pub fn list_general_page_blocks(store: &mut SqliteStore, id: i64, page: i64) -> (r: Result<
    Vec<GeneralDocumentBlock>,
    ApiError,
>)
    ensures
        document_and(
            old(store).history(),
            final(store).history(),
            id,
            BLOCKS_OF_PAGE@,
            seq![ArgView::Integer(id), ArgView::Integer(page)],
            r,
        ),
{
    general_document_blocks(store, id, Some(page))
}

/// A page of a general document.
pub fn get_general_document_page(store: &mut SqliteStore, id: i64, page: i64) -> (r: Result<
    GeneralDocumentPage,
    ApiError,
>)
    ensures
        asked(
            old(store).history(),
            final(store).history(),
            GET_PAGE@,
            seq![ArgView::Integer(id), ArgView::Integer(page)],
        ),
        answers_one(
            r,
            first_of::<GeneralDocumentPage>(answer(final(store).history())),
            missing("general document page"@, id as int),
        ),
{
    one_or(store.get_general_document_page(id, page), not_found("general document page", id))
}

/// What is said where a page has no image.
pub open spec fn no_image(page: GeneralDocumentPageView) -> Refusal {
    Refusal {
        status: NOT_FOUND,
        detail: text_or(page.layout_warning, "page image is not available"@),
    }
}

/// Where the image of a page is.
pub fn general_page_image(store: &mut SqliteStore, id: i64, page: i64) -> (r: Result<
    String,
    ApiError,
>)
    ensures
        asked(
            old(store).history(),
            final(store).history(),
            GET_PAGE@,
            seq![ArgView::Integer(id), ArgView::Integer(page)],
        ),
        match first_of::<GeneralDocumentPage>(answer(final(store).history())) {
            Err(f) => refused(r, f),
            Ok(None) => refused_with(r, missing("general document page"@, id as int)),
            Ok(Some(p)) => match p.page_image_path {
                Some(path) => r matches Ok(s) && s@ == path,
                None => refused_with(r, no_image(p)),
            },
        },
{
    let found = match get_general_document_page(store, id, page) {
        Ok(found) => found,
        Err(e) => {
            return Err(e);
        },
    };
    match found.page_image_path {
        Some(path) => Ok(path),
        None => Err(
            ApiError::new(
                NOT_FOUND,
                string_or(&found.layout_warning, "page image is not available"),
            ),
        ),
    }
}

/// A general document with its pages.
pub fn get_general_document(store: &mut SqliteStore, id: i64) -> (r: Result<
    (GeneralDocumentSummary, Vec<GeneralDocumentPage>),
    ApiError,
>)
    ensures
        ({
            let before = old(store).history();
            let after = final(store).history();
            let first = after.take(before.len() as int + 1);
            &&& after.len() > before.len()
            &&& asked_for_document(before, first, id)
            &&& match document_in(first) {
                Err(f) => after == first && refused(r, f),
                Ok(None) => after == first && refused_with(r, no_document(id)),
                Ok(Some(doc)) => {
                    &&& asked(first, after, PAGES@, seq![ArgView::Integer(id)])
                    &&& match all_of::<GeneralDocumentPage>(answer(after)) {
                        Err(f) => refused(r, f),
                        Ok(pages) => r matches Ok((d, p)) && d.meaning() == doc && meanings(p@)
                            == pages,
                    }
                },
            }
        }),
{
    let ghost before = store.history();
    let found = general_document(store, id);
    let ghost first = store.history();
    assert(first.take(before.len() as int + 1) =~= first);
    let doc = match found {
        Ok(doc) => doc,
        Err(e) => {
            return Err(e);
        },
    };
    let list = store.list_general_document_pages(id);
    assert(store.history().take(before.len() as int + 1) =~= first);
    match list {
        Ok(pages) => Ok((doc, pages)),
        Err(e) => Err(store_error(&e)),
    }
}

/// A general document with its pages and their blocks, for an export.
pub fn general_export_payload(store: &mut SqliteStore, id: i64) -> (r: Result<
    (GeneralDocumentSummary, Vec<GeneralDocumentPage>, Vec<GeneralDocumentBlock>),
    ApiError,
>)
    ensures
        ({
            let before = old(store).history();
            let after = final(store).history();
            let n = before.len() as int;
            let first = after.take(n + 1);
            let second = after.take(n + 2);
            &&& after.len() > n
            &&& asked_for_document(before, first, id)
            &&& match document_in(first) {
                Err(f) => after == first && refused(r, f),
                Ok(None) => after == first && refused_with(r, no_document(id)),
                Ok(Some(doc)) => {
                    &&& after.len() > n + 1
                    &&& asked(first, second, PAGES@, seq![ArgView::Integer(id)])
                    &&& match all_of::<GeneralDocumentPage>(answer(second)) {
                        Err(f) => after == second && refused(r, f),
                        Ok(pages) => {
                            &&& asked(second, after, BLOCKS@, seq![ArgView::Integer(id)])
                            &&& match all_of::<GeneralDocumentBlock>(answer(after)) {
                                Err(f) => refused(r, f),
                                Ok(blocks) => r matches Ok((d, p, b)) && d.meaning() == doc
                                    && meanings(p@) == pages && meanings(b@) == blocks,
                            }
                        },
                    }
                },
            }
        }),
{
    let ghost before = store.history();
    let ghost n = before.len() as int;
    let found = get_general_document(store, id);
    let ghost second = store.history();
    assert(second.len() == n + 2 ==> second.take(n + 2) =~= second);
    let (doc, pages) = match found {
        Ok(pair) => pair,
        Err(e) => {
            return Err(e);
        },
    };
    let list = store.list_general_document_blocks(id, None);
    proof {
        assert(store.history().take(n + 2) =~= second);
        assert(store.history().take(n + 1) =~= second.take(n + 1));
    }
    match list {
        Ok(blocks) => Ok((doc, pages, blocks)),
        Err(e) => Err(store_error(&e)),
    }
}

/// Deletes a general document, and gives back what it was.
pub fn delete_general_document(store: &mut SqliteStore, id: i64) -> (r: Result<
    GeneralDocumentSummary,
    ApiError,
>)
    ensures
        ({
            let before = old(store).history();
            let after = final(store).history();
            let first = after.take(before.len() as int + 1);
            &&& after.len() > before.len()
            &&& asked_for_document(before, first, id)
            &&& match document_in(first) {
                Err(f) => after == first && refused(r, f),
                Ok(None) => after == first && refused_with(r, no_document(id)),
                Ok(Some(doc)) => {
                    &&& executed(
                        first,
                        after,
                        DELETE_GENERAL_DOCUMENT@,
                        seq![ArgView::Integer(id)],
                    )
                    &&& match any_result(changed_rows(after)) {
                        Ok(true) => r matches Ok(d) && d.meaning() == doc,
                        Ok(false) => refused_with(r, no_document(id)),
                        Err(f) => refused(r, f),
                    }
                },
            }
        }),
{
    let ghost before = store.history();
    let found = general_document(store, id);
    let ghost first = store.history();
    assert(first.take(before.len() as int + 1) =~= first);
    let doc = match found {
        Ok(doc) => doc,
        Err(e) => {
            return Err(e);
        },
    };
    let deleted = store.delete_general_document(id);
    assert(store.history().take(before.len() as int + 1) =~= first);
    match deleted {
        Ok(true) => Ok(doc),
        Ok(false) => Err(not_found("general document", id)),
        Err(e) => Err(store_error(&e)),
    }
}

/// Which directory holds the files of a general document.
#[derive(Clone, Copy, Debug, PartialEq, Eq, Structural)]
pub enum DocumentDir {
    /// The directory above the one that the file is in.
    Grandparent,
    /// The directory that the file is in.
    Parent,
    /// None: there is only the file.
    Nowhere,
}

/// Which directory holds the files of a general document, by the name of the
/// directory that its file is in.
pub fn general_document_dir(id: i64, parent_name: Option<&str>) -> (r: DocumentDir)
    ensures
        r == (match opt_str(parent_name) {
            Some(name) => if name == "source"@ {
                DocumentDir::Grandparent
            } else if name == decimal(id as int) {
                DocumentDir::Parent
            } else {
                DocumentDir::Nowhere
            },
            None => DocumentDir::Nowhere,
        }),
{
    match parent_name {
        Some(name) => if same(name, "source") {
            DocumentDir::Grandparent
        } else if same(name, show_i64(id).as_str()) {
            DocumentDir::Parent
        } else {
            DocumentDir::Nowhere
        },
        None => DocumentDir::Nowhere,
    }
}

// ---------------------------------------------------------------------------
// How blocks are shown
// ---------------------------------------------------------------------------

/// A block as it is shown.
#[derive(Debug)]
pub struct GeneralBlockResponse {
    pub id: i64,
    pub page_number: i64,
    pub block_index: i64,
    pub block_type: String,
    pub text: Option<String>,
    pub bbox: Option<Json>,
    pub style: Option<Json>,
    pub image_path: Option<String>,
}

/// What a block as it is shown is.
pub struct BlockResponseView {
    pub id: i64,
    pub page_number: i64,
    pub block_index: i64,
    pub block_type: Seq<char>,
    pub text: Option<Seq<char>>,
    pub bbox: Option<JsonView>,
    pub style: Option<JsonView>,
    pub image_path: Option<Seq<char>>,
}

/// A JSON value that may be missing.
pub open spec fn opt_value(value: Option<Json>) -> Option<JsonView> {
    match value {
        Some(v) => Some(v@),
        None => None,
    }
}

impl GeneralBlockResponse {
    pub open spec fn view(&self) -> BlockResponseView {
        BlockResponseView {
            id: self.id,
            page_number: self.page_number,
            block_index: self.block_index,
            block_type: self.block_type@,
            text: opt_text(self.text),
            bbox: opt_value(self.bbox),
            style: opt_value(self.style),
            image_path: opt_text(self.image_path),
        }
    }

    /// A block as it is shown: where its place and style were kept as JSON,
    /// they are shown as such, and left out where they cannot be read.
    pub fn of_block(block: &GeneralDocumentBlock) -> (r: GeneralBlockResponse)
        ensures
            r@ == block_shown(block.meaning()),
    {
        GeneralBlockResponse {
            id: block.id,
            page_number: block.page_number,
            block_index: block.block_index,
            block_type: block.block_type.clone(),
            text: copy_option(&block.text),
            bbox: parse_json_opt(borrow(&block.bbox_json)),
            style: parse_json_opt(borrow(&block.style_json)),
            image_path: copy_option(&block.image_path),
        }
    }
}

/// A block as it is shown.
pub open spec fn block_shown(block: GeneralDocumentBlockView) -> BlockResponseView {
    BlockResponseView {
        id: block.id,
        page_number: block.page_number,
        block_index: block.block_index,
        block_type: block.block_type,
        text: block.text,
        bbox: parsed_optional(block.bbox_json),
        style: parsed_optional(block.style_json),
        image_path: block.image_path,
    }
}

// ---------------------------------------------------------------------------
// Images of pages
// ---------------------------------------------------------------------------

/// The arguments of the statement that keeps what is known of an image.
pub open spec fn asset_args(id: i64, asset: AssetView) -> Seq<ArgView> {
    seq![
        text_arg(asset.path),
        int_arg(asset.width),
        int_arg(asset.height),
        text_arg(asset.warning),
        ArgView::Integer(id),
        ArgView::Integer(asset.page_number),
    ]
}

/// Whether an event is the statement that keeps what is known of an image.
pub open spec fn keeps_asset(event: Event, id: i64, asset: AssetView) -> bool {
    event matches Event::Execute { sql, args, changed } && sql == SET_PAGE_ASSET@ && args
        == asset_args(id, asset)
}

/// Whether the history has grown by one statement for each image, and by none
/// after one that was not carried out.
pub open spec fn assets_kept(
    before: Seq<Event>,
    after: Seq<Event>,
    id: i64,
    assets: Seq<AssetView>,
    r: Result<(), ApiError>,
) -> bool {
    let n = before.len() as int;
    let told = after.len() - n;
    &&& 0 <= told <= assets.len()
    &&& after.take(n) == before
    &&& forall|i: int|
        0 <= i < told ==> keeps_asset(#[trigger] after[n + i], id, assets[i]) && (i < told - 1
            || r is Ok ==> after[n + i]->Execute_changed is Ok)
    &&& r is Ok ==> told == assets.len()
    &&& r is Err ==> told > 0 && after.last()->Execute_changed is Err && refused(
        r,
        failure_of(after.last()),
    )
}

/// Keeps what is known of the images of the pages of a document.
pub fn keep_page_assets(store: &mut SqliteStore, id: i64, assets: &Vec<PageImageAsset>) -> (r:
    Result<(), ApiError>)
    ensures
        assets_kept(old(store).history(), final(store).history(), id, asset_views(assets@), r),
{
    let ghost before = store.history();
    let ghost n = before.len() as int;
    let ghost all = asset_views(assets@);
    assert(before.take(n) =~= before);
    let mut i: usize = 0;
    while i < assets.len()
        invariant
            i <= assets@.len(),
            before == old(store).history(),
            n == before.len(),
            all == asset_views(assets@),
            store.history().len() == n + i,
            store.history().take(n) == before,
            forall|k: int|
                0 <= k < i ==> keeps_asset(#[trigger] store.history()[n + k], id, all[k])
                    && store.history()[n + k]->Execute_changed is Ok,
        decreases assets@.len() - i,
    {
        let ghost h = store.history();
        let asset = &assets[i];
        let kept = store.update_general_page_asset(
            id,
            asset.page_number,
            borrow(&asset.path),
            asset.width,
            asset.height,
            borrow(&asset.warning),
        );
        proof {
            let now = store.history();
            assert(now.take(n) =~= h.take(n)) by {
                assert(now.drop_last().take(n) =~= now.take(n));
            }
            assert forall|k: int| 0 <= k < i implies keeps_asset(
                #[trigger] now[n + k],
                id,
                all[k],
            ) && now[n + k]->Execute_changed is Ok by {
                assert(now[n + k] == h[n + k]);
            }
            assert(now.last() == now[n + i]);
            assert(all[i as int] == asset@);
        }
        match kept {
            Ok(_) => {},
            Err(e) => {
                return Err(store_error(&e));
            },
        }
        i += 1;
    }
    Ok(())
}

/// Whether the images of the pages of a document have to be made before it is
/// read: where the document is a PDF and the image of a page is not there.
/// `there` says of each page whether its image is.
pub fn needs_page_images(filename: &str, there: &Vec<bool>) -> (r: bool)
    ensures
        r == (pdf_name(filename@) && exists|i: int| 0 <= i < there@.len() && !#[trigger] there@[i]),
{
    if !is_pdf(filename) {
        return false;
    }
    let mut i: usize = 0;
    while i < there.len()
        invariant
            pdf_name(filename@),
            i <= there@.len(),
            forall|k: int| 0 <= k < i ==> #[trigger] there@[k],
        decreases there@.len() - i,
    {
        if !there[i] {
            assert(!there@[i as int]);
            return true;
        }
        i += 1;
    }
    false
}

/// How many pages a document turns out to have, where that is more than is
/// known.
pub fn repaired_page_count(estimate: usize, known: i64) -> (r: Option<i64>)
    ensures
        r == (if estimate <= i64::MAX && estimate > known {
            Some(estimate as i64)
        } else {
            None
        }),
{
    if estimate as u64 > i64::MAX as u64 {
        return None;
    }
    if estimate as i64 > known {
        Some(estimate as i64)
    } else {
        None
    }
}

// ---------------------------------------------------------------------------
// Status
// ---------------------------------------------------------------------------

/// Whether the history has grown by the question for a general document, and the
/// request was answered with its status.
pub open spec fn status_answered(
    before: Seq<Event>,
    after: Seq<Event>,
    id: i64,
    r: Result<String, ApiError>,
) -> bool {
    &&& asked_for_document(before, after, id)
    &&& match document_in(after) {
        Err(f) => refused(r, f),
        Ok(Some(doc)) => r matches Ok(s) && s@ == doc.status,
        Ok(None) => r matches Ok(s) && s@ == "unknown"@,
    }
}

/// The status of a general document.
pub fn current_status(store: &mut SqliteStore, id: i64) -> (r: Result<String, ApiError>)
    ensures
        status_answered(old(store).history(), final(store).history(), id, r),
{
    match store.get_general_document(id) {
        Ok(Some(doc)) => Ok(doc.status),
        Ok(None) => Ok("unknown".to_owned()),
        Err(e) => Err(store_error(&e)),
    }
}

/// A block is shown with all that is known of it, each thing under its own name.
pub proof fn law_block_is_shown_as_it_is(block: GeneralDocumentBlockView, place: Seq<char>)
    ensures
        ({
            let response = block_shown(block);
            &&& response.id == block.id
            &&& response.page_number == block.page_number
            &&& response.block_index == block.block_index
            &&& response.block_type == block.block_type
            &&& response.text == block.text
            &&& response.image_path == block.image_path
            &&& block.bbox_json == Some(place) ==> response.bbox == parsed_json(place)
            &&& block.bbox_json is None ==> response.bbox is None
            &&& block.style_json == Some(place) ==> response.style == parsed_json(place)
            &&& block.style_json is None ==> response.style is None
        }),
{
}

/// What is known of the image of a page reaches that page, and no other: the page
/// then has the image or the warning, and what else is known of it stays.
pub proof fn law_asset_reaches_its_page(
    before: Seq<GeneralDocumentPageView>,
    after: Seq<GeneralDocumentPageView>,
    id: i64,
    asset: AssetView,
    last_id: i64,
    i: int,
)
    requires
        pages_step(before, SET_PAGE_ASSET@, asset_args(id, asset), last_id, after),
        0 <= i < before.len(),
    ensures
        after.len() == before.len(),
        before[i].document_id == id && before[i].page_number == asset.page_number ==> {
            &&& after[i].page_image_path == asset.path
            &&& after[i].page_width == asset.width
            &&& after[i].page_height == asset.height
            &&& after[i].layout_warning == asset.warning
            &&& after[i].ocr_text == before[i].ocr_text
            &&& after[i].edited_text == before[i].edited_text
            &&& after[i].status == before[i].status
        },
        before[i].document_id != id || before[i].page_number != asset.page_number ==> after[i]
            == before[i],
{
    let args = asset_args(id, asset);
    assert(arg_option(args[0]) == asset.path);
    assert(arg_opt_number(args[1]) == asset.width);
    assert(arg_opt_number(args[2]) == asset.height);
    assert(arg_option(args[3]) == asset.warning);
}

/// Where a page has no image, it is told why, if it is known.
pub proof fn law_missing_image_is_explained(page: GeneralDocumentPageView, reason: Seq<char>)
    ensures
        page.layout_warning == Some(reason) ==> no_image(page).detail == reason,
        page.layout_warning is None ==> no_image(page).detail == "page image is not available"@,
        no_image(page).status == 404,
{
}

/// The status that is told of a document is the one that it has, and a document
/// that is not there has none that is known.
pub proof fn law_status_is_that_of_the_document(
    before: Seq<Event>,
    after: Seq<Event>,
    id: i64,
    r: Result<String, ApiError>,
)
    requires
        status_answered(before, after, id, r),
    ensures
        document_in(after) matches Ok(Some(doc)) ==> (r matches Ok(s) && s@ == doc.status),
        document_in(after) == Ok::<Option<GeneralDocumentSummaryView>, Fault>(None) ==> (
        r matches Ok(s) && s@ == "unknown"@),
        document_in(after) is Err ==> r is Err,
{
}

} // verus!
