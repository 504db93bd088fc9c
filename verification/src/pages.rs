//! The images of the pages of an uploaded file: which tool makes them, what the
//! files are called, and what is kept of each page when a tool falls short.
use vstd::prelude::*;

use crate::generation::Failed;
use crate::number::decimal;
use crate::number::digits;
use crate::number::law_digits_stand_for_number;
use crate::number::padded_decimal;
use crate::number::parse_usize;
use crate::number::parsed;
use crate::number::show_i64;
use crate::number::show_padded_i64;
use crate::number::value_of;
use crate::number::zeros;
use crate::text::begins_with;
use crate::text::cat2;
use crate::text::cat3;
use crate::text::chars_of;
use crate::text::ends_with;
use crate::text::finishes_with;
use crate::text::lemma_assoc;
use crate::text::lemma_begins_with_concat;
use crate::text::lemma_cancel;
use crate::text::lemma_end_stands;
use crate::text::opt_text;
use crate::text::push_text;
use crate::text::same;
use crate::text::texts;
use crate::text::trim;
use crate::text::trimmed;
use crate::unicode::lossy_text;
use crate::unicode::lowercase;
use crate::unicode::utf8_lossy;

verus! {

// ---------------------------------------------------------------------------
// Assets
// ---------------------------------------------------------------------------

/// What is known of the image of a page.
#[derive(Debug)]
pub struct PageImageAsset {
    pub page_number: i64,
    pub path: Option<String>,
    pub width: Option<i64>,
    pub height: Option<i64>,
    pub warning: Option<String>,
}

/// What is known of the image of a page.
pub struct AssetView {
    pub page_number: i64,
    pub path: Option<Seq<char>>,
    pub width: Option<i64>,
    pub height: Option<i64>,
    pub warning: Option<Seq<char>>,
}

impl PageImageAsset {
    pub open spec fn view(&self) -> AssetView {
        AssetView {
            page_number: self.page_number,
            path: opt_text(self.path),
            width: self.width,
            height: self.height,
            warning: opt_text(self.warning),
        }
    }
}

/// What is known of the images of pages.
pub open spec fn asset_views(list: Seq<PageImageAsset>) -> Seq<AssetView> {
    Seq::new(list.len(), |i: int| list[i]@)
}

/// A page with an image.
pub open spec fn with_image(page: int, path: Seq<char>) -> AssetView {
    AssetView { page_number: page as i64, path: Some(path), width: None, height: None, warning: None }
}

/// A page without an image, and why it has none.
pub open spec fn without_image(page: int, warning: Seq<char>) -> AssetView {
    AssetView {
        page_number: page as i64,
        path: None,
        width: None,
        height: None,
        warning: Some(warning),
    }
}

/// A page with an image.
fn imaged(page: i64, path: String) -> (r: PageImageAsset)
    ensures
        r@ == with_image(page as int, path@),
{
    PageImageAsset { page_number: page, path: Some(path), width: None, height: None, warning: None }
}

/// A page without an image, and why it has none.
fn unimaged(page: i64, warning: &str) -> (r: PageImageAsset)
    ensures
        r@ == without_image(page as int, warning@),
{
    PageImageAsset {
        page_number: page,
        path: None,
        width: None,
        height: None,
        warning: Some(warning.to_owned()),
    }
}

/// Adds what is known of an image.
fn add_asset(list: &mut Vec<PageImageAsset>, asset: PageImageAsset)
    ensures
        asset_views(final(list)@) == asset_views(old(list)@).push(asset@),
{
    list.push(asset);
    assert(asset_views(list@) =~= asset_views(old(list)@).push(asset@));
}

// ---------------------------------------------------------------------------
// Names of files and arguments of tools
// ---------------------------------------------------------------------------

pub const NOT_PRODUCED: &'static str = "PDF page image render did not produce this page";

pub const FIRST_PAGE_ONLY: &'static str =
    "QuickLook rendered only the first page; install pdftoppm for all page previews";

pub const NEEDS_RENDERER: &'static str =
    "PDF page image rendering for this page requires pdftoppm";

pub const TEXT_FALLBACK: &'static str =
    "PDF page image rendering requires pdftoppm; using text fallback";

/// The program that renders the pages of a PDF with the `fitz` module. It
/// prints how many pages it has rendered.
pub const FITZ_SCRIPT: &'static str = "
import pathlib
import sys
import fitz

source = sys.argv[1]
out_dir = pathlib.Path(sys.argv[2])
max_pages = int(sys.argv[3])
doc = fitz.open(source)
pages = min(len(doc), max_pages)
for index in range(pages):
    page = doc.load_page(index)
    pix = page.get_pixmap(matrix=fitz.Matrix(2, 2), alpha=False)
    pix.save(out_dir / f\"page-{index + 1:03}.png\")
print(pages)
";

/// The name of the image of a page.
pub open spec fn image_name(page: int) -> Seq<char> {
    "page-"@ + padded_decimal(page, 3) + ".png"@
}

/// The name of the image of a page.
pub fn page_image_name(page: i64) -> (r: String)
    ensures
        r@ == image_name(page as int),
{
    cat3("page-", show_padded_i64(page, 3).as_str(), ".png")
}

/// The name that `pdftoppm` gives the image of a page.
pub fn rendered_page_name(page: i64) -> (r: String)
    ensures
        r@ == "rendered-page-"@ + decimal(page as int) + ".png"@,
{
    cat3("rendered-page-", show_i64(page).as_str(), ".png")
}

/// The arguments with which `python3` renders the pages of a file into a
/// directory.
pub fn fitz_args(source: &str, dir: &str, page_count: i64) -> (r: Vec<String>)
    ensures
        texts(r@) == seq!["-c"@, FITZ_SCRIPT@, source@, dir@, decimal(page_count as int)],
{
    let mut args: Vec<String> = Vec::new();
    push_text(&mut args, "-c".to_owned());
    push_text(&mut args, FITZ_SCRIPT.to_owned());
    push_text(&mut args, source.to_owned());
    push_text(&mut args, dir.to_owned());
    push_text(&mut args, show_i64(page_count));
    assert(texts(args@) =~= seq![
        "-c"@,
        FITZ_SCRIPT@,
        source@,
        dir@,
        decimal(page_count as int),
    ]);
    args
}

/// The arguments with which `pdftoppm` renders the pages of a file.
pub fn pdftoppm_args(source: &str, prefix: &str, page_count: i64) -> (r: Vec<String>)
    ensures
        texts(r@) == seq![
            "-png"@,
            "-r"@,
            "150"@,
            "-f"@,
            "1"@,
            "-l"@,
            decimal(page_count as int),
            source@,
            prefix@,
        ],
{
    let mut args: Vec<String> = Vec::new();
    push_text(&mut args, "-png".to_owned());
    push_text(&mut args, "-r".to_owned());
    push_text(&mut args, "150".to_owned());
    push_text(&mut args, "-f".to_owned());
    push_text(&mut args, "1".to_owned());
    push_text(&mut args, "-l".to_owned());
    push_text(&mut args, show_i64(page_count));
    push_text(&mut args, source.to_owned());
    push_text(&mut args, prefix.to_owned());
    assert(texts(args@) =~= seq![
        "-png"@,
        "-r"@,
        "150"@,
        "-f"@,
        "1"@,
        "-l"@,
        decimal(page_count as int),
        source@,
        prefix@,
    ]);
    args
}

/// The arguments with which `qlmanage` shows the first page of a file.
pub fn quicklook_args(source: &str, dir: &str) -> (r: Vec<String>)
    ensures
        texts(r@) == seq!["-t"@, "-s"@, "1200"@, "-o"@, dir@, source@],
{
    let mut args: Vec<String> = Vec::new();
    push_text(&mut args, "-t".to_owned());
    push_text(&mut args, "-s".to_owned());
    push_text(&mut args, "1200".to_owned());
    push_text(&mut args, "-o".to_owned());
    push_text(&mut args, dir.to_owned());
    push_text(&mut args, source.to_owned());
    assert(texts(args@) =~= seq!["-t"@, "-s"@, "1200"@, "-o"@, dir@, source@]);
    args
}

/// A letter or its capital.
pub open spec fn letter(c: char, small: char, capital: char) -> bool {
    c == small || c == capital
}

/// Whether the extension of a file is that of a PNG image, in whatever case.
pub open spec fn png_extension(extension: Seq<char>) -> bool {
    &&& extension.len() == 3
    &&& letter(extension[0], 'p', 'P')
    &&& letter(extension[1], 'n', 'N')
    &&& letter(extension[2], 'g', 'G')
}

/// Whether the extension of a file is that of a PNG image.
pub fn is_png_extension(extension: &str) -> (r: bool)
    ensures
        r == png_extension(extension@),
{
    let cs = chars_of(extension);
    cs.len() == 3 && (cs[0] == 'p' || cs[0] == 'P') && (cs[1] == 'n' || cs[1] == 'N') && (cs[2]
        == 'g' || cs[2] == 'G')
}

/// Whether a file stands in a list.
pub open spec fn listed(list: Seq<Seq<char>>, name: Seq<char>) -> bool {
    exists|i: int| 0 <= i < list.len() && #[trigger] list[i] == name
}

/// Whether a file stands in a list.
fn is_listed(list: &Vec<String>, name: &str) -> (r: bool)
    ensures
        r == listed(texts(list@), name@),
{
    let ghost all = texts(list@);
    let mut i: usize = 0;
    while i < list.len()
        invariant
            i <= list@.len(),
            all == texts(list@),
            forall|k: int| 0 <= k < i ==> #[trigger] all[k] != name@,
        decreases list@.len() - i,
    {
        assert(all[i as int] == list@[i as int]@);
        if same(list[i].as_str(), name) {
            return true;
        }
        i += 1;
    }
    false
}

/// The first file of a list that was not in an earlier one.
pub fn first_new_file(before: &Vec<String>, after: &Vec<String>) -> (r: Option<usize>)
    ensures
        match r {
            Some(i) => {
                &&& i < after@.len()
                &&& !listed(texts(before@), after@[i as int]@)
                &&& forall|k: int| 0 <= k < i ==> listed(texts(before@), (#[trigger] after@[k])@)
            },
            None => forall|k: int|
                0 <= k < after@.len() ==> listed(texts(before@), (#[trigger] after@[k])@),
        },
{
    let mut i: usize = 0;
    while i < after.len()
        invariant
            i <= after@.len(),
            forall|k: int| 0 <= k < i ==> listed(texts(before@), (#[trigger] after@[k])@),
        decreases after@.len() - i,
    {
        if !is_listed(before, after[i].as_str()) {
            return Some(i);
        }
        i += 1;
    }
    None
}

// ---------------------------------------------------------------------------
// What is kept of the pages
// ---------------------------------------------------------------------------

/// How many pages there are.
pub open spec fn pages_up_to(count: i64) -> nat {
    if count < 0 {
        0
    } else {
        count as nat
    }
}

/// All pages have an image.
pub open spec fn all_rendered(prefix: Seq<char>, count: i64) -> Seq<AssetView> {
    Seq::new(pages_up_to(count), |i: int| with_image(i + 1, prefix + image_name(i + 1)))
}

/// The pages that are there have an image, and the others have none.
pub open spec fn some_rendered(prefix: Seq<char>, count: i64, there: Seq<bool>) -> Seq<AssetView> {
    Seq::new(
        pages_up_to(count),
        |i: int|
            if i < there.len() && there[i] {
                with_image(i + 1, prefix + image_name(i + 1))
            } else {
                without_image(i + 1, NOT_PRODUCED@)
            },
    )
}

/// The first page has an image.
pub open spec fn first_page(prefix: Seq<char>, count: i64) -> AssetView {
    AssetView {
        page_number: 1,
        path: Some(prefix + "page-001.png"@),
        width: None,
        height: None,
        warning: if count > 1 {
            Some(FIRST_PAGE_ONLY@)
        } else {
            None
        },
    }
}

/// Only the first page has an image.
pub open spec fn first_rendered(prefix: Seq<char>, count: i64) -> Seq<AssetView> {
    seq![first_page(prefix, count)] + Seq::new(
        if count < 2 {
            0
        } else {
            (count - 1) as nat
        },
        |i: int| without_image(i + 2, NEEDS_RENDERER@),
    )
}

/// No page has an image.
pub open spec fn none_rendered(count: i64) -> Seq<AssetView> {
    Seq::new(pages_up_to(count), |i: int| without_image(i + 1, TEXT_FALLBACK@))
}

/// Pages without an image, from page `from` on.
fn add_unimaged(list: &mut Vec<PageImageAsset>, from: i64, count: i64, warning: &str)
    requires
        from >= 1,
    ensures
        asset_views(final(list)@) == asset_views(old(list)@) + Seq::new(
            if count < from {
                0
            } else {
                (count - from + 1) as nat
            },
            |i: int| without_image(i + from, warning@),
        ),
{
    let ghost start = asset_views(list@);
    let mut done: i64 = from - 1;
    assert(asset_views(list@) =~= start + Seq::new(
        0nat,
        |i: int| without_image(i + from, warning@),
    ));
    while done < count
        invariant
            from >= 1,
            from - 1 <= done,
            done <= count || done == from - 1,
            asset_views(list@) == start + Seq::new(
                (done - from + 1) as nat,
                |i: int| without_image(i + from, warning@),
            ),
        decreases count - done,
    {
        done += 1;
        add_asset(list, unimaged(done, warning));
        assert(asset_views(list@) =~= start + Seq::new(
            (done - from + 1) as nat,
            |i: int| without_image(i + from, warning@),
        ));
    }
}

/// What is kept where all pages have an image.
fn keep_all(prefix: &str, count: i64) -> (r: Vec<PageImageAsset>)
    ensures
        asset_views(r@) == all_rendered(prefix@, count),
{
    let mut list: Vec<PageImageAsset> = Vec::new();
    assert(asset_views(list@) =~= all_rendered(prefix@, 0));
    let mut page: i64 = 0;
    while page < count
        invariant
            0 <= page,
            page <= count || page == 0,
            asset_views(list@) == all_rendered(prefix@, page),
        decreases count - page,
    {
        page += 1;
        add_asset(&mut list, imaged(page, cat2(prefix, page_image_name(page).as_str())));
        assert(asset_views(list@) =~= all_rendered(prefix@, page));
    }
    assert(asset_views(list@) =~= all_rendered(prefix@, count));
    list
}

/// What is kept where some pages have an image.
fn keep_some(prefix: &str, count: i64, there: &Vec<bool>) -> (r: Vec<PageImageAsset>)
    ensures
        asset_views(r@) == some_rendered(prefix@, count, there@),
{
    let mut list: Vec<PageImageAsset> = Vec::new();
    assert(asset_views(list@) =~= some_rendered(prefix@, 0, there@));
    let mut page: i64 = 0;
    while page < count
        invariant
            0 <= page,
            page <= count || page == 0,
            asset_views(list@) == some_rendered(prefix@, page, there@),
        decreases count - page,
    {
        let produced = (page as u64) < there.len() as u64 && there[page as usize];
        page += 1;
        if produced {
            add_asset(&mut list, imaged(page, cat2(prefix, page_image_name(page).as_str())));
        } else {
            add_asset(&mut list, unimaged(page, NOT_PRODUCED));
        }
        assert(asset_views(list@) =~= some_rendered(prefix@, page, there@));
    }
    assert(asset_views(list@) =~= some_rendered(prefix@, count, there@));
    list
}

/// What is kept where only the first page has an image.
fn keep_first(prefix: &str, count: i64) -> (r: Vec<PageImageAsset>)
    ensures
        asset_views(r@) == first_rendered(prefix@, count),
{
    let mut list: Vec<PageImageAsset> = Vec::new();
    let warning = if count > 1 {
        Some(FIRST_PAGE_ONLY.to_owned())
    } else {
        None
    };
    add_asset(
        &mut list,
        PageImageAsset {
            page_number: 1,
            path: Some(cat2(prefix, "page-001.png")),
            width: None,
            height: None,
            warning,
        },
    );
    add_unimaged(&mut list, 2, count, NEEDS_RENDERER);
    assert(asset_views(list@) =~= first_rendered(prefix@, count));
    list
}

/// What is kept where no page has an image.
fn keep_none(count: i64) -> (r: Vec<PageImageAsset>)
    ensures
        asset_views(r@) == none_rendered(count),
{
    let mut list: Vec<PageImageAsset> = Vec::new();
    add_unimaged(&mut list, 1, count, TEXT_FALLBACK);
    assert(asset_views(list@) =~= none_rendered(count));
    list
}

// ---------------------------------------------------------------------------
// One tool after the other
// ---------------------------------------------------------------------------

/// What came of running a tool.
#[derive(Debug)]
pub enum ToolRun {
    /// The tool is not there.
    Absent,
    /// The tool has failed.
    Failed,
    /// The tool has done its work, and printed this.
    Done(Vec<u8>),
}

/// What a file holds where the images of its pages are to go: the directory,
/// with the separator at its end, and how many pages there are.
#[derive(Debug)]
pub struct RenderTask {
    pub prefix: String,
    pub page_count: i64,
}

/// What is to be done next for the images of the pages.
#[derive(Debug)]
pub enum PageImages {
    /// The file is an image. It is to be copied to this path.
    Copy(CopyPending),
    /// `python3` is to render the pages with `fitz`.
    Fitz(FitzPending),
    /// `pdftoppm` is to render the pages.
    Poppler(PopplerPending),
    /// `qlmanage` is to show the first page.
    QuickLook(QuickLookPending),
    /// What is known of the images of the pages.
    Known(Vec<PageImageAsset>),
}

/// What is to be done next for the images of the pages.
pub enum PageImagesView {
    Copy { path: Seq<char> },
    Fitz { prefix: Seq<char>, page_count: i64 },
    Poppler { prefix: Seq<char>, page_count: i64 },
    QuickLook { prefix: Seq<char>, page_count: i64 },
    Known(Seq<AssetView>),
}

#[derive(Debug)]
pub struct CopyPending {
    pub path: String,
}

#[derive(Debug)]
pub struct FitzPending {
    pub task: RenderTask,
}

#[derive(Debug)]
pub struct PopplerPending {
    pub task: RenderTask,
}

#[derive(Debug)]
pub struct QuickLookPending {
    pub task: RenderTask,
}

impl PageImages {
    pub open spec fn view(&self) -> PageImagesView {
        match self {
            PageImages::Copy(p) => PageImagesView::Copy { path: p.path@ },
            PageImages::Fitz(p) => PageImagesView::Fitz {
                prefix: p.task.prefix@,
                page_count: p.task.page_count,
            },
            PageImages::Poppler(p) => PageImagesView::Poppler {
                prefix: p.task.prefix@,
                page_count: p.task.page_count,
            },
            PageImages::QuickLook(p) => PageImagesView::QuickLook {
                prefix: p.task.prefix@,
                page_count: p.task.page_count,
            },
            PageImages::Known(list) => PageImagesView::Known(asset_views(list@)),
        }
    }
}

/// Whether a file is a PDF, by its name.
pub open spec fn pdf_name(filename: Seq<char>) -> bool {
    finishes_with(lowercase(filename), ".pdf"@)
}

/// Whether a file is a PDF, by its name.
pub fn is_pdf(filename: &str) -> (r: bool)
    ensures
        r == pdf_name(filename@),
{
    ends_with(filename.to_lowercase().as_str(), ".pdf")
}

/// What is done first for the images of the pages of a file.
pub open spec fn first_step(
    filename: Seq<char>,
    prefix: Seq<char>,
    page_count: i64,
) -> PageImagesView {
    if pdf_name(filename) {
        PageImagesView::Fitz { prefix, page_count }
    } else if finishes_with(lowercase(filename), ".png"@) {
        PageImagesView::Copy { path: prefix + "page-001.png"@ }
    } else {
        PageImagesView::Copy { path: prefix + "page-001.jpg"@ }
    }
}

/// Begins with the images of the pages of a file: an image is copied, and the
/// pages of a PDF are rendered. The images go where `prefix` says, which is the
/// directory with the separator at its end.
pub fn prepare_general_page_images(filename: &str, prefix: &str, page_count: i64) -> (r: PageImages)
    ensures
        r@ == first_step(filename@, prefix@, page_count),
{
    if is_pdf(filename) {
        return PageImages::Fitz(
            FitzPending { task: RenderTask { prefix: prefix.to_owned(), page_count } },
        );
    }
    let name = if ends_with(filename.to_lowercase().as_str(), ".png") {
        "page-001.png"
    } else {
        "page-001.jpg"
    };
    PageImages::Copy(CopyPending { path: cat2(prefix, name) })
}

impl CopyPending {
    /// Goes on when the file has been copied.
    pub fn copied(self) -> (r: Vec<PageImageAsset>)
        ensures
            asset_views(r@) == seq![with_image(1, self.path@)],
    {
        let mut list: Vec<PageImageAsset> = Vec::new();
        let path = self.path;
        add_asset(&mut list, imaged(1, path));
        assert(asset_views(list@) =~= seq![with_image(1, path@)]);
        list
    }
}

/// How many pages a program says that it has rendered.
pub open spec fn printed_count(stdout: Seq<u8>) -> nat {
    match parsed(trimmed(lossy_text(stdout)), usize::MAX as nat) {
        Some(n) => n,
        None => 0,
    }
}

/// How many pages a program says that it has rendered.
pub fn rendered_count(stdout: &[u8]) -> (r: usize)
    ensures
        r == printed_count(stdout@),
{
    match parse_usize(trim(utf8_lossy(stdout).as_str()).as_str()) {
        Some(n) => n,
        None => 0,
    }
}

/// Whether a program has rendered as many pages as there are.
pub open spec fn rendered_all(run: ToolRun, page_count: i64) -> bool {
    run matches ToolRun::Done(stdout) && printed_count(stdout@) >= page_count
}

impl FitzPending {
    /// Goes on when `fitz` has been tried.
    pub fn tried(self, run: ToolRun) -> (r: PageImages)
        ensures
            r@ == if rendered_all(run, self.task.page_count) {
                PageImagesView::Known(all_rendered(self.task.prefix@, self.task.page_count))
            } else {
                PageImagesView::Poppler {
                    prefix: self.task.prefix@,
                    page_count: self.task.page_count,
                }
            },
    {
        let count = self.task.page_count;
        let enough = match &run {
            ToolRun::Done(stdout) => count < 0 || rendered_count(stdout.as_slice()) as u64
                >= count as u64,
            _ => false,
        };
        if enough {
            PageImages::Known(keep_all(self.task.prefix.as_str(), count))
        } else {
            PageImages::Poppler(PopplerPending { task: self.task })
        }
    }
}

impl PopplerPending {
    /// Goes on when `pdftoppm` has been tried. `there` says of each page, from
    /// the first on, whether its image is there.
    pub fn tried(self, run: ToolRun, there: &Vec<bool>) -> (r: PageImages)
        ensures
            r@ == if run is Done {
                PageImagesView::Known(
                    some_rendered(self.task.prefix@, self.task.page_count, there@),
                )
            } else {
                PageImagesView::QuickLook {
                    prefix: self.task.prefix@,
                    page_count: self.task.page_count,
                }
            },
    {
        match run {
            ToolRun::Done(_) => PageImages::Known(
                keep_some(self.task.prefix.as_str(), self.task.page_count, there),
            ),
            _ => PageImages::QuickLook(QuickLookPending { task: self.task }),
        }
    }
}

impl QuickLookPending {
    /// Goes on when `qlmanage` has been tried, and the image of the first page
    /// is in its place or not.
    pub fn tried(self, shown: bool) -> (r: Vec<PageImageAsset>)
        ensures
            asset_views(r@) == if shown {
                first_rendered(self.task.prefix@, self.task.page_count)
            } else {
                none_rendered(self.task.page_count)
            },
    {
        if shown {
            keep_first(self.task.prefix.as_str(), self.task.page_count)
        } else {
            keep_none(self.task.page_count)
        }
    }
}

/// Whether something is known of every page, in order: where its image is, or
/// why there is none.
pub open spec fn accounts_for(list: Seq<AssetView>, count: i64) -> bool {
    &&& list.len() == count
    &&& forall|i: int|
        0 <= i < count ==> (#[trigger] list[i]).page_number == i + 1 && (list[i].path is Some
            || list[i].warning is Some)
}

/// Whatever the tools do, something is known of every page of a PDF in the end:
/// where its image is, or why there is none.
pub proof fn law_every_page_is_accounted_for(prefix: Seq<char>, count: i64, there: Seq<bool>)
    requires
        count >= 1,
    ensures
        accounts_for(all_rendered(prefix, count), count),
        accounts_for(some_rendered(prefix, count, there), count),
        accounts_for(first_rendered(prefix, count), count),
        accounts_for(none_rendered(count), count),
{
}

/// The value of digits does not change when zeros stand before them.
proof fn lemma_zeros_count_nothing(n: nat, d: Seq<char>)
    ensures
        value_of(zeros(n) + d) == value_of(d),
    decreases n + d.len(),
{
    let s = zeros(n) + d;
    if d.len() > 0 {
        assert(s.drop_last() =~= zeros(n) + d.drop_last());
        assert(s.last() == d.last());
        lemma_zeros_count_nothing(n, d.drop_last());
    } else if n > 0 {
        assert(s.drop_last() =~= zeros((n - 1) as nat) + d);
        assert(s.last() == '0');
        lemma_zeros_count_nothing((n - 1) as nat, d);
    } else {
        assert(s =~= d);
    }
}

/// The images of different pages have different names.
pub proof fn law_images_have_names_of_their_own(a: int, b: int)
    requires
        0 <= a < b,
    ensures
        image_name(a) != image_name(b),
        finishes_with(image_name(a), ".png"@),
{
    let x = padded_decimal(a, 3);
    let y = padded_decimal(b, 3);
    lemma_end_stands("page-"@ + x, ".png"@);
    law_digits_stand_for_number(a as nat);
    law_digits_stand_for_number(b as nat);
    let da = digits(a as nat);
    let db = digits(b as nat);
    if da.len() < 3 {
        lemma_zeros_count_nothing((3 - da.len()) as nat, da);
    }
    if db.len() < 3 {
        lemma_zeros_count_nothing((3 - db.len()) as nat, db);
    }
    assert(value_of(x) == a);
    assert(value_of(y) == b);
    if image_name(a) == image_name(b) {
        lemma_cancel("page-"@, x, y, ".png"@);
    }
}

/// Where some pages were rendered, those that are there have their image, under
/// their own name, and no warning; the others have a warning and no image.
pub proof fn law_only_rendered_pages_have_images(
    prefix: Seq<char>,
    count: i64,
    there: Seq<bool>,
    i: int,
)
    requires
        0 <= i < count,
    ensures
        ({
            let page = some_rendered(prefix, count, there)[i];
            &&& page.page_number == i + 1
            &&& i < there.len() && there[i] ==> page.path == Some(prefix + image_name(i + 1))
                && page.warning is None
            &&& i >= there.len() || !there[i] ==> page.path is None && page.warning is Some
        }),
        all_rendered(prefix, count)[i].path == Some(prefix + image_name(i + 1)),
        all_rendered(prefix, count)[i].warning is None,
        first_rendered(prefix, count)[i].path is Some <==> i == 0,
        none_rendered(count)[i].path is None,
{
}

/// A PDF is rendered page by page, and an image is copied as the first page, with
/// an extension of its kind.
pub proof fn law_only_pdf_files_are_rendered(filename: Seq<char>, prefix: Seq<char>, count: i64)
    ensures
        finishes_with(lowercase(filename), ".pdf"@) ==> first_step(filename, prefix, count)
            is Fitz,
        finishes_with(lowercase(filename), ".png"@) && !finishes_with(
            lowercase(filename),
            ".pdf"@,
        ) ==> (first_step(filename, prefix, count) matches PageImagesView::Copy { path }
            && finishes_with(path, ".png"@) && begins_with(path, prefix)),
        !finishes_with(lowercase(filename), ".png"@) && !finishes_with(
            lowercase(filename),
            ".pdf"@,
        ) ==> (first_step(filename, prefix, count) matches PageImagesView::Copy { path }
            && finishes_with(path, ".jpg"@) && begins_with(path, prefix)),
{
    reveal_strlit("page-001.png");
    reveal_strlit("page-001.jpg");
    reveal_strlit(".png");
    reveal_strlit(".jpg");
    let png = "page-001.png"@;
    let jpg = "page-001.jpg"@;
    lemma_begins_with_concat(prefix, png);
    lemma_begins_with_concat(prefix, jpg);
    assert(png =~= png.take(8) + ".png"@);
    assert(jpg =~= jpg.take(8) + ".jpg"@);
    lemma_assoc(prefix, png.take(8), ".png"@);
    lemma_assoc(prefix, jpg.take(8), ".jpg"@);
    lemma_end_stands(prefix + png.take(8), ".png"@);
    lemma_end_stands(prefix + jpg.take(8), ".jpg"@);
}

/// Where only the first page of several was rendered, each page says so: the first
/// that there is no image of the others, and the others that they have none. A
/// document of one page has nothing to say.
pub proof fn law_first_page_warns_of_the_others(prefix: Seq<char>, count: i64, i: int)
    requires
        0 <= i < count,
    ensures
        first_rendered(prefix, count)[i].warning is Some <==> count > 1,
        i > 0 ==> first_rendered(prefix, count)[i].path is None,
        first_rendered(prefix, count)[0].path == Some(prefix + "page-001.png"@),
{
}

/// A file with a PNG image is told by its extension, in whatever case, and by
/// nothing longer or shorter.
pub proof fn law_png_extension_in_any_case(extension: Seq<char>)
    ensures
        extension == "png"@ || extension == "PNG"@ || extension == "Png"@ ==> png_extension(
            extension,
        ),
        extension == "jpg"@ ==> !png_extension(extension),
        extension.len() != 3 ==> !png_extension(extension),
{
    reveal_strlit("png");
    reveal_strlit("PNG");
    reveal_strlit("Png");
    reveal_strlit("jpg");
}

} // verus!
