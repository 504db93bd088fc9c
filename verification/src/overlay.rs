//! PDF files whose pages are the images of the pages of a document with the
//! text drawn over them.
//!
//! An external program draws the pages one after the other and then joins them.
//! The run is a machine without input or output of its own: each state says what
//! the program is told next.
use vstd::prelude::*;

use crate::pages::image_name;
use crate::pages::law_images_have_names_of_their_own;
use crate::pages::page_image_name;
use crate::text::begins_with;
use crate::text::cat2;
use crate::text::first_chars;
use crate::text::is_space;
use crate::text::lemma_begins_with_concat;
use crate::text::lemma_single_line;
use crate::text::lemma_trimmed_around;
use crate::text::lemma_trimmed_plain;
use crate::text::lines;
use crate::text::lines_of;
use crate::text::opt_text;
use crate::text::plain;
use crate::text::push_text;
use crate::text::string_or;
use crate::text::texts;
use crate::text::trim;
use crate::text::trimmed;
use crate::text::truncate_chars;

verus! {

// ---------------------------------------------------------------------------
// What the program is told
// ---------------------------------------------------------------------------

/// The most characters of a block that are drawn over the image of a page.
pub const ANNOTATION_CHARS: usize = 180;

/// A block that may be drawn over the image of its page: its text and where it
/// goes, as it is written.
#[derive(Debug)]
pub struct Annotation {
    pub text: Option<String>,
    pub at: Option<String>,
}

/// What is drawn of a text: the beginning of its first line.
pub open spec fn annotation_text(text: Seq<char>) -> Seq<char> {
    let list = lines_of(text);
    first_chars(
        if list.len() == 0 {
            Seq::empty()
        } else {
            list[0]
        },
        ANNOTATION_CHARS as nat,
    )
}

/// The arguments that draw a block.
pub open spec fn annotation_args(text: Option<Seq<char>>, at: Option<Seq<char>>) -> Seq<
    Seq<char>,
> {
    match (text, at) {
        (Some(text), Some(at)) => if trimmed(text).len() == 0 {
            Seq::empty()
        } else {
            seq!["-annotate"@, at, annotation_text(trimmed(text))]
        },
        _ => Seq::empty(),
    }
}

/// The arguments that draw the blocks.
pub open spec fn annotations_args(list: Seq<Annotation>) -> Seq<Seq<char>>
    decreases list.len(),
{
    if list.len() == 0 {
        Seq::empty()
    } else {
        annotations_args(list.drop_last()) + annotation_args(
            opt_text(list.last().text),
            opt_text(list.last().at),
        )
    }
}

/// The arguments with which the blocks of a page are drawn over its image.
pub open spec fn drawing_args(
    image: Seq<char>,
    list: Seq<Annotation>,
    output: Seq<char>,
) -> Seq<Seq<char>> {
    seq![
        image,
        "-resize"@,
        "595x842!"@,
        "-font"@,
        "Helvetica"@,
        "-pointsize"@,
        "10"@,
        "-fill"@,
        "black"@,
    ] + annotations_args(list) + seq![output]
}

/// What is drawn of a text.
fn first_line(text: &str) -> (r: String)
    ensures
        r@ == annotation_text(text@),
{
    let list = lines(text);
    let ghost all = texts(list@);
    if list.len() == 0 {
        let nothing = String::new();
        assert(nothing@ =~= Seq::empty());
        return truncate_chars(nothing.as_str(), ANNOTATION_CHARS);
    }
    assert(all[0] == list@[0]@);
    truncate_chars(list[0].as_str(), ANNOTATION_CHARS)
}

/// The arguments with which the blocks of a page are drawn over its image.
pub fn build_drawing_args(image: &str, annotations: &Vec<Annotation>, output: &str) -> (r: Vec<
    String,
>)
    ensures
        texts(r@) == drawing_args(image@, annotations@, output@),
{
    let mut args: Vec<String> = Vec::new();
    push_text(&mut args, image.to_owned());
    push_text(&mut args, "-resize".to_owned());
    push_text(&mut args, "595x842!".to_owned());
    push_text(&mut args, "-font".to_owned());
    push_text(&mut args, "Helvetica".to_owned());
    push_text(&mut args, "-pointsize".to_owned());
    push_text(&mut args, "10".to_owned());
    push_text(&mut args, "-fill".to_owned());
    push_text(&mut args, "black".to_owned());
    let ghost head = seq![
        image@,
        "-resize"@,
        "595x842!"@,
        "-font"@,
        "Helvetica"@,
        "-pointsize"@,
        "10"@,
        "-fill"@,
        "black"@,
    ];
    assert(texts(args@) =~= head + annotations_args(annotations@.take(0)));
    let mut i: usize = 0;
    while i < annotations.len()
        invariant
            i <= annotations@.len(),
            texts(args@) == head + annotations_args(annotations@.take(i as int)),
        decreases annotations@.len() - i,
    {
        let ghost before = texts(args@);
        proof {
            assert(annotations@.take(i as int + 1).drop_last() =~= annotations@.take(i as int));
        }
        match (&annotations[i].text, &annotations[i].at) {
            (Some(text), Some(at)) => {
                let t = trim(text.as_str());
                if !t.as_str().is_empty() {
                    push_text(&mut args, "-annotate".to_owned());
                    push_text(&mut args, at.clone());
                    push_text(&mut args, first_line(t.as_str()));
                }
            },
            _ => {},
        }
        assert(texts(args@) =~= head + annotations_args(annotations@.take(i as int + 1)));
        i += 1;
    }
    assert(annotations@.take(annotations@.len() as int) =~= annotations@);
    let ghost drawn = texts(args@);
    push_text(&mut args, output.to_owned());
    assert(texts(args@) =~= drawn + seq![output@]);
    args
}

// ---------------------------------------------------------------------------
// The run
// ---------------------------------------------------------------------------

/// A page to be drawn: its number, its image if it has one, and its blocks.
#[derive(Debug)]
pub struct Sheet {
    pub page_number: i64,
    pub image: Option<String>,
    pub annotations: Vec<Annotation>,
}

/// The pages are drawn, and those before `done` have been.
#[derive(Debug)]
pub struct DrawPending {
    /// The directory of the run, with its separator.
    pub prefix: String,
    pub sheets: Vec<Sheet>,
    pub done: usize,
}

/// The drawn pages are joined.
#[derive(Debug)]
pub struct JoinPending {
    pub prefix: String,
    pub sheets: Vec<Sheet>,
}

/// The state of a run.
#[derive(Debug)]
pub enum Overlay {
    /// The pages cannot be drawn over their images.
    Unavailable,
    Draw(DrawPending),
    Join(JoinPending),
}

/// What the state of a run is.
pub enum OverlayView {
    Unavailable,
    Draw { prefix: Seq<char>, sheets: Seq<Sheet>, done: nat },
    Join { prefix: Seq<char>, sheets: Seq<Sheet> },
}

impl Overlay {
    pub open spec fn view(&self) -> OverlayView {
        match self {
            Overlay::Unavailable => OverlayView::Unavailable,
            Overlay::Draw(s) => OverlayView::Draw {
                prefix: s.prefix@,
                sheets: s.sheets@,
                done: s.done as nat,
            },
            Overlay::Join(s) => OverlayView::Join { prefix: s.prefix@, sheets: s.sheets@ },
        }
    }
}

/// Whether every page has an image.
pub open spec fn all_have_images(sheets: Seq<Sheet>) -> bool {
    forall|i: int| 0 <= i < sheets.len() ==> (#[trigger] sheets[i]).image is Some
}

/// Where a page is drawn to.
pub open spec fn drawn_page(prefix: Seq<char>, sheet: Sheet) -> Seq<char> {
    prefix + image_name(sheet.page_number as int)
}

/// Where the pages are drawn to.
pub open spec fn drawn_pages(prefix: Seq<char>, sheets: Seq<Sheet>) -> Seq<Seq<char>> {
    Seq::new(sheets.len(), |i: int| drawn_page(prefix, sheets[i]))
}

/// The state in which the pages before `done` have been drawn.
pub open spec fn drawn_up_to(prefix: Seq<char>, sheets: Seq<Sheet>, done: nat) -> OverlayView {
    if done < sheets.len() {
        OverlayView::Draw { prefix, sheets, done }
    } else {
        OverlayView::Join { prefix, sheets }
    }
}

/// The state in which a run begins: pages can be drawn where the program is
/// there and every page has an image.
pub open spec fn overlay_started(
    tool: bool,
    prefix: Seq<char>,
    sheets: Seq<Sheet>,
) -> OverlayView {
    if tool && all_have_images(sheets) {
        drawn_up_to(prefix, sheets, 0)
    } else {
        OverlayView::Unavailable
    }
}

/// Begins to draw the pages over their images. `tool` says whether the program
/// is there.
pub fn build_image_background_pdf(tool: bool, prefix: &str, sheets: Vec<Sheet>) -> (r: Overlay)
    ensures
        r@ == overlay_started(tool, prefix@, sheets@),
        r matches Overlay::Draw(p) ==> p.wf(),
{
    if !tool {
        return Overlay::Unavailable;
    }
    let mut i: usize = 0;
    while i < sheets.len()
        invariant
            i <= sheets@.len(),
            forall|k: int| 0 <= k < i ==> (#[trigger] sheets@[k]).image is Some,
        decreases sheets@.len() - i,
    {
        if sheets[i].image.is_none() {
            assert(sheets@[i as int].image is None);
            return Overlay::Unavailable;
        }
        i += 1;
    }
    next_page(prefix.to_owned(), sheets, 0)
}

/// Goes to the page at `done`, or to the end.
fn next_page(prefix: String, sheets: Vec<Sheet>, done: usize) -> (r: Overlay)
    requires
        all_have_images(sheets@),
    ensures
        r@ == drawn_up_to(prefix@, sheets@, done as nat),
        r matches Overlay::Draw(p) ==> p.wf(),
{
    if done < sheets.len() {
        Overlay::Draw(DrawPending { prefix, sheets, done })
    } else {
        Overlay::Join(JoinPending { prefix, sheets })
    }
}

impl DrawPending {
    /// Whether there is a page to be drawn, and all pages have images.
    pub open spec fn wf(self) -> bool {
        &&& self.done < self.sheets@.len()
        &&& all_have_images(self.sheets@)
    }

    /// The arguments of the program for the page in question.
    pub fn args(&self) -> (r: Vec<String>)
        requires
            self.wf(),
        ensures
            ({
                let sheet = self.sheets@[self.done as int];
                texts(r@) == drawing_args(
                    sheet.image->0@,
                    sheet.annotations@,
                    drawn_page(self.prefix@, sheet),
                )
            }),
    {
        let sheet = &self.sheets[self.done];
        let output = cat2(self.prefix.as_str(), page_image_name(sheet.page_number).as_str());
        let image = string_or(&sheet.image, "");
        build_drawing_args(image, &sheet.annotations, output.as_str())
    }

    /// Goes on when the program has been run for the page: to the next one, or
    /// nowhere if it failed.
    pub fn drawn(self, success: bool) -> (r: Overlay)
        requires
            self.wf(),
        ensures
            r@ == if success {
                drawn_up_to(self.prefix@, self.sheets@, (self.done + 1) as nat)
            } else {
                OverlayView::Unavailable
            },
            r matches Overlay::Draw(p) ==> p.wf(),
    {
        if !success {
            return Overlay::Unavailable;
        }
        assert(self.done < self.sheets.len());
        let done: usize = self.done + 1;
        next_page(self.prefix, self.sheets, done)
    }
}

impl JoinPending {
    /// Where the file is made.
    pub fn output(&self) -> (r: String)
        ensures
            r@ == self.prefix@ + "out.pdf"@,
    {
        cat2(self.prefix.as_str(), "out.pdf")
    }

    /// The arguments of the program: the drawn pages in their order, and the
    /// file.
    pub fn args(&self) -> (r: Vec<String>)
        ensures
            texts(r@) == drawn_pages(self.prefix@, self.sheets@).push(self.prefix@ + "out.pdf"@),
    {
        let ghost all = drawn_pages(self.prefix@, self.sheets@);
        let mut args: Vec<String> = Vec::new();
        assert(texts(args@) =~= all.take(0));
        let mut i: usize = 0;
        while i < self.sheets.len()
            invariant
                i <= self.sheets@.len(),
                all == drawn_pages(self.prefix@, self.sheets@),
                texts(args@) == all.take(i as int),
            decreases self.sheets@.len() - i,
        {
            let name = page_image_name(self.sheets[i].page_number);
            push_text(&mut args, cat2(self.prefix.as_str(), name.as_str()));
            assert(texts(args@) =~= all.take(i as int + 1));
            i += 1;
        }
        assert(all.take(all.len() as int) =~= all);
        push_text(&mut args, self.output());
        args
    }
}

// ---------------------------------------------------------------------------
// Whole runs
// ---------------------------------------------------------------------------

/// Where a run gets when the program succeeds on the pages that `works` says it
/// does.
pub open spec fn overlay_ended(
    prefix: Seq<char>,
    sheets: Seq<Sheet>,
    done: nat,
    works: spec_fn(nat) -> bool,
) -> OverlayView
    decreases sheets.len() - done,
{
    match drawn_up_to(prefix, sheets, done) {
        OverlayView::Draw { prefix: _, sheets: _, done: _ } => if done >= sheets.len() {
            OverlayView::Unavailable
        } else if works(done) {
            overlay_ended(prefix, sheets, done + 1, works)
        } else {
            OverlayView::Unavailable
        },
        end => end,
    }
}

/// A run ends with a file of all its pages exactly where the program succeeds on
/// each of them; one page that cannot be drawn gives the whole file up.
pub proof fn law_all_pages_or_none(
    prefix: Seq<char>,
    sheets: Seq<Sheet>,
    done: nat,
    works: spec_fn(nat) -> bool,
)
    ensures
        overlay_ended(prefix, sheets, done, works) == if forall|i: nat|
            done <= i < sheets.len() ==> #[trigger] works(i) {
            OverlayView::Join { prefix, sheets }
        } else {
            OverlayView::Unavailable
        },
    decreases sheets.len() - done,
{
    if done < sheets.len() {
        if works(done) {
            law_all_pages_or_none(prefix, sheets, done + 1, works);
            assert((forall|i: nat| done <= i < sheets.len() ==> #[trigger] works(i)) == (forall|
                i: nat,
            | done + 1 <= i < sheets.len() ==> #[trigger] works(i)));
        }
    }
}

/// A block that is drawn has its three arguments, behind those of the blocks before
/// it.
proof fn lemma_annotation_stands(list: Seq<Annotation>, i: int) -> (k: int)
    requires
        0 <= i < list.len(),
    ensures
        ({
            let own = annotation_args(opt_text(list[i].text), opt_text(list[i].at));
            let all = annotations_args(list);
            &&& 0 <= k
            &&& k + own.len() <= all.len()
            &&& all.subrange(k, k + own.len()) == own
        }),
    decreases list.len(),
{
    let before = annotations_args(list.drop_last());
    let last = annotation_args(opt_text(list.last().text), opt_text(list.last().at));
    let all = annotations_args(list);
    if i == list.len() - 1 {
        let k = before.len() as int;
        assert(all.subrange(k, k + last.len()) =~= last);
        k
    } else {
        let k = lemma_annotation_stands(list.drop_last(), i);
        assert(list.drop_last()[i] == list[i]);
        let own = annotation_args(opt_text(list[i].text), opt_text(list[i].at));
        assert(all.subrange(k, k + own.len()) =~= before.subrange(k, k + own.len()));
        k
    }
}

/// Drawing begins with the image of the page and ends with the file that is made,
/// and every block with a text and a place is drawn: at its place, with the first
/// line of its text, of which no more than 180 characters are drawn.
pub proof fn law_every_placed_block_is_drawn(
    image: Seq<char>,
    list: Seq<Annotation>,
    output: Seq<char>,
    i: int,
    text: Seq<char>,
    at: Seq<char>,
) -> (k: int)
    requires
        0 <= i < list.len(),
        opt_text(list[i].text) == Some(text),
        opt_text(list[i].at) == Some(at),
        plain(text),
    ensures
        ({
            let args = drawing_args(image, list, output);
            &&& args[0] == image
            &&& args[args.len() - 1] == output
            &&& 0 < k
            &&& k + 2 < args.len() - 1
            &&& args[k] == "-annotate"@
            &&& args[k + 1] == at
            &&& text.len() <= 180 ==> args[k + 2] == text
            &&& text.len() > 180 ==> args[k + 2] == text.take(180)
        }),
{
    let args = drawing_args(image, list, output);
    let all = annotations_args(list);
    let j = lemma_annotation_stands(list, i);
    let own = annotation_args(Some(text), Some(at));
    lemma_trimmed_plain(text);
    lemma_single_line(text);
    assert(own.len() == 3);
    let part = all.subrange(j, j + 3);
    assert(part == own);
    assert(part[0] == all[j] && part[1] == all[j + 1] && part[2] == all[j + 2]);
    let k = 9 + j;
    assert(args[k] == all[j]);
    assert(args[k + 1] == all[j + 1]);
    assert(args[k + 2] == all[j + 2]);
    k
}

/// A block without a text or without a place adds nothing to what is drawn.
pub proof fn law_other_blocks_are_not_drawn(text: Option<Seq<char>>, at: Option<Seq<char>>)
    requires
        text is None || at is None,
    ensures
        annotation_args(text, at).len() == 0,
{
}

/// Pages with different numbers are drawn to different files, all below the same
/// prefix.
pub proof fn law_pages_are_drawn_apart(prefix: Seq<char>, a: Sheet, b: Sheet)
    requires
        0 <= a.page_number < b.page_number,
    ensures
        drawn_page(prefix, a) != drawn_page(prefix, b),
        begins_with(drawn_page(prefix, a), prefix),
{
    let x = image_name(a.page_number as int);
    let y = image_name(b.page_number as int);
    law_images_have_names_of_their_own(a.page_number as int, b.page_number as int);
    lemma_begins_with_concat(prefix, x);
    lemma_begins_with_concat(prefix, y);
}

/// White space around the text of a block does not change what is drawn.
pub proof fn law_drawn_text_is_trimmed(
    before: char,
    text: Seq<char>,
    behind: char,
    at: Option<Seq<char>>,
)
    requires
        plain(text),
        is_space(before),
        is_space(behind),
    ensures
        annotation_args(Some(seq![before] + text + seq![behind]), at) == annotation_args(
            Some(text),
            at,
        ),
{
    lemma_trimmed_around(before, text, behind);
    lemma_trimmed_plain(text);
}

} // verus!
