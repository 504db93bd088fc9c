//! The PDF that a general document is exported as.
use vstd::prelude::*;

use crate::general_store::GeneralDocumentPage;
use crate::general_store::GeneralDocumentPageView;
use crate::json::parsed_json;
use crate::json::Json;
use crate::json::JsonNumber;
use crate::json::JsonView;
use crate::json::NumberView;
use crate::number::decimal;
use crate::number::digits;
use crate::number::padded;
use crate::number::show_i64;
use crate::number::show_padded;
use crate::number::show_usize;
use crate::search::page_text;
use crate::search::text_of_page;
use crate::sqlite::Record;
use crate::text::byte_count;
use crate::text::byte_len;
use crate::text::cat2;
use crate::text::cat3;
use crate::text::cat4;
use crate::text::cat5;
use crate::text::chars_of;
use crate::text::concatenated;
use crate::text::has_text;
use crate::text::join;
use crate::text::joined;
use crate::text::lemma_assoc;
use crate::text::lemma_concatenated_in_order;
use crate::text::lemma_end_stands;
use crate::text::lemma_front_holds;
use crate::text::lemma_holds_deeper;
use crate::text::lemma_order_across;
use crate::text::lemma_order_deeper;
use crate::text::lemma_replaced_concat;
use crate::text::lemma_stands_between;
use crate::text::lemma_stands_deeper;
use crate::text::lemma_stands_in_order;
use crate::text::lemma_still_holds;
use crate::text::lines;
use crate::text::lines_of;
use crate::text::opt_str;
use crate::text::opt_text;
use crate::text::push_text;
use crate::text::replaced;
use crate::text::shows_in_order;
use crate::text::start_of;
use crate::text::texts;
use crate::text::trim;
use crate::text::trimmed;
use vstd::utf8::encode_scalar;
use vstd::utf8::encode_utf8;

verus! {

// ---------------------------------------------------------------------------
// Text in PDF
// ---------------------------------------------------------------------------

/// Whether a character is an ASCII character.
pub open spec fn is_ascii_char(c: char) -> bool {
    (c as u32) < 128
}

/// What a character becomes in a string of a PDF. The font has ASCII characters
/// only, so that others go.
pub open spec fn pdf_char(c: char) -> Seq<char> {
    if !is_ascii_char(c) {
        Seq::empty()
    } else if c == '\\' || c == '(' || c == ')' {
        seq!['\\', c]
    } else {
        seq![c]
    }
}

/// A text as it stands in a string of a PDF.
pub open spec fn pdf_escaped(text: Seq<char>) -> Seq<char> {
    replaced(text, |c: char| pdf_char(c))
}

/// A text as it stands in a string of a PDF.
pub fn pdf_escape(text: &str) -> (r: String)
    ensures
        r@ == pdf_escaped(text@),
{
    let cs = chars_of(text);
    let ghost f = |c: char| pdf_char(c);
    let mut out = String::new();
    assert(out@ =~= replaced(cs@.take(0), f));
    let mut i: usize = 0;
    while i < cs.len()
        invariant
            i <= cs@.len(),
            f == (|c: char| pdf_char(c)),
            out@ == replaced(cs@.take(i as int), f),
        decreases cs@.len() - i,
    {
        let c = cs[i];
        assert(cs@.take(i as int + 1).drop_last() =~= cs@.take(i as int));
        if (c as u32) < 128 {
            if c == '\\' || c == '(' || c == ')' {
                out.push('\\');
            }
            out.push(c);
        }
        assert(out@ =~= replaced(cs@.take(i as int + 1), f));
        i += 1;
    }
    assert(cs@.take(cs@.len() as int) =~= cs@);
    out
}

/// The ASCII characters of a text.
pub open spec fn ascii_only(text: Seq<char>) -> Seq<char> {
    replaced(
        text,
        |c: char|
            if is_ascii_char(c) {
                seq![c]
            } else {
                Seq::empty()
            },
    )
}

/// The text that a reader of PDF makes of what stands behind an opening bracket:
/// it goes up to the next closing bracket, and a backslash takes from what
/// follows it its meaning. There is none where an opening bracket or the end
/// comes first.
pub open spec fn literal_text(s: Seq<char>) -> Option<Seq<char>>
    decreases s.len(),
{
    if s.len() == 0 || s[0] == '(' {
        None
    } else if s[0] == ')' {
        Some(Seq::empty())
    } else if s[0] == '\\' {
        if s.len() > 1 {
            match literal_text(s.skip(2)) {
                Some(rest) => Some(seq![s[1]] + rest),
                None => None,
            }
        } else {
            None
        }
    } else {
        match literal_text(s.drop_first()) {
            Some(rest) => Some(seq![s[0]] + rest),
            None => None,
        }
    }
}

proof fn lemma_replaced_front(text: Seq<char>, f: spec_fn(char) -> Seq<char>)
    requires
        text.len() > 0,
    ensures
        replaced(text, f) == f(text[0]) + replaced(text.drop_first(), f),
{
    let head = seq![text[0]];
    lemma_replaced_concat(head, text.drop_first(), f);
    assert(head + text.drop_first() =~= text);
    assert(head.drop_last() =~= Seq::empty());
    assert(replaced(head.drop_last(), f) =~= Seq::empty());
    assert(replaced(head, f) =~= f(text[0]));
}

/// A reader of PDF makes of an escaped text its ASCII characters, and stops
/// where the text ends, whatever follows.
pub proof fn law_pdf_reads_escaped_text_back(text: Seq<char>, tail: Seq<char>)
    ensures
        literal_text(pdf_escaped(text) + seq![')'] + tail) == Some(ascii_only(text)),
    decreases text.len(),
{
    let f = |c: char| pdf_char(c);
    let g = |c: char|
        if is_ascii_char(c) {
            seq![c]
        } else {
            Seq::<char>::empty()
        };
    let s = pdf_escaped(text) + seq![')'] + tail;
    if text.len() == 0 {
        assert(s[0] == ')');
        assert(ascii_only(text) =~= Seq::empty());
    } else {
        let rest = text.drop_first();
        law_pdf_reads_escaped_text_back(rest, tail);
        lemma_replaced_front(text, f);
        lemma_replaced_front(text, g);
        let c = text[0];
        let more = pdf_escaped(rest) + seq![')'] + tail;
        assert(s =~= pdf_char(c) + more);
        assert(ascii_only(text) == g(c) + ascii_only(rest));
        if !is_ascii_char(c) {
            assert(s =~= more);
            assert(ascii_only(text) =~= ascii_only(rest));
        } else if c == '\\' || c == '(' || c == ')' {
            assert(s[0] == '\\');
            assert(s[1] == c);
            assert(s.skip(2) =~= more);
        } else {
            assert(s[0] == c);
            assert(s.drop_first() =~= more);
        }
    }
}

// ---------------------------------------------------------------------------
// Where blocks are
// ---------------------------------------------------------------------------

/// Where a block is, in the numbers that a layout gives.
#[derive(Debug)]
pub enum BBox {
    /// Left, top, and either the size or the right and bottom edges.
    Edges(JsonNumber, JsonNumber, JsonNumber, JsonNumber),
    /// Left, top, width and height.
    Size(JsonNumber, JsonNumber, JsonNumber, JsonNumber),
    /// Left, top, right and bottom.
    Corners(JsonNumber, JsonNumber, JsonNumber, JsonNumber),
}

/// Where a block is.
pub enum BBoxView {
    Edges(NumberView, NumberView, NumberView, NumberView),
    Size(NumberView, NumberView, NumberView, NumberView),
    Corners(NumberView, NumberView, NumberView, NumberView),
}

impl BBox {
    pub open spec fn view(&self) -> BBoxView {
        match self {
            BBox::Edges(a, b, c, d) => BBoxView::Edges(a@, b@, c@, d@),
            BBox::Size(a, b, c, d) => BBoxView::Size(a@, b@, c@, d@),
            BBox::Corners(a, b, c, d) => BBoxView::Corners(a@, b@, c@, d@),
        }
    }
}

/// The number that a value is, if it is there and is one.
pub open spec fn number_of(value: Option<JsonView>) -> Option<NumberView> {
    match value {
        Some(JsonView::Number(n)) => Some(n),
        _ => None,
    }
}

/// The value under the first of the keys that an object has.
pub open spec fn under_either(
    value: JsonView,
    key: Seq<char>,
    other: Seq<char>,
) -> Option<JsonView> {
    match value.member(key) {
        Some(v) => Some(v),
        None => value.member(other),
    }
}

/// The value under the first of three keys that an object has.
pub open spec fn under_any(
    value: JsonView,
    key: Seq<char>,
    other: Seq<char>,
    third: Seq<char>,
) -> Option<JsonView> {
    match value.member(key) {
        Some(v) => Some(v),
        None => under_either(value, other, third),
    }
}

/// Four numbers, if all are there.
pub open spec fn four(
    a: Option<NumberView>,
    b: Option<NumberView>,
    c: Option<NumberView>,
    d: Option<NumberView>,
) -> Option<(NumberView, NumberView, NumberView, NumberView)> {
    match (a, b, c, d) {
        (Some(a), Some(b), Some(c), Some(d)) => Some((a, b, c, d)),
        _ => None,
    }
}

/// Where a block is, if the layout says so: an array of four numbers, or an
/// object with its left and top and either its size or its right and bottom.
pub open spec fn bbox_in(value: JsonView) -> Option<BBoxView> {
    match value {
        JsonView::Array(items) => match four(
            number_of(value.element(0)),
            number_of(value.element(1)),
            number_of(value.element(2)),
            number_of(value.element(3)),
        ) {
            Some((a, b, c, d)) => Some(BBoxView::Edges(a, b, c, d)),
            None => None,
        },
        JsonView::Object(_) => {
            let x = number_of(under_any(value, "x"@, "left"@, "x1"@));
            let y = number_of(under_any(value, "y"@, "top"@, "y1"@));
            let width = number_of(value.member("width"@));
            let height = number_of(value.member("height"@));
            let right = number_of(under_either(value, "right"@, "x2"@));
            let bottom = number_of(under_either(value, "bottom"@, "y2"@));
            if width is Some && height is Some {
                match four(x, y, width, height) {
                    Some((a, b, c, d)) => Some(BBoxView::Size(a, b, c, d)),
                    None => None,
                }
            } else {
                match four(x, y, right, bottom) {
                    Some((a, b, c, d)) => Some(BBoxView::Corners(a, b, c, d)),
                    None => None,
                }
            }
        },
        _ => None,
    }
}

/// The view of an optional number.
pub open spec fn number_option(n: Option<JsonNumber>) -> Option<NumberView> {
    match n {
        Some(n) => Some(n@),
        None => None,
    }
}

/// The view of an optional value.
pub open spec fn value_option(v: Option<&Json>) -> Option<JsonView> {
    match v {
        Some(v) => Some(v@),
        None => None,
    }
}

/// The number that a value is.
fn take_number(value: Option<&Json>) -> (r: Option<JsonNumber>)
    ensures
        number_option(r) == number_of(value_option(value)),
{
    match value {
        Some(Json::Number(n)) => Some(n.copy()),
        _ => None,
    }
}

/// The value under the first of two keys.
fn get_either<'a>(value: &'a Json, key: &str, other: &str) -> (r: Option<&'a Json>)
    ensures
        value_option(r) == under_either(value@, key@, other@),
{
    match value.get(key) {
        Some(v) => Some(v),
        None => value.get(other),
    }
}

/// The value under the first of three keys.
fn get_any<'a>(value: &'a Json, key: &str, other: &str, third: &str) -> (r: Option<&'a Json>)
    ensures
        value_option(r) == under_any(value@, key@, other@, third@),
{
    match value.get(key) {
        Some(v) => Some(v),
        None => get_either(value, other, third),
    }
}

/// Where a block is, if the layout says so.
pub fn bbox_from_json(value: &Json) -> (r: Option<BBox>)
    ensures
        match r {
            Some(b) => bbox_in(value@) == Some(b@),
            None => bbox_in(value@) is None,
        },
{
    match value {
        Json::Array(_) => match (
            take_number(value.at(0)),
            take_number(value.at(1)),
            take_number(value.at(2)),
            take_number(value.at(3)),
        ) {
            (Some(a), Some(b), Some(c), Some(d)) => Some(BBox::Edges(a, b, c, d)),
            _ => None,
        },
        Json::Object(_) => {
            let x = take_number(get_any(value, "x", "left", "x1"));
            let y = take_number(get_any(value, "y", "top", "y1"));
            let width = take_number(value.get("width"));
            let height = take_number(value.get("height"));
            match (width, height) {
                (Some(c), Some(d)) => match (x, y) {
                    (Some(a), Some(b)) => Some(BBox::Size(a, b, c, d)),
                    _ => None,
                },
                _ => {
                    let right = take_number(get_either(value, "right", "x2"));
                    let bottom = take_number(get_either(value, "bottom", "y2"));
                    match (x, y, right, bottom) {
                        (Some(a), Some(b), Some(c), Some(d)) => Some(BBox::Corners(a, b, c, d)),
                        _ => None,
                    }
                },
            }
        },
        _ => None,
    }
}

/// Where a block is, from the text in which it is kept.
pub fn parse_bbox(raw: Option<&str>) -> (r: Option<BBox>)
    ensures
        ({
            let told = match opt_str(raw) {
                Some(text) => match parsed_json(text) {
                    Some(v) => bbox_in(v),
                    None => None,
                },
                None => None,
            };
            match r {
                Some(b) => told == Some(b@),
                None => told is None,
            }
        }),
{
    match raw {
        Some(text) => match Json::parse(text) {
            Ok(v) => bbox_from_json(&v),
            Err(_) => None,
        },
        None => None,
    }
}

/// The width and height of a page, at least one each; those of A4 in points
/// where they are not known.
pub fn page_size(page: &GeneralDocumentPage) -> (r: (i64, i64))
    ensures
        r.0 == (match page.page_width {
            Some(w) => if w < 1 {
                1
            } else {
                w as int
            },
            None => 595,
        }),
        r.1 == (match page.page_height {
            Some(h) => if h < 1 {
                1
            } else {
                h as int
            },
            None => 842,
        }),
{
    let width: i64 = match page.page_width {
        Some(w) => if w < 1 {
            1
        } else {
            w
        },
        None => 595,
    };
    let height: i64 = match page.page_height {
        Some(h) => if h < 1 {
            1
        } else {
            h
        },
        None => 842,
    };
    (width, height)
}

// ---------------------------------------------------------------------------
// The content of a page
// ---------------------------------------------------------------------------

/// The lines of a block that are shown.
pub const BLOCK_LINES: usize = 6;

/// The lines of a page that are shown where no block has a place.
pub const PAGE_LINES: usize = 42;

/// Where a block is shown on a page, as it is written: how far from the left,
/// and how far from the bottom for each of its lines.
#[derive(Debug)]
pub struct Placement {
    pub x: String,
    pub y: [String; 6],
}

/// A block with its place, if it has one.
#[derive(Debug)]
pub struct PlacedBlock {
    pub text: Option<String>,
    pub placement: Option<Placement>,
}

/// What a block with its place is.
pub struct PlacedView {
    pub text: Option<Seq<char>>,
    pub placement: Option<(Seq<char>, Seq<Seq<char>>)>,
}

impl PlacedBlock {
    pub open spec fn view(&self) -> PlacedView {
        PlacedView {
            text: opt_text(self.text),
            placement: match self.placement {
                Some(p) => Some((p.x@, texts(p.y@))),
                None => None,
            },
        }
    }
}

/// The blocks of a list.
pub open spec fn placed_views(blocks: Seq<PlacedBlock>) -> Seq<PlacedView> {
    Seq::new(blocks.len(), |i: int| blocks[i]@)
}

/// A line of a block.
pub open spec fn placed_line(x: Seq<char>, y: Seq<char>, line: Seq<char>) -> Seq<char> {
    "BT /F1 9 Tf "@ + x + " "@ + y + " Td ("@ + pdf_escaped(line) + ") Tj ET\n"@
}

/// The first `n` lines of a block.
pub open spec fn placed_lines(
    x: Seq<char>,
    y: Seq<Seq<char>>,
    list: Seq<Seq<char>>,
    n: int,
) -> Seq<char>
    decreases n,
{
    if n <= 0 {
        Seq::empty()
    } else {
        placed_lines(x, y, list, n - 1) + placed_line(x, y[n - 1], list[n - 1])
    }
}

/// The smaller of two numbers.
pub open spec fn smaller(a: int, b: int) -> int {
    if a < b {
        a
    } else {
        b
    }
}

/// The text of a block that is shown in its place, if it has both.
pub open spec fn shown(block: PlacedView) -> Option<(Seq<char>, Seq<Seq<char>>, Seq<char>)> {
    match (block.text, block.placement) {
        (Some(text), Some((x, y))) => if trimmed(text).len() == 0 {
            None
        } else {
            Some((x, y, trimmed(text)))
        },
        _ => None,
    }
}

/// What a block adds to the content of a page.
pub open spec fn block_content(block: PlacedView) -> Seq<char> {
    match shown(block) {
        Some((x, y, text)) => placed_lines(
            x,
            y,
            lines_of(text),
            smaller(BLOCK_LINES as int, lines_of(text).len() as int),
        ),
        None => Seq::empty(),
    }
}

/// What blocks add to the content of a page.
pub open spec fn blocks_content(blocks: Seq<PlacedView>) -> Seq<char>
    decreases blocks.len(),
{
    if blocks.len() == 0 {
        Seq::empty()
    } else {
        blocks_content(blocks.drop_last()) + block_content(blocks.last())
    }
}

/// Whether any block is shown in its place.
pub open spec fn any_shown(blocks: Seq<PlacedView>) -> bool {
    exists|i: int| 0 <= i < blocks.len() && shown(#[trigger] blocks[i]) is Some
}

/// The first `n` lines of a page, from the top down.
pub open spec fn plain_lines(list: Seq<Seq<char>>, n: int) -> Seq<char>
    decreases n,
{
    if n <= 0 {
        Seq::empty()
    } else {
        plain_lines(list, n - 1) + ("BT /F1 10 Tf 50 "@ + decimal(760 - 16 * (n - 1)) + " Td ("@
            + pdf_escaped(list[n - 1]) + ") Tj ET\n"@)
    }
}

/// The content of a page: the name of the file and the number of the page, and
/// then the blocks in their places, or the text of the page where no block has
/// a place.
pub open spec fn page_stream(
    filename: Seq<char>,
    page: GeneralDocumentPageView,
    blocks: Seq<PlacedView>,
) -> Seq<char> {
    let list = lines_of(text_of_page(page));
    "BT /F1 12 Tf 50 805 Td ("@ + pdf_escaped(filename)
        + ") Tj ET\nBT /F1 9 Tf 50 790 Td (Page "@ + decimal(page.page_number as int)
        + ") Tj ET\n"@ + (if any_shown(blocks) {
        blocks_content(blocks)
    } else {
        plain_lines(list, smaller(PAGE_LINES as int, list.len() as int))
    })
}

/// What a block adds to the content of a page.
fn placed_block_content(x: &str, y: &[String; 6], text: &str) -> (r: String)
    ensures
        r@ == placed_lines(
            x@,
            texts(y@),
            lines_of(text@),
            smaller(BLOCK_LINES as int, lines_of(text@).len() as int),
        ),
{
    let list = lines(text);
    let ghost all = texts(list@);
    let ghost ys = texts(y@);
    let n: usize = if BLOCK_LINES < list.len() {
        BLOCK_LINES
    } else {
        list.len()
    };
    let mut out = String::new();
    assert(out@ =~= placed_lines(x@, ys, all, 0));
    let mut i: usize = 0;
    while i < n
        invariant
            i <= n <= list@.len(),
            n <= BLOCK_LINES,
            all == texts(list@),
            ys == texts(y@),
            out@ == placed_lines(x@, ys, all, i as int),
        decreases n - i,
    {
        let mut line = cat5("BT /F1 9 Tf ", x, " ", y[i].as_str(), " Td (");
        line.append(pdf_escape(list[i].as_str()).as_str());
        line.append(") Tj ET\n");
        assert(line@ == placed_line(x@, ys[i as int], all[i as int]));
        out.append(line.as_str());
        i += 1;
    }
    out
}

/// What the text of a page adds to its content.
fn plain_page_content(text: &str) -> (r: String)
    ensures
        r@ == plain_lines(
            lines_of(text@),
            smaller(PAGE_LINES as int, lines_of(text@).len() as int),
        ),
{
    let list = lines(text);
    let ghost all = texts(list@);
    let n: usize = if PAGE_LINES < list.len() {
        PAGE_LINES
    } else {
        list.len()
    };
    let mut out = String::new();
    let mut y: i64 = 760;
    assert(out@ =~= plain_lines(all, 0));
    let mut i: usize = 0;
    while i < n
        invariant
            i <= n <= list@.len(),
            n <= PAGE_LINES,
            y == 760 - 16 * i,
            all == texts(list@),
            out@ == plain_lines(all, i as int),
        decreases n - i,
    {
        let line = cat5(
            "BT /F1 10 Tf 50 ",
            show_i64(y).as_str(),
            " Td (",
            pdf_escape(list[i].as_str()).as_str(),
            ") Tj ET\n",
        );
        out.append(line.as_str());
        y -= 16;
        i += 1;
    }
    out
}

/// The content of a page.
pub fn pdf_page_content(
    filename: &str,
    page: &GeneralDocumentPage,
    blocks: &Vec<PlacedBlock>,
) -> (r: String)
    ensures
        r@ == page_stream(filename@, page.meaning(), placed_views(blocks@)),
{
    let ghost all = placed_views(blocks@);
    let mut placed = String::new();
    let mut used = false;
    assert(placed@ =~= blocks_content(all.take(0)));
    let mut i: usize = 0;
    while i < blocks.len()
        invariant
            i <= blocks@.len(),
            all == placed_views(blocks@),
            placed@ == blocks_content(all.take(i as int)),
            used == (exists|k: int| 0 <= k < i && shown(#[trigger] all[k]) is Some),
        decreases blocks@.len() - i,
    {
        let ghost before = placed@;
        proof {
            assert(all.take(i as int + 1).drop_last() =~= all.take(i as int));
            assert(all.take(i as int + 1).last() == blocks@[i as int]@);
            assert(all[i as int] == blocks@[i as int]@);
        }
        match (&blocks[i].text, &blocks[i].placement) {
            (Some(text), Some(p)) => {
                let t = trim(text.as_str());
                if !t.as_str().is_empty() {
                    placed.append(placed_block_content(p.x.as_str(), &p.y, t.as_str()).as_str());
                    used = true;
                    assert(shown(all[i as int]) is Some);
                }
            },
            _ => {},
        }
        assert(placed@ =~= blocks_content(all.take(i as int + 1)));
        i += 1;
    }
    assert(all.take(all.len() as int) =~= all);
    let mut content = cat5(
        "BT /F1 12 Tf 50 805 Td (",
        pdf_escape(filename).as_str(),
        ") Tj ET\nBT /F1 9 Tf 50 790 Td (Page ",
        show_i64(page.page_number).as_str(),
        ") Tj ET\n",
    );
    if used {
        content.append(placed.as_str());
    } else {
        content.append(plain_page_content(page_text(page).as_str()).as_str());
    }
    content
}

// ---------------------------------------------------------------------------
// The file
// ---------------------------------------------------------------------------

/// A page with its blocks in their places.
#[derive(Debug)]
pub struct PdfPage {
    pub page: GeneralDocumentPage,
    pub blocks: Vec<PlacedBlock>,
}

/// The content of a page of the file.
pub open spec fn stream_of(filename: Seq<char>, page: PdfPage) -> Seq<char> {
    page_stream(filename, page.page.meaning(), placed_views(page.blocks@))
}

/// The references to the first `n` pages.
pub open spec fn kids(n: nat) -> Seq<Seq<char>> {
    Seq::new(n, |i: int| digits((3 + i * 2) as nat) + " 0 R"@)
}

/// The object of a page, whose content is the object `content`.
pub open spec fn page_object(font: nat, content: nat) -> Seq<char> {
    "<< /Type /Page /Parent 2 0 R /MediaBox [0 0 595 842] /Resources << /Font << /F1 "@ + digits(
        font,
    ) + " 0 R >> >> /Contents "@ + digits(content) + " 0 R >>"@
}

/// The object of the content of a page, with its length in bytes.
pub open spec fn stream_object(content: Seq<char>) -> Seq<char> {
    "<< /Length "@ + digits(byte_count(content)) + " >>\nstream\n"@ + content + "endstream"@
}

/// The objects of the first `n` pages: for each the page and its content.
pub open spec fn page_objects(
    filename: Seq<char>,
    pages: Seq<PdfPage>,
    font: nat,
    n: int,
) -> Seq<Seq<char>>
    decreases n,
{
    if n <= 0 {
        Seq::empty()
    } else {
        page_objects(filename, pages, font, n - 1).push(
            page_object(font, (2 * (n - 1) + 4) as nat),
        ).push(stream_object(stream_of(filename, pages[n - 1])))
    }
}

/// The objects of the file: the catalog, the list of pages, the pages with
/// their contents, and the font.
pub open spec fn objects_of(filename: Seq<char>, pages: Seq<PdfPage>) -> Seq<Seq<char>> {
    let font = (3 + pages.len() * 2) as nat;
    seq![
        "<< /Type /Catalog /Pages 2 0 R >>"@,
        "<< /Type /Pages /Kids ["@ + joined(kids(pages.len()), " "@) + "] /Count "@ + digits(
            pages.len(),
        ) + " >>"@,
    ] + page_objects(filename, pages, font, pages.len() as int) + seq![
        "<< /Type /Font /Subtype /Type1 /BaseFont /Helvetica >>"@,
    ]
}

/// The line that begins object `number`.
pub open spec fn object_head(number: nat) -> Seq<char> {
    digits(number) + " 0 obj\n"@
}

/// The objects one after the other, numbered from one.
pub open spec fn file_body(objects: Seq<Seq<char>>) -> Seq<char>
    decreases objects.len(),
{
    if objects.len() == 0 {
        "%PDF-1.4\n"@
    } else {
        file_body(objects.drop_last()) + (object_head(objects.len()) + objects.last()
            + "\nendobj\n"@)
    }
}

/// The byte at which an object begins, counting objects from zero.
pub open spec fn offset_of(objects: Seq<Seq<char>>, i: int) -> nat {
    byte_count(file_body(objects.take(i)))
}

/// The entry of an object in the table of objects.
pub open spec fn xref_entry(offset: nat) -> Seq<char> {
    padded(offset, 10) + " 00000 n \n"@
}

/// The entries of the first `n` objects.
pub open spec fn xref_entries(objects: Seq<Seq<char>>, n: int) -> Seq<char>
    decreases n,
{
    if n <= 0 {
        Seq::empty()
    } else {
        xref_entries(objects, n - 1) + xref_entry(offset_of(objects, n - 1))
    }
}

/// The head of the table of objects.
pub open spec fn xref_head(count: nat) -> Seq<char> {
    "xref\n0 "@ + digits(count + 1) + "\n0000000000 65535 f \n"@
}

/// What stands behind the table of objects: where the table is.
pub open spec fn trailer(count: nat, xref_at: nat) -> Seq<char> {
    "trailer << /Size "@ + digits(count + 1) + " /Root 1 0 R >>\nstartxref\n"@ + digits(xref_at)
        + "\n%%EOF\n"@
}

/// The file with these objects.
pub open spec fn file_of(objects: Seq<Seq<char>>) -> Seq<char> {
    let body = file_body(objects);
    body + xref_head(objects.len()) + xref_entries(objects, objects.len() as int) + trailer(
        objects.len(),
        byte_count(body),
    )
}

/// The references to pages.
fn build_kids(n: usize) -> (r: String)
    requires
        3 + n * 2 <= usize::MAX,
    ensures
        r@ == joined(kids(n as nat), " "@),
{
    let mut list: Vec<String> = Vec::new();
    assert(texts(list@) =~= kids(0));
    let mut i: usize = 0;
    while i < n
        invariant
            i <= n,
            3 + n * 2 <= usize::MAX,
            texts(list@) == kids(i as nat),
        decreases n - i,
    {
        push_text(&mut list, cat2(show_usize(3 + i * 2).as_str(), " 0 R"));
        assert(texts(list@) =~= kids(i as nat + 1));
        i += 1;
    }
    join(&list, " ")
}

/// The objects of the file.
pub fn build_objects(filename: &str, pages: &Vec<PdfPage>) -> (r: Vec<String>)
    requires
        4 + pages@.len() * 2 <= usize::MAX,
    ensures
        texts(r@) == objects_of(filename@, pages@),
        r@.len() == 3 + pages@.len() * 2,
{
    let count: usize = pages.len();
    let font: usize = 3 + count * 2;
    let mut objects: Vec<String> = Vec::new();
    push_text(&mut objects, "<< /Type /Catalog /Pages 2 0 R >>".to_owned());
    push_text(
        &mut objects,
        cat5(
            "<< /Type /Pages /Kids [",
            build_kids(count).as_str(),
            "] /Count ",
            show_usize(count).as_str(),
            " >>",
        ),
    );
    let ghost head = seq![
        "<< /Type /Catalog /Pages 2 0 R >>"@,
        "<< /Type /Pages /Kids ["@ + joined(kids(pages@.len()), " "@) + "] /Count "@ + digits(
            pages@.len(),
        ) + " >>"@,
    ];
    assert(texts(objects@) =~= head + page_objects(filename@, pages@, font as nat, 0));
    let mut i: usize = 0;
    while i < count
        invariant
            i <= count,
            count == pages@.len(),
            4 + count * 2 <= usize::MAX,
            head.len() == 2,
            texts(objects@) == head + page_objects(filename@, pages@, font as nat, i as int),
            objects@.len() == 2 + i * 2,
        decreases count - i,
    {
        let content = pdf_page_content(filename, &pages[i].page, &pages[i].blocks);
        let content_obj: usize = objects.len() + 2;
        let ghost before = page_objects(filename@, pages@, font as nat, i as int);
        push_text(
            &mut objects,
            cat5(
                "<< /Type /Page /Parent 2 0 R /MediaBox [0 0 595 842] /Resources << /Font << /F1 ",
                show_usize(font).as_str(),
                " 0 R >> >> /Contents ",
                show_usize(content_obj).as_str(),
                " 0 R >>",
            ),
        );
        push_text(
            &mut objects,
            cat5(
                "<< /Length ",
                show_usize(byte_len(content.as_str())).as_str(),
                " >>\nstream\n",
                content.as_str(),
                "endstream",
            ),
        );
        proof {
            assert(texts(objects@).len() == objects@.len());
            assert(texts(objects@) =~= head + page_objects(
                filename@,
                pages@,
                font as nat,
                i as int + 1,
            ));
        }
        i += 1;
    }
    let ghost paged = texts(objects@);
    push_text(
        &mut objects,
        "<< /Type /Font /Subtype /Type1 /BaseFont /Helvetica >>".to_owned(),
    );
    assert(texts(objects@) =~= paged + seq![
        "<< /Type /Font /Subtype /Type1 /BaseFont /Helvetica >>"@,
    ]);
    assert(texts(objects@).len() == objects@.len());
    objects
}

/// The file with these objects.
pub fn build_file(objects: &Vec<String>) -> (r: String)
    requires
        objects@.len() < usize::MAX,
    ensures
        r@ == file_of(texts(objects@)),
{
    let ghost all = texts(objects@);
    let count: usize = objects.len();
    let mut pdf = "%PDF-1.4\n".to_owned();
    let mut entries = String::new();
    assert(entries@ =~= xref_entries(all, 0));
    assert(all.take(0) =~= Seq::empty());
    let mut i: usize = 0;
    while i < count
        invariant
            i <= count,
            count == objects@.len(),
            count < usize::MAX,
            all == texts(objects@),
            pdf@ == file_body(all.take(i as int)),
            entries@ == xref_entries(all, i as int),
        decreases count - i,
    {
        let offset = byte_len(pdf.as_str());
        entries.append(show_padded(offset as u64, 10).as_str());
        entries.append(" 00000 n \n");
        assert(entries@ =~= xref_entries(all, i as int) + xref_entry(offset_of(all, i as int)));
        proof {
            assert(all.take(i as int + 1).drop_last() =~= all.take(i as int));
            assert(all.take(i as int + 1).last() == objects@[i as int]@);
        }
        let object = cat4(
            show_usize(i + 1).as_str(),
            " 0 obj\n",
            objects[i].as_str(),
            "\nendobj\n",
        );
        pdf.append(object.as_str());
        i += 1;
    }
    assert(all.take(all.len() as int) =~= all);
    let xref_at = byte_len(pdf.as_str());
    let size = show_usize(count + 1);
    pdf.append(cat3("xref\n0 ", size.as_str(), "\n0000000000 65535 f \n").as_str());
    pdf.append(entries.as_str());
    let tail = cat5(
        "trailer << /Size ",
        size.as_str(),
        " /Root 1 0 R >>\nstartxref\n",
        show_usize(xref_at).as_str(),
        "\n%%EOF\n",
    );
    pdf.append(tail.as_str());
    pdf
}

/// The bytes of the PDF that a general document is exported as.
pub fn build_simple_pdf(filename: &str, pages: &Vec<PdfPage>) -> (r: Vec<u8>)
    requires
        4 + pages@.len() * 2 <= usize::MAX,
    ensures
        r@ == encode_utf8(file_of(objects_of(filename@, pages@))),
{
    let objects = build_objects(filename, pages);
    build_file(&objects).as_str().as_bytes_vec()
}

// ---------------------------------------------------------------------------
// Laws of the file
// ---------------------------------------------------------------------------

/// The bytes of two texts one after the other.
pub proof fn lemma_bytes_concat(a: Seq<char>, b: Seq<char>)
    ensures
        encode_utf8(a + b) == encode_utf8(a) + encode_utf8(b),
    decreases a.len(),
{
    if a.len() == 0 {
        assert(a + b =~= b);
        assert(encode_utf8(a) + encode_utf8(b) =~= encode_utf8(b));
    } else {
        lemma_bytes_concat(a.drop_first(), b);
        assert((a + b).drop_first() =~= a.drop_first() + b);
        assert((a + b)[0] == a[0]);
        assert(encode_scalar(a[0] as u32) + (encode_utf8(a.drop_first()) + encode_utf8(b)) =~= (
        encode_scalar(a[0] as u32) + encode_utf8(a.drop_first())) + encode_utf8(b));
    }
}

/// Whether the bytes of `part` stand in the bytes of `whole` at position `at`.
pub open spec fn stands_at(whole: Seq<char>, part: Seq<char>, at: nat) -> bool {
    let w = encode_utf8(whole);
    let p = encode_utf8(part);
    at + p.len() <= w.len() && w.subrange(at as int, (at + p.len()) as int) == p
}

proof fn lemma_stands_at(before: Seq<char>, part: Seq<char>, after: Seq<char>)
    ensures
        stands_at(before + part + after, part, byte_count(before)),
{
    lemma_bytes_concat(before + part, after);
    lemma_bytes_concat(before, part);
    let w = encode_utf8(before + part + after);
    let n = byte_count(before) as int;
    assert(w.subrange(n, n + encode_utf8(part).len()) =~= encode_utf8(part));
}

/// The objects that come first are the beginning of all.
proof fn lemma_body_prefix(objects: Seq<Seq<char>>, n: int) -> (rest: Seq<char>)
    requires
        0 <= n <= objects.len(),
    ensures
        file_body(objects) == file_body(objects.take(n)) + rest,
    decreases objects.len() - n,
{
    if n == objects.len() {
        assert(objects.take(n) =~= objects);
        assert(file_body(objects) =~= file_body(objects.take(n)) + Seq::empty());
        Seq::empty()
    } else {
        let more = lemma_body_prefix(objects, n + 1);
        let next = objects.take(n + 1);
        assert(next.drop_last() =~= objects.take(n));
        let own = object_head(next.len()) + next.last() + "\nendobj\n"@;
        assert(file_body(objects) =~= file_body(objects.take(n)) + (own + more));
        own + more
    }
}

/// The entry of every object in the table of objects gives the byte at which
/// the object begins.
pub proof fn law_offsets_point_at_objects(objects: Seq<Seq<char>>, i: int)
    requires
        0 <= i < objects.len(),
    ensures
        stands_at(
            file_of(objects),
            object_head((i + 1) as nat) + objects[i] + "\nendobj\n"@,
            offset_of(objects, i),
        ),
{
    let next = objects.take(i + 1);
    let rest = lemma_body_prefix(objects, i + 1);
    assert(next.drop_last() =~= objects.take(i));
    assert(next.last() == objects[i]);
    let before = file_body(objects.take(i));
    let own = object_head((i + 1) as nat) + objects[i] + "\nendobj\n"@;
    assert(file_body(next) == before + own);
    let after = rest + xref_head(objects.len()) + xref_entries(objects, objects.len() as int)
        + trailer(objects.len(), byte_count(file_body(objects)));
    assert(file_of(objects) =~= before + own + after);
    lemma_stands_at(before, own, after);
}

/// The number at the end of the file gives the byte at which the table of
/// objects begins.
pub proof fn law_startxref_points_at_table(objects: Seq<Seq<char>>)
    ensures
        stands_at(file_of(objects), xref_head(objects.len()), byte_count(file_body(objects))),
{
    let before = file_body(objects);
    let head = xref_head(objects.len());
    let after = xref_entries(objects, objects.len() as int) + trailer(
        objects.len(),
        byte_count(before),
    );
    assert(file_of(objects) =~= before + head + after);
    lemma_stands_at(before, head, after);
}

/// The file has a catalog, a list of pages, two objects for each page and a
/// font; the font is the object that the pages refer to, and the content of
/// each page the object behind the page.
pub proof fn law_references_name_their_objects(
    filename: Seq<char>,
    pages: Seq<PdfPage>,
    i: int,
)
    requires
        0 <= i < pages.len(),
    ensures
        ({
            let objects = objects_of(filename, pages);
            let font = (3 + pages.len() * 2) as nat;
            &&& objects.len() == font
            &&& objects[font - 1] == "<< /Type /Font /Subtype /Type1 /BaseFont /Helvetica >>"@
            &&& objects[3 + i * 2 - 1] == page_object(font, (4 + i * 2) as nat)
            &&& objects[4 + i * 2 - 1] == stream_object(stream_of(filename, pages[i]))
            &&& kids(pages.len())[i] == digits((3 + i * 2) as nat) + " 0 R"@
        }),
{
    let font = (3 + pages.len() * 2) as nat;
    lemma_page_objects(filename, pages, font, pages.len() as int, i);
}

proof fn lemma_page_objects(
    filename: Seq<char>,
    pages: Seq<PdfPage>,
    font: nat,
    n: int,
    i: int,
)
    requires
        0 <= i < n <= pages.len(),
    ensures
        page_objects(filename, pages, font, n).len() == n * 2,
        page_objects(filename, pages, font, n)[i * 2] == page_object(font, (4 + i * 2) as nat),
        page_objects(filename, pages, font, n)[i * 2 + 1] == stream_object(
            stream_of(filename, pages[i]),
        ),
    decreases n,
{
    if i < n - 1 {
        lemma_page_objects(filename, pages, font, n - 1, i);
    } else if n > 1 {
        lemma_page_objects(filename, pages, font, n - 1, n - 2);
    } else {
        assert(page_objects(filename, pages, font, 0).len() == 0);
    }
}

/// The numeral of a number below ten to the power of `k` has at most `k` digits.
proof fn lemma_digits_bounded(n: nat, k: nat)
    requires
        k > 0,
        n < vstd::arithmetic::power::pow(10, k),
    ensures
        digits(n).len() <= k,
    decreases k,
{
    if n >= 10 {
        assert(vstd::arithmetic::power::pow(10, k) == 10 * vstd::arithmetic::power::pow(
            10,
            (k - 1) as nat,
        )) by {
            vstd::arithmetic::power::lemma_pow1(10);
            reveal(vstd::arithmetic::power::pow);
        }
        if k == 1 {
            vstd::arithmetic::power::lemma_pow0(10);
        }
        lemma_digits_bounded(n / 10, (k - 1) as nat);
    }
}

/// An entry of the table of objects takes twenty bytes, as the format demands,
/// as long as the file is not larger than the ten digits of an entry can say.
pub proof fn law_table_entries_take_twenty_bytes(offset: nat)
    requires
        offset < 10_000_000_000,
    ensures
        byte_count(xref_entry(offset)) == 20,
{
    reveal_strlit(" 00000 n \n");
    assert(vstd::arithmetic::power::pow(10, 10) == 10_000_000_000) by {
        reveal(vstd::arithmetic::power::pow);
        reveal_with_fuel(vstd::arithmetic::power::pow, 11);
    }
    lemma_digits_bounded(offset, 10);
    let entry = xref_entry(offset);
    assert(entry.len() == 20);
    crate::number::law_digits_stand_for_number(offset);
    assert forall|i: int| 0 <= i < entry.len() implies (#[trigger] entry[i] as u32) < 128 by {
        let d = digits(offset);
        if i >= 10 - d.len() && i < 10 {
            assert(entry[i] == d[i - (10 - d.len())]);
            assert(crate::text::is_digit(d[i - (10 - d.len())]));
        }
    }
    lemma_ascii_bytes(entry);
}

/// An ASCII text takes as many bytes as it has characters.
proof fn lemma_ascii_bytes(s: Seq<char>)
    requires
        forall|i: int| 0 <= i < s.len() ==> (#[trigger] s[i] as u32) < 128,
    ensures
        byte_count(s) == s.len(),
    decreases s.len(),
{
    if s.len() > 0 {
        let rest = s.drop_first();
        assert forall|i: int| 0 <= i < rest.len() implies (#[trigger] rest[i] as u32) < 128 by {
            assert(rest[i] == s[i + 1]);
        }
        lemma_ascii_bytes(rest);
        assert((s[0] as u32) < 128);
        assert(encode_scalar(s[0] as u32).len() == 1);
    }
}

// ---------------------------------------------------------------------------
// Laws of what a page shows
// ---------------------------------------------------------------------------

/// The lines of a page, one by one.
spec fn plain_parts(list: Seq<Seq<char>>, n: int) -> Seq<Seq<char>> {
    Seq::new(
        if n <= 0 {
            0
        } else {
            n as nat
        },
        |i: int|
            "BT /F1 10 Tf 50 "@ + decimal(760 - 16 * i) + " Td ("@ + pdf_escaped(list[i])
                + ") Tj ET\n"@,
    )
}

proof fn lemma_plain_line_parts(list: Seq<Seq<char>>, n: int)
    ensures
        plain_lines(list, n) == concatenated(plain_parts(list, n)),
    decreases n,
{
    if n > 0 {
        lemma_plain_line_parts(list, n - 1);
        assert(plain_parts(list, n).drop_last() =~= plain_parts(list, n - 1));
    } else {
        assert(plain_parts(list, n) =~= Seq::empty());
    }
}

/// The lines of a block, one by one.
spec fn placed_parts(x: Seq<char>, y: Seq<Seq<char>>, list: Seq<Seq<char>>, n: int) -> Seq<
    Seq<char>,
> {
    Seq::new(
        if n <= 0 {
            0
        } else {
            n as nat
        },
        |i: int| placed_line(x, y[i], list[i]),
    )
}

proof fn lemma_placed_line_parts(x: Seq<char>, y: Seq<Seq<char>>, list: Seq<Seq<char>>, n: int)
    ensures
        placed_lines(x, y, list, n) == concatenated(placed_parts(x, y, list, n)),
    decreases n,
{
    if n > 0 {
        lemma_placed_line_parts(x, y, list, n - 1);
        assert(placed_parts(x, y, list, n).drop_last() =~= placed_parts(x, y, list, n - 1));
    } else {
        assert(placed_parts(x, y, list, n) =~= Seq::empty());
    }
}

/// What blocks add, one by one.
spec fn content_parts(blocks: Seq<PlacedView>) -> Seq<Seq<char>> {
    Seq::new(blocks.len(), |i: int| block_content(blocks[i]))
}

proof fn lemma_content_parts(blocks: Seq<PlacedView>)
    ensures
        blocks_content(blocks) == concatenated(content_parts(blocks)),
    decreases blocks.len(),
{
    if blocks.len() > 0 {
        lemma_content_parts(blocks.drop_last());
        assert(content_parts(blocks).drop_last() =~= content_parts(blocks.drop_last()));
    }
}

/// What stands above the lines of a page.
spec fn stream_head(filename: Seq<char>, page: GeneralDocumentPageView) -> Seq<char> {
    "BT /F1 12 Tf 50 805 Td ("@ + pdf_escaped(filename) + ") Tj ET\nBT /F1 9 Tf 50 790 Td (Page "@
        + decimal(page.page_number as int) + ") Tj ET\n"@
}

/// Every page shows the name of the file and the number of the page.
pub proof fn law_page_shows_name_and_number(
    filename: Seq<char>,
    page: GeneralDocumentPageView,
    blocks: Seq<PlacedView>,
)
    ensures
        ({
            let stream = page_stream(filename, page, blocks);
            &&& has_text(stream, " Td ("@ + pdf_escaped(filename) + ") Tj ET\n"@)
            &&& has_text(stream, " Td (Page "@ + decimal(page.page_number as int) + ") Tj ET\n"@)
        }),
{
    let stream = page_stream(filename, page, blocks);
    let head = stream_head(filename, page);
    let rest = stream.skip(head.len() as int);
    assert(stream == head + rest);
    let a = "BT /F1 12 Tf 50 805 Td ("@;
    let b = ") Tj ET\nBT /F1 9 Tf 50 790 Td (Page "@;
    let td = " Td ("@;
    let page_td = " Td (Page "@;
    let end = ") Tj ET\n"@;
    let name = pdf_escaped(filename);
    let number = decimal(page.page_number as int);
    let (before, gap, line) = lemma_head_literals();
    let p = td + name + end;
    lemma_assoc(before, td, name);
    lemma_assoc(before + (td + name), end, gap);
    lemma_assoc(before, td + name, end);
    lemma_stands_between(before, p, gap);
    assert(a + name + b == before + p + gap);
    lemma_front_holds(a + name + b, number, p);
    lemma_front_holds(a + name + b + number, end, p);
    lemma_front_holds(head, rest, p);
    let q = page_td + number + end;
    lemma_assoc(a + name, line, page_td);
    lemma_assoc(a + name + line, page_td, number);
    lemma_assoc(a + name + line, page_td + number, end);
    lemma_end_stands(a + name + line, q);
    lemma_front_holds(head, rest, q);
}

/// What stands above the lines of a page, in parts.
proof fn lemma_head_literals() -> (r: (Seq<char>, Seq<char>, Seq<char>))
    ensures
        "BT /F1 12 Tf 50 805 Td ("@ == r.0 + " Td ("@,
        ") Tj ET\nBT /F1 9 Tf 50 790 Td (Page "@ == ") Tj ET\n"@ + r.1,
        ") Tj ET\nBT /F1 9 Tf 50 790 Td (Page "@ == r.2 + " Td (Page "@,
{
    reveal_strlit("BT /F1 12 Tf 50 805 Td (");
    reveal_strlit(") Tj ET\nBT /F1 9 Tf 50 790 Td (Page ");
    reveal_strlit(" Td (");
    reveal_strlit(" Td (Page ");
    reveal_strlit(") Tj ET\n");
    let a = "BT /F1 12 Tf 50 805 Td ("@;
    let b = ") Tj ET\nBT /F1 9 Tf 50 790 Td (Page "@;
    let n = a.len() - " Td ("@.len();
    let k = b.len() - " Td (Page "@.len();
    let m = ") Tj ET\n"@.len() as int;
    assert(a =~= a.take(n) + " Td ("@);
    assert(b =~= ") Tj ET\n"@ + b.skip(m));
    assert(b =~= b.take(k) + " Td (Page "@);
    (a.take(n), b.skip(m), b.take(k))
}

/// A page on which no block has both a text and a place shows the lines of its
/// text, the first 42 of them, in their order.
pub proof fn law_page_without_places_shows_its_text(
    filename: Seq<char>,
    page: GeneralDocumentPageView,
    blocks: Seq<PlacedView>,
    k: int,
    l: int,
)
    requires
        forall|i: int|
            0 <= i < blocks.len() ==> (#[trigger] blocks[i]).placement is None || blocks[i].text
                is None,
        0 <= k < lines_of(text_of_page(page)).len(),
        0 <= l < lines_of(text_of_page(page)).len(),
        k < 42,
        l < 42,
    ensures
        ({
            let stream = page_stream(filename, page, blocks);
            let first = " Td ("@ + pdf_escaped(lines_of(text_of_page(page))[k]) + ") Tj ET\n"@;
            let second = " Td ("@ + pdf_escaped(lines_of(text_of_page(page))[l]) + ") Tj ET\n"@;
            &&& has_text(stream, first)
            &&& k < l ==> shows_in_order(stream, first, second)
        }),
{
    let stream = page_stream(filename, page, blocks);
    let list = lines_of(text_of_page(page));
    let n = smaller(PAGE_LINES as int, list.len() as int);
    let parts = plain_parts(list, n);
    let head = stream_head(filename, page);
    let none = Seq::<char>::empty();
    assert(!any_shown(blocks));
    lemma_plain_line_parts(list, n);
    assert(stream =~= head + concatenated(parts) + none);
    lemma_stands_between(head, concatenated(parts), none);
    let at = head.len() as int;
    let first = " Td ("@ + pdf_escaped(list[k]) + ") Tj ET\n"@;
    let second = " Td ("@ + pdf_escaped(list[l]) + ") Tj ET\n"@;
    lemma_plain_part_shows(list, n, k);
    lemma_plain_part_shows(list, n, l);
    lemma_stands_in_order(parts, k);
    lemma_stands_deeper(stream, concatenated(parts), at, parts[k], start_of(parts, k));
    assert(has_text(stream, parts[k]));
    lemma_holds_deeper(stream, parts[k], first);
    if k < l {
        lemma_concatenated_in_order(parts, k, l);
        lemma_order_deeper(stream, concatenated(parts), at, parts[k], parts[l]);
        lemma_order_across(stream, parts[k], parts[l], first, second);
    }
}

proof fn lemma_plain_part_shows(list: Seq<Seq<char>>, n: int, k: int)
    requires
        0 <= k < n,
    ensures
        has_text(plain_parts(list, n)[k], " Td ("@ + pdf_escaped(list[k]) + ") Tj ET\n"@),
{
    lemma_end_of_five(
        "BT /F1 10 Tf 50 "@,
        decimal(760 - 16 * k),
        " Td ("@,
        pdf_escaped(list[k]),
        ") Tj ET\n"@,
    );
}

/// Five texts in a row hold the last three.
proof fn lemma_end_of_five(
    a: Seq<char>,
    b: Seq<char>,
    c: Seq<char>,
    d: Seq<char>,
    e: Seq<char>,
)
    ensures
        has_text(a + b + c + d + e, c + d + e),
{
    lemma_assoc(a + b, c, d);
    lemma_assoc(a + b, c + d, e);
    lemma_end_stands(a + b, c + d + e);
}

/// A line of a block shows its place and its text.
proof fn lemma_placed_line_shows(x: Seq<char>, y: Seq<char>, line: Seq<char>)
    ensures
        has_text(
            placed_line(x, y, line),
            x + " "@ + y + " Td ("@ + pdf_escaped(line) + ") Tj ET\n"@,
        ),
{
    let escaped = pdf_escaped(line);
    let a = "BT /F1 9 Tf "@;
    let b = " "@;
    let c = " Td ("@;
    let d = ") Tj ET\n"@;
    lemma_assoc(a, x, b);
    lemma_assoc(a, x + b, y);
    lemma_assoc(a, x + b + y, c);
    lemma_assoc(a, x + b + y + c, escaped);
    lemma_assoc(a, x + b + y + c + escaped, d);
    lemma_end_stands(a, x + b + y + c + escaped + d);
}

/// A block with a text and a place shows its lines on the page.
proof fn lemma_block_shows_line(
    blocks: Seq<PlacedView>,
    i: int,
    x: Seq<char>,
    y: Seq<Seq<char>>,
    list: Seq<Seq<char>>,
    k: int,
)
    requires
        0 <= i < blocks.len(),
        0 <= k < smaller(BLOCK_LINES as int, list.len() as int),
        block_content(blocks[i]) == placed_lines(
            x,
            y,
            list,
            smaller(BLOCK_LINES as int, list.len() as int),
        ),
    ensures
        has_text(blocks_content(blocks), placed_line(x, y[k], list[k])),
{
    let n = smaller(BLOCK_LINES as int, list.len() as int);
    let all = content_parts(blocks);
    lemma_content_parts(blocks);
    let parts = placed_parts(x, y, list, n);
    lemma_placed_line_parts(x, y, list, n);
    assert(all[i] == concatenated(parts));
    lemma_stands_in_order(parts, k);
    assert(has_text(all[i], parts[k]));
    lemma_stands_in_order(all, i);
    assert(has_text(blocks_content(blocks), all[i]));
    lemma_holds_deeper(blocks_content(blocks), all[i], parts[k]);
}

/// A block with a text and a place shows the lines of its text at its place, the
/// first six of them, each at its own height.
pub proof fn law_placed_block_shows_its_text(
    filename: Seq<char>,
    page: GeneralDocumentPageView,
    blocks: Seq<PlacedView>,
    i: int,
    x: Seq<char>,
    y: Seq<Seq<char>>,
    text: Seq<char>,
    k: int,
)
    requires
        0 <= i < blocks.len(),
        blocks[i].text == Some(text),
        blocks[i].placement == Some((x, y)),
        trimmed(text).len() > 0,
        0 <= k < lines_of(trimmed(text)).len(),
        k < 6,
    ensures
        has_text(
            page_stream(filename, page, blocks),
            x + " "@ + y[k] + " Td ("@ + pdf_escaped(lines_of(trimmed(text))[k]) + ") Tj ET\n"@,
        ),
{
    let stream = page_stream(filename, page, blocks);
    let list = lines_of(trimmed(text));
    let head = stream_head(filename, page);
    let none = Seq::<char>::empty();
    assert(shown(blocks[i]) is Some);
    assert(any_shown(blocks));
    lemma_block_shows_line(blocks, i, x, y, list, k);
    let part = placed_line(x, y[k], list[k]);
    let content = blocks_content(blocks);
    lemma_still_holds(head, content, none, part);
    assert(head + content + none =~= head + content);
    assert(stream == head + content);
    lemma_placed_line_shows(x, y[k], list[k]);
    let line = x + " "@ + y[k] + " Td ("@ + pdf_escaped(list[k]) + ") Tj ET\n"@;
    lemma_holds_deeper(stream, part, line);
}

/// The place of a block is read in each of the forms that a layout gives it in.
pub proof fn law_place_is_read(
    value: JsonView,
    items: Seq<JsonView>,
    a: NumberView,
    b: NumberView,
    c: NumberView,
    d: NumberView,
)
    ensures
        value == JsonView::Array(items) && items.len() >= 4 && items[0] == JsonView::Number(a)
            && items[1] == JsonView::Number(b) && items[2] == JsonView::Number(c) && items[3]
            == JsonView::Number(d) ==> bbox_in(value) == Some(BBoxView::Edges(a, b, c, d)),
        value is Object && value.member("x"@) == Some(JsonView::Number(a)) && value.member("y"@)
            == Some(JsonView::Number(b)) && value.member("width"@) == Some(JsonView::Number(c))
            && value.member("height"@) == Some(JsonView::Number(d)) ==> bbox_in(value) == Some(
            BBoxView::Size(a, b, c, d),
        ),
        value is Object && value.member("x"@) is None && value.member("y"@) is None && (
        value.member("width"@) is None || value.member("height"@) is None) && value.member(
            "left"@,
        ) == Some(JsonView::Number(a))
            && value.member("top"@) == Some(JsonView::Number(b)) && value.member("right"@) == Some(
            JsonView::Number(c),
        ) && value.member("bottom"@) == Some(JsonView::Number(d)) ==> bbox_in(value) == Some(
            BBoxView::Corners(a, b, c, d),
        ),
        value is Object && value.member("x"@) is None && value.member("y"@) is None
            && value.member("left"@) is None && value.member("top"@) is None && value.member(
            "width"@,
        ) is None && value.member("right"@) is None && value.member("bottom"@) is None
            && value.member("x1"@) == Some(JsonView::Number(a)) && value.member("y1"@) == Some(
            JsonView::Number(b),
        ) && value.member("x2"@) == Some(JsonView::Number(c)) && value.member("y2"@) == Some(
            JsonView::Number(d),
        ) ==> bbox_in(value) == Some(BBoxView::Corners(a, b, c, d)),
{
}

} // verus!
