//! The Word document that a general document is exported as.
use vstd::prelude::*;

use crate::general_store::GeneralDocumentBlock;
use crate::general_store::GeneralDocumentBlockView;
use crate::general_store::GeneralDocumentPage;
use crate::general_store::GeneralDocumentPageView;
use crate::number::decimal;
use crate::number::show_i64;
use crate::search::blocks_for_page;
use crate::search::by_index;
use crate::search::law_page_has_its_blocks_in_order;
use crate::search::on_page;
use crate::search::page_text;
use crate::search::text_of_page;
use crate::sqlite::meanings;
use crate::sqlite::Record;
use crate::text::begins_with;
use crate::text::cat3;
use crate::text::chars_of;
use crate::text::concatenated;
use crate::text::ends_with;
use crate::text::find_text;
use crate::text::finishes_with;
use crate::text::has_text;
use crate::text::is_space;
use crate::text::is_whitespace;
use crate::text::joined;
use crate::text::lacks;
use crate::text::lemma_assoc;
use crate::text::lemma_begins_with_concat;
use crate::text::lemma_concatenated_in_order;
use crate::text::lemma_end_stands;
use crate::text::lemma_find;
use crate::text::lemma_holds_deeper;
use crate::text::lemma_joined_without_gaps;
use crate::text::lemma_lead_taken;
use crate::text::lemma_lines_joined;
use crate::text::lemma_one_line_concat;
use crate::text::lemma_order_across;
use crate::text::lemma_order_deeper;
use crate::text::lemma_pieces_joined;
use crate::text::lemma_replaced_concat;
use crate::text::lemma_stands_between;
use crate::text::lemma_stands_deeper;
use crate::text::lemma_stands_in_order;
use crate::text::lemma_stands_within;
use crate::text::lemma_starts_ascend;
use crate::text::lemma_still_holds;
use crate::text::lemma_trail_taken;
use crate::text::lemma_trimmed_is_part;
use crate::text::lemma_trimmed_plain;
use crate::text::lines;
use crate::text::lines_of;
use crate::text::matches_at;
use crate::text::one_line;
use crate::text::pieces;
use crate::text::plain;
use crate::text::push_text;
use crate::text::replaced;
use crate::text::same;
use crate::text::shows_in_order;
use crate::text::split;
use crate::text::start_of;
use crate::text::starts_with;
use crate::text::string_or;
use crate::text::text_or;
use crate::text::texts;
use crate::text::trim;
use crate::text::trim_end_matches;
use crate::text::trim_start_matches;
use crate::text::trimmed;
use crate::text::without_leading;
use crate::text::without_return;
use crate::text::without_trailing;

verus! {

// ---------------------------------------------------------------------------
// Text in XML
// ---------------------------------------------------------------------------

/// What a character becomes in XML.
pub open spec fn xml_char(c: char) -> Seq<char> {
    if c == '&' {
        "&amp;"@
    } else if c == '<' {
        "&lt;"@
    } else if c == '>' {
        "&gt;"@
    } else {
        seq![c]
    }
}

/// A text as it stands in XML.
pub open spec fn xml_escaped(text: Seq<char>) -> Seq<char> {
    replaced(text, |c: char| xml_char(c))
}

/// A text as it stands in XML.
pub fn xml_escape(text: &str) -> (r: String)
    ensures
        r@ == xml_escaped(text@),
{
    let cs = chars_of(text);
    let ghost f = |c: char| xml_char(c);
    let mut out = String::new();
    assert(out@ =~= replaced(cs@.take(0), f));
    let mut i: usize = 0;
    while i < cs.len()
        invariant
            i <= cs@.len(),
            f == (|c: char| xml_char(c)),
            out@ == replaced(cs@.take(i as int), f),
        decreases cs@.len() - i,
    {
        let c = cs[i];
        assert(cs@.take(i as int + 1).drop_last() =~= cs@.take(i as int));
        if c == '&' {
            out.append("&amp;");
        } else if c == '<' {
            out.append("&lt;");
        } else if c == '>' {
            out.append("&gt;");
        } else {
            out.push(c);
        }
        assert(out@ =~= replaced(cs@.take(i as int + 1), f));
        i += 1;
    }
    assert(cs@.take(cs@.len() as int) =~= cs@);
    out
}

/// The text that a reader of XML makes of what stands there.
pub open spec fn xml_text(s: Seq<char>) -> Seq<char>
    decreases s.len(),
{
    if s.len() == 0 {
        Seq::empty()
    } else if begins_with(s, seq!['&', 'a', 'm', 'p', ';']) {
        seq!['&'] + xml_text(s.skip(5))
    } else if begins_with(s, seq!['&', 'l', 't', ';']) {
        seq!['<'] + xml_text(s.skip(4))
    } else if begins_with(s, seq!['&', 'g', 't', ';']) {
        seq!['>'] + xml_text(s.skip(4))
    } else {
        seq![s[0]] + xml_text(s.drop_first())
    }
}

proof fn lemma_escaped_front(text: Seq<char>)
    requires
        text.len() > 0,
    ensures
        xml_escaped(text) == xml_char(text[0]) + xml_escaped(text.drop_first()),
{
    let f = |c: char| xml_char(c);
    let head = seq![text[0]];
    lemma_replaced_concat(head, text.drop_first(), f);
    assert(head + text.drop_first() =~= text);
    assert(head.drop_last() =~= Seq::empty());
    assert(replaced(head.drop_last(), f) =~= Seq::empty());
    assert(replaced(head, f) =~= xml_char(text[0]));
}

/// A reader of XML makes of an escaped text the text that was escaped.
pub proof fn law_xml_reads_escaped_text_back(text: Seq<char>)
    ensures
        xml_text(xml_escaped(text)) == text,
    decreases text.len(),
{
    reveal_strlit("&amp;");
    reveal_strlit("&lt;");
    reveal_strlit("&gt;");
    if text.len() == 0 {
        assert(xml_text(xml_escaped(text)) =~= text);
    } else {
        let rest = text.drop_first();
        law_xml_reads_escaped_text_back(rest);
        lemma_escaped_front(text);
        let tail = xml_escaped(rest);
        let s = xml_escaped(text);
        let c = text[0];
        assert(seq![c] + rest =~= text);
        if c == '&' {
            assert("&amp;"@ =~= seq!['&', 'a', 'm', 'p', ';']);
            assert(s.subrange(0, 5) =~= seq!['&', 'a', 'm', 'p', ';']);
            assert(s.skip(5) =~= tail);
        } else if c == '<' {
            assert("&lt;"@ =~= seq!['&', 'l', 't', ';']);
            assert(s[1] == 'l');
            if begins_with(s, seq!['&', 'a', 'm', 'p', ';']) {
                assert(s.subrange(0, 5)[1] == 'a');
            }
            assert(s.subrange(0, 4) =~= seq!['&', 'l', 't', ';']);
            assert(s.skip(4) =~= tail);
        } else if c == '>' {
            assert("&gt;"@ =~= seq!['&', 'g', 't', ';']);
            assert(s[1] == 'g');
            if begins_with(s, seq!['&', 'a', 'm', 'p', ';']) {
                assert(s.subrange(0, 5)[1] == 'a');
            }
            if begins_with(s, seq!['&', 'l', 't', ';']) {
                assert(s.subrange(0, 4)[1] == 'l');
            }
            assert(s.subrange(0, 4) =~= seq!['&', 'g', 't', ';']);
            assert(s.skip(4) =~= tail);
        } else {
            assert(s[0] == c);
            if begins_with(s, seq!['&', 'a', 'm', 'p', ';']) {
                assert(s.subrange(0, 5)[0] == '&');
            }
            if begins_with(s, seq!['&', 'l', 't', ';']) {
                assert(s.subrange(0, 4)[0] == '&');
            }
            if begins_with(s, seq!['&', 'g', 't', ';']) {
                assert(s.subrange(0, 4)[0] == '&');
            }
            assert(s.drop_first() =~= tail);
        }
    }
}

/// An escaped text holds nothing that begins or ends a tag.
pub proof fn law_escaped_text_holds_no_tags(text: Seq<char>)
    ensures
        forall|i: int|
            0 <= i < xml_escaped(text).len() ==> (#[trigger] xml_escaped(text)[i]) != '<'
                && xml_escaped(text)[i] != '>',
    decreases text.len(),
{
    reveal_strlit("&amp;");
    reveal_strlit("&lt;");
    reveal_strlit("&gt;");
    if text.len() > 0 {
        law_escaped_text_holds_no_tags(text.drop_last());
        let before = xml_escaped(text.drop_last());
        let last = xml_char(text.last());
        let s = xml_escaped(text);
        assert(s == before + last);
        assert forall|i: int| 0 <= i < s.len() implies (#[trigger] s[i]) != '<' && s[i]
            != '>' by {
            if i < before.len() {
                assert(s[i] == before[i]);
            } else {
                assert(s[i] == last[i - before.len()]);
            }
        }
    }
}

// ---------------------------------------------------------------------------
// Paragraphs and tables
// ---------------------------------------------------------------------------

/// A paragraph.
pub open spec fn paragraph(text: Seq<char>, heading: bool) -> Seq<char> {
    if heading {
        "<w:p><w:pPr><w:pStyle w:val=\"Heading1\"/></w:pPr><w:r><w:b/><w:t>"@ + xml_escaped(text)
            + "</w:t></w:r></w:p>"@
    } else {
        "<w:p><w:r><w:t>"@ + xml_escaped(text) + "</w:t></w:r></w:p>"@
    }
}

/// A paragraph.
pub fn docx_paragraph(text: &str, heading: bool) -> (r: String)
    ensures
        r@ == paragraph(text@, heading),
{
    let escaped = xml_escape(text);
    if heading {
        cat3(
            "<w:p><w:pPr><w:pStyle w:val=\"Heading1\"/></w:pPr><w:r><w:b/><w:t>",
            escaped.as_str(),
            "</w:t></w:r></w:p>",
        )
    } else {
        cat3("<w:p><w:r><w:t>", escaped.as_str(), "</w:t></w:r></w:p>")
    }
}

/// One paragraph for each line.
pub open spec fn paragraphs(list: Seq<Seq<char>>) -> Seq<char>
    decreases list.len(),
{
    if list.len() == 0 {
        Seq::empty()
    } else {
        paragraphs(list.drop_last()) + paragraph(list.last(), false)
    }
}

/// One paragraph for each line of a text.
fn docx_lines(text: &str) -> (r: String)
    ensures
        r@ == paragraphs(lines_of(text@)),
{
    let list = lines(text);
    let ghost all = texts(list@);
    let mut out = String::new();
    assert(out@ =~= paragraphs(all.take(0)));
    let mut i: usize = 0;
    while i < list.len()
        invariant
            i <= list@.len(),
            all == texts(list@),
            out@ == paragraphs(all.take(i as int)),
        decreases list@.len() - i,
    {
        proof {
            assert(all.take(i as int + 1).drop_last() =~= all.take(i as int));
            assert(all.take(i as int + 1).last() == list@[i as int]@);
        }
        out.append(docx_paragraph(list[i].as_str(), false).as_str());
        i += 1;
    }
    assert(all.take(all.len() as int) =~= all);
    out
}

/// The texts of a list without the white space around them.
pub open spec fn trimmed_all(list: Seq<Seq<char>>) -> Seq<Seq<char>> {
    Seq::new(list.len(), |i: int| trimmed(list[i]))
}

/// The cells of a row of a table.
pub open spec fn cells_of(line: Seq<char>) -> Seq<Seq<char>> {
    trimmed_all(pieces(without_trailing(without_leading(line, "|"@), "|"@), "|"@))
}

/// Whether a character can stand in a rule that parts the head of a table from
/// its body.
pub open spec fn is_rule_char(c: char) -> bool {
    c == '-' || c == ':' || is_space(c)
}

/// Whether a cell belongs to such a rule.
pub open spec fn is_rule_cell(cell: Seq<char>) -> bool {
    forall|i: int| 0 <= i < cell.len() ==> is_rule_char(#[trigger] cell[i])
}

/// Whether a row is such a rule.
pub open spec fn is_rule(cells: Seq<Seq<char>>) -> bool {
    forall|i: int| 0 <= i < cells.len() ==> is_rule_cell(#[trigger] cells[i])
}

/// The cells of a line, if it is a row of a table and not a rule.
pub open spec fn row_of(line: Seq<char>) -> Option<Seq<Seq<char>>> {
    let t = trimmed(line);
    if begins_with(t, "|"@) && finishes_with(t, "|"@) && !is_rule(cells_of(t)) {
        Some(cells_of(t))
    } else {
        None
    }
}

/// The cells of a row.
pub open spec fn row_cells(cells: Seq<Seq<char>>) -> Seq<char>
    decreases cells.len(),
{
    if cells.len() == 0 {
        Seq::empty()
    } else {
        row_cells(cells.drop_last()) + ("<w:tc><w:p><w:r><w:t>"@ + xml_escaped(cells.last())
            + "</w:t></w:r></w:p></w:tc>"@)
    }
}

/// The rows of a table.
pub open spec fn table_rows(list: Seq<Seq<char>>) -> Seq<char>
    decreases list.len(),
{
    if list.len() == 0 {
        Seq::empty()
    } else {
        let before = table_rows(list.drop_last());
        match row_of(list.last()) {
            Some(cells) => before + "<w:tr>"@ + row_cells(cells) + "</w:tr>"@,
            None => before,
        }
    }
}

/// Whether any of the lines is a row of a table.
pub open spec fn has_rows(list: Seq<Seq<char>>) -> bool {
    exists|i: int| 0 <= i < list.len() && row_of(#[trigger] list[i]) is Some
}

/// A table, or a paragraph where a text has no rows.
pub open spec fn table(text: Seq<char>) -> Seq<char> {
    let list = lines_of(text);
    if has_rows(list) {
        "<w:tbl>"@ + table_rows(list) + "</w:tbl>"@
    } else {
        paragraph(text, false)
    }
}

/// Whether a cell belongs to a rule.
fn rule_cell(cell: &str) -> (r: bool)
    ensures
        r == is_rule_cell(cell@),
{
    let cs = chars_of(cell);
    let mut i: usize = 0;
    while i < cs.len()
        invariant
            i <= cs@.len(),
            cs@ == cell@,
            forall|k: int| 0 <= k < i ==> is_rule_char(#[trigger] cs@[k]),
        decreases cs@.len() - i,
    {
        let c = cs[i];
        if c != '-' && c != ':' && !is_whitespace(c) {
            assert(!is_rule_char(cell@[i as int]));
            return false;
        }
        i += 1;
    }
    true
}

/// The cells of a line, if it is a row of a table and not a rule.
fn read_row(line: &str) -> (r: Option<Vec<String>>)
    ensures
        match r {
            Some(cells) => row_of(line@) == Some(texts(cells@)),
            None => row_of(line@) is None,
        },
{
    proof {
        reveal_strlit("|");
    }
    let t = trim(line);
    if !starts_with(t.as_str(), "|") || !ends_with(t.as_str(), "|") {
        return None;
    }
    let inner = trim_end_matches(trim_start_matches(t.as_str(), "|").as_str(), "|");
    let raw = split(inner.as_str(), "|");
    let ghost all = trimmed_all(texts(raw@));
    let mut cells: Vec<String> = Vec::new();
    let mut rule = true;
    assert(texts(cells@) =~= all.take(0));
    let mut i: usize = 0;
    while i < raw.len()
        invariant
            i <= raw@.len(),
            all == trimmed_all(texts(raw@)),
            texts(cells@) == all.take(i as int),
            rule == (forall|k: int| 0 <= k < i ==> is_rule_cell(#[trigger] all[k])),
        decreases raw@.len() - i,
    {
        let cell = trim(raw[i].as_str());
        assert(cell@ == all[i as int]);
        if !rule_cell(cell.as_str()) {
            rule = false;
        }
        push_text(&mut cells, cell);
        assert(texts(cells@) =~= all.take(i as int + 1));
        i += 1;
    }
    assert(all.take(all.len() as int) =~= all);
    if rule {
        None
    } else {
        Some(cells)
    }
}

/// The cells of a row.
fn docx_cells(cells: &Vec<String>) -> (r: String)
    ensures
        r@ == row_cells(texts(cells@)),
{
    let ghost all = texts(cells@);
    let mut out = String::new();
    assert(out@ =~= row_cells(all.take(0)));
    let mut i: usize = 0;
    while i < cells.len()
        invariant
            i <= cells@.len(),
            all == texts(cells@),
            out@ == row_cells(all.take(i as int)),
        decreases cells@.len() - i,
    {
        proof {
            assert(all.take(i as int + 1).drop_last() =~= all.take(i as int));
            assert(all.take(i as int + 1).last() == cells@[i as int]@);
        }
        let cell = cat3(
            "<w:tc><w:p><w:r><w:t>",
            xml_escape(cells[i].as_str()).as_str(),
            "</w:t></w:r></w:p></w:tc>",
        );
        out.append(cell.as_str());
        i += 1;
    }
    assert(all.take(all.len() as int) =~= all);
    out
}

/// A table, or a paragraph where a text has no rows.
pub fn docx_table_or_paragraph(text: &str) -> (r: String)
    ensures
        r@ == table(text@),
{
    let list = lines(text);
    let ghost all = texts(list@);
    let mut rows = String::new();
    let mut any = false;
    assert(rows@ =~= table_rows(all.take(0)));
    let mut i: usize = 0;
    while i < list.len()
        invariant
            i <= list@.len(),
            all == texts(list@),
            rows@ == table_rows(all.take(i as int)),
            any == (exists|k: int| 0 <= k < i && row_of(#[trigger] all[k]) is Some),
        decreases list@.len() - i,
    {
        proof {
            assert(all.take(i as int + 1).drop_last() =~= all.take(i as int));
            assert(all.take(i as int + 1).last() == list@[i as int]@);
            assert(all[i as int] == list@[i as int]@);
        }
        match read_row(list[i].as_str()) {
            Some(cells) => {
                rows.append("<w:tr>");
                rows.append(docx_cells(&cells).as_str());
                rows.append("</w:tr>");
                any = true;
                assert(row_of(all[i as int]) is Some);
            },
            None => {},
        }
        i += 1;
    }
    assert(all.take(all.len() as int) =~= all);
    if !any {
        return docx_paragraph(text, false);
    }
    cat3("<w:tbl>", rows.as_str(), "</w:tbl>")
}

// ---------------------------------------------------------------------------
// The document
// ---------------------------------------------------------------------------

/// What a block becomes: a heading, a table, or paragraphs. A block without
/// text becomes nothing.
pub open spec fn block_body(block: GeneralDocumentBlockView) -> Seq<char> {
    let t = trimmed(text_or(block.text, ""@));
    if t.len() == 0 {
        Seq::empty()
    } else if block.block_type == "heading"@ {
        paragraph(t, true)
    } else if block.block_type == "table"@ || block.block_type == "table_cell"@ {
        table(t)
    } else {
        paragraphs(lines_of(t))
    }
}

/// What blocks become.
pub open spec fn blocks_body(blocks: Seq<GeneralDocumentBlockView>) -> Seq<char>
    decreases blocks.len(),
{
    if blocks.len() == 0 {
        Seq::empty()
    } else {
        blocks_body(blocks.drop_last()) + block_body(blocks.last())
    }
}

/// What a page becomes: a page break with its number, and its blocks or its
/// text.
pub open spec fn page_body(
    page: GeneralDocumentPageView,
    blocks: Seq<GeneralDocumentBlockView>,
) -> Seq<char> {
    let own = by_index(on_page(blocks, page.page_number));
    "<w:p><w:r><w:br w:type=\"page\"/><w:t>หน้า "@ + decimal(page.page_number as int)
        + "</w:t></w:r></w:p>"@ + (if own.len() == 0 {
        paragraphs(lines_of(text_of_page(page)))
    } else {
        blocks_body(own)
    })
}

/// What pages become.
pub open spec fn pages_body(
    pages: Seq<GeneralDocumentPageView>,
    blocks: Seq<GeneralDocumentBlockView>,
) -> Seq<char>
    decreases pages.len(),
{
    if pages.len() == 0 {
        Seq::empty()
    } else {
        pages_body(pages.drop_last(), blocks) + page_body(pages.last(), blocks)
    }
}

/// The main part of the Word document.
pub open spec fn document_part(
    filename: Seq<char>,
    pages: Seq<GeneralDocumentPageView>,
    blocks: Seq<GeneralDocumentBlockView>,
) -> Seq<char> {
    DOCUMENT_HEAD@ + (paragraph(filename, false) + pages_body(pages, blocks)) + DOCUMENT_TAIL@
}

/// What stands before the body of the document.
pub const DOCUMENT_HEAD: &'static str =
    "<?xml version=\"1.0\" encoding=\"UTF-8\" standalone=\"yes\"?><w:document xmlns:w=\"http://schemas.openxmlformats.org/wordprocessingml/2006/main\"><w:body>";

/// What stands after the body of the document.
pub const DOCUMENT_TAIL: &'static str = "<w:sectPr/></w:body></w:document>";

/// The part that says what the other parts are.
pub const CONTENT_TYPES: &'static str =
    "<?xml version=\"1.0\" encoding=\"UTF-8\" standalone=\"yes\"?><Types xmlns=\"http://schemas.openxmlformats.org/package/2006/content-types\"><Default Extension=\"rels\" ContentType=\"application/vnd.openxmlformats-package.relationships+xml\"/><Default Extension=\"xml\" ContentType=\"application/xml\"/><Override PartName=\"/word/document.xml\" ContentType=\"application/vnd.openxmlformats-officedocument.wordprocessingml.document.main+xml\"/></Types>";

/// The part that says which part is the main one.
pub const RELATIONSHIPS: &'static str =
    "<?xml version=\"1.0\" encoding=\"UTF-8\" standalone=\"yes\"?><Relationships xmlns=\"http://schemas.openxmlformats.org/package/2006/relationships\"><Relationship Id=\"rId1\" Type=\"http://schemas.openxmlformats.org/officeDocument/2006/relationships/officeDocument\" Target=\"word/document.xml\"/></Relationships>";

/// What a block becomes.
fn docx_block(block: &GeneralDocumentBlock) -> (r: String)
    ensures
        r@ == block_body(block.meaning()),
{
    let t = trim(string_or(&block.text, ""));
    if t.as_str().is_empty() {
        let nothing = String::new();
        assert(nothing@ =~= Seq::empty());
        return nothing;
    }
    if same(block.block_type.as_str(), "heading") {
        docx_paragraph(t.as_str(), true)
    } else if same(block.block_type.as_str(), "table") || same(
        block.block_type.as_str(),
        "table_cell",
    ) {
        docx_table_or_paragraph(t.as_str())
    } else {
        docx_lines(t.as_str())
    }
}

/// What blocks become.
fn docx_blocks(blocks: &Vec<GeneralDocumentBlock>) -> (r: String)
    ensures
        r@ == blocks_body(meanings(blocks@)),
{
    let ghost all = meanings(blocks@);
    let mut out = String::new();
    assert(out@ =~= blocks_body(all.take(0)));
    let mut i: usize = 0;
    while i < blocks.len()
        invariant
            i <= blocks@.len(),
            all == meanings(blocks@),
            out@ == blocks_body(all.take(i as int)),
        decreases blocks@.len() - i,
    {
        proof {
            assert(all.take(i as int + 1).drop_last() =~= all.take(i as int));
            assert(all.take(i as int + 1).last() == blocks@[i as int].meaning());
        }
        out.append(docx_block(&blocks[i]).as_str());
        i += 1;
    }
    assert(all.take(all.len() as int) =~= all);
    out
}

/// What a page becomes.
fn docx_page(page: &GeneralDocumentPage, blocks: &Vec<GeneralDocumentBlock>) -> (r: String)
    ensures
        r@ == page_body(page.meaning(), meanings(blocks@)),
{
    let mut out = cat3(
        "<w:p><w:r><w:br w:type=\"page\"/><w:t>หน้า ",
        show_i64(page.page_number).as_str(),
        "</w:t></w:r></w:p>",
    );
    let own = blocks_for_page(blocks, page.page_number);
    assert(meanings(own@).len() == own@.len());
    if own.len() == 0 {
        out.append(docx_lines(page_text(page).as_str()).as_str());
    } else {
        out.append(docx_blocks(&own).as_str());
    }
    out
}

/// The main part of the Word document that a general document is exported as:
/// the name of the file, and then its pages.
pub fn build_document_xml(
    filename: &str,
    pages: &Vec<GeneralDocumentPage>,
    blocks: &Vec<GeneralDocumentBlock>,
) -> (r: String)
    ensures
        r@ == document_part(filename@, meanings(pages@), meanings(blocks@)),
{
    let ghost all = meanings(pages@);
    let ghost views = meanings(blocks@);
    let mut out = String::new();
    assert(out@ =~= pages_body(all.take(0), views));
    let mut i: usize = 0;
    while i < pages.len()
        invariant
            i <= pages@.len(),
            all == meanings(pages@),
            views == meanings(blocks@),
            out@ == pages_body(all.take(i as int), views),
        decreases pages@.len() - i,
    {
        proof {
            assert(all.take(i as int + 1).drop_last() =~= all.take(i as int));
            assert(all.take(i as int + 1).last() == pages@[i as int].meaning());
        }
        out.append(docx_page(&pages[i], blocks).as_str());
        i += 1;
    }
    assert(all.take(all.len() as int) =~= all);
    let mut body = docx_paragraph(filename, false);
    body.append(out.as_str());
    cat3(DOCUMENT_HEAD, body.as_str(), DOCUMENT_TAIL)
}

// ---------------------------------------------------------------------------
// What the document holds of the pages
// ---------------------------------------------------------------------------

/// The paragraphs of lines.
spec fn line_parts(list: Seq<Seq<char>>) -> Seq<Seq<char>> {
    Seq::new(list.len(), |i: int| paragraph(list[i], false))
}

proof fn lemma_line_parts(list: Seq<Seq<char>>)
    ensures
        paragraphs(list) == concatenated(line_parts(list)),
    decreases list.len(),
{
    let parts = line_parts(list);
    if list.len() == 0 {
        assert(paragraphs(list) =~= concatenated(parts));
    } else {
        lemma_line_parts(list.drop_last());
        assert(parts.drop_last() =~= line_parts(list.drop_last()));
        assert(parts.last() == paragraph(list.last(), false));
    }
}

/// What blocks become, one by one.
spec fn block_parts(blocks: Seq<GeneralDocumentBlockView>) -> Seq<Seq<char>> {
    Seq::new(blocks.len(), |i: int| block_body(blocks[i]))
}

proof fn lemma_block_parts(blocks: Seq<GeneralDocumentBlockView>)
    ensures
        blocks_body(blocks) == concatenated(block_parts(blocks)),
    decreases blocks.len(),
{
    let parts = block_parts(blocks);
    if blocks.len() == 0 {
        assert(blocks_body(blocks) =~= concatenated(parts));
    } else {
        lemma_block_parts(blocks.drop_last());
        assert(parts.drop_last() =~= block_parts(blocks.drop_last()));
        assert(parts.last() == block_body(blocks.last()));
    }
}

/// What pages become, one by one.
spec fn page_parts(
    pages: Seq<GeneralDocumentPageView>,
    blocks: Seq<GeneralDocumentBlockView>,
) -> Seq<Seq<char>> {
    Seq::new(pages.len(), |i: int| page_body(pages[i], blocks))
}

proof fn lemma_page_parts(
    pages: Seq<GeneralDocumentPageView>,
    blocks: Seq<GeneralDocumentBlockView>,
)
    ensures
        pages_body(pages, blocks) == concatenated(page_parts(pages, blocks)),
    decreases pages.len(),
{
    let parts = page_parts(pages, blocks);
    if pages.len() == 0 {
        assert(pages_body(pages, blocks) =~= concatenated(parts));
    } else {
        lemma_page_parts(pages.drop_last(), blocks);
        assert(parts.drop_last() =~= page_parts(pages.drop_last(), blocks));
        assert(parts.last() == page_body(pages.last(), blocks));
    }
}

/// The page break with the number of a page.
pub open spec fn page_break(number: i64) -> Seq<char> {
    "<w:p><w:r><w:br w:type=\"page\"/><w:t>หน้า "@ + decimal(number as int)
        + "</w:t></w:r></w:p>"@
}

/// Where a page begins in the document.
spec fn page_start(
    filename: Seq<char>,
    pages: Seq<GeneralDocumentPageView>,
    blocks: Seq<GeneralDocumentBlockView>,
    i: int,
) -> int {
    DOCUMENT_HEAD@.len() + paragraph(filename, false).len() + start_of(
        page_parts(pages, blocks),
        i,
    )
}

/// A page stands where it begins, and the next begins behind it.
proof fn lemma_page_stands(
    filename: Seq<char>,
    pages: Seq<GeneralDocumentPageView>,
    blocks: Seq<GeneralDocumentBlockView>,
    i: int,
)
    requires
        0 <= i < pages.len(),
    ensures
        matches_at(
            document_part(filename, pages, blocks),
            page_body(pages[i], blocks),
            page_start(filename, pages, blocks, i),
        ),
        forall|j: int|
            i < j < pages.len() ==> page_start(filename, pages, blocks, i) + page_body(
                pages[i],
                blocks,
            ).len() <= #[trigger] page_start(filename, pages, blocks, j),
{
    let parts = page_parts(pages, blocks);
    lemma_page_parts(pages, blocks);
    lemma_stands_in_order(parts, i);
    let name = paragraph(filename, false);
    let body = pages_body(pages, blocks);
    lemma_stands_within(DOCUMENT_HEAD@ + name, body, DOCUMENT_TAIL@, parts[i], start_of(parts, i));
    assert(DOCUMENT_HEAD@ + name + body + DOCUMENT_TAIL@ =~= document_part(
        filename,
        pages,
        blocks,
    ));
    assert forall|j: int| i < j < pages.len() implies page_start(filename, pages, blocks, i)
        + page_body(pages[i], blocks).len() <= #[trigger] page_start(
        filename,
        pages,
        blocks,
        j,
    ) by {
        lemma_starts_ascend(parts, i, j);
    }
}

/// Where the blocks of a page have come in the order of their numbers.
spec fn own_places(blocks: Seq<GeneralDocumentBlockView>, page: i64) -> spec_fn(int) -> int {
    choose|at: spec_fn(int) -> int| #[trigger] in_their_places(blocks, page, at)
}

/// Whether `at` says where the blocks of a page have come.
spec fn in_their_places(
    blocks: Seq<GeneralDocumentBlockView>,
    page: i64,
    at: spec_fn(int) -> int,
) -> bool {
    let own = by_index(on_page(blocks, page));
    &&& forall|j: int|
        0 <= j < blocks.len() && blocks[j].page_number == page ==> 0 <= #[trigger] at(j)
            < own.len() && own[at(j)] == blocks[j]
    &&& forall|i: int, j: int|
        0 <= i < blocks.len() && 0 <= j < blocks.len() && blocks[i].page_number == page
            && blocks[j].page_number == page && (blocks[i].block_index < blocks[j].block_index
            || blocks[i].block_index == blocks[j].block_index && i < j) ==> #[trigger] at(i)
            < #[trigger] at(j)
}

proof fn lemma_own_places(blocks: Seq<GeneralDocumentBlockView>, page: i64)
    ensures
        in_their_places(blocks, page, own_places(blocks, page)),
{
    let at = law_page_has_its_blocks_in_order(blocks, page);
    assert(in_their_places(blocks, page, at));
}

/// Where a block begins in the document.
spec fn block_start(
    filename: Seq<char>,
    pages: Seq<GeneralDocumentPageView>,
    blocks: Seq<GeneralDocumentBlockView>,
    i: int,
    j: int,
) -> int {
    let number = pages[i].page_number;
    page_start(filename, pages, blocks, i) + page_break(number).len() + start_of(
        block_parts(by_index(on_page(blocks, number))),
        own_places(blocks, number)(j),
    )
}

/// A block on a page stands where it begins, within its page.
proof fn lemma_block_stands(
    filename: Seq<char>,
    pages: Seq<GeneralDocumentPageView>,
    blocks: Seq<GeneralDocumentBlockView>,
    i: int,
    j: int,
)
    requires
        0 <= i < pages.len(),
        0 <= j < blocks.len(),
        blocks[j].page_number == pages[i].page_number,
    ensures
        ({
            let at = block_start(filename, pages, blocks, i, j);
            let page = page_start(filename, pages, blocks, i);
            &&& matches_at(document_part(filename, pages, blocks), block_body(blocks[j]), at)
            &&& page <= at
            &&& at + block_body(blocks[j]).len() <= page + page_body(pages[i], blocks).len()
        }),
{
    let number = pages[i].page_number;
    let own = by_index(on_page(blocks, number));
    let parts = block_parts(own);
    lemma_own_places(blocks, number);
    let m = own_places(blocks, number)(j);
    assert(own[m] == blocks[j]);
    lemma_page_stands(filename, pages, blocks, i);
    lemma_block_parts(own);
    lemma_stands_in_order(parts, m);
    let head = page_break(number);
    let body = blocks_body(own);
    let none = Seq::<char>::empty();
    lemma_stands_within(head, body, none, parts[m], start_of(parts, m));
    assert(head + body + none =~= page_body(pages[i], blocks));
    lemma_stands_deeper(
        document_part(filename, pages, blocks),
        page_body(pages[i], blocks),
        page_start(filename, pages, blocks, i),
        parts[m],
        head.len() + start_of(parts, m),
    );
}

/// Whether a block of a page comes before another in the document: its page does,
/// or its number does on the same page.
pub open spec fn block_precedes(
    blocks: Seq<GeneralDocumentBlockView>,
    page: int,
    block: int,
    other_page: int,
    other: int,
) -> bool {
    ||| page < other_page
    ||| page == other_page && blocks[block].block_index < blocks[other].block_index
    ||| page == other_page && blocks[block].block_index == blocks[other].block_index && block
        < other
}

/// A block that comes before another ends before it begins.
proof fn lemma_blocks_in_order(
    filename: Seq<char>,
    pages: Seq<GeneralDocumentPageView>,
    blocks: Seq<GeneralDocumentBlockView>,
    i: int,
    j: int,
    i2: int,
    j2: int,
)
    requires
        0 <= i < pages.len(),
        0 <= j < blocks.len(),
        blocks[j].page_number == pages[i].page_number,
        0 <= i2 < pages.len(),
        0 <= j2 < blocks.len(),
        blocks[j2].page_number == pages[i2].page_number,
        block_precedes(blocks, i, j, i2, j2),
    ensures
        block_start(filename, pages, blocks, i, j) + block_body(blocks[j]).len() <= block_start(
            filename,
            pages,
            blocks,
            i2,
            j2,
        ),
{
    lemma_block_stands(filename, pages, blocks, i, j);
    lemma_block_stands(filename, pages, blocks, i2, j2);
    lemma_page_stands(filename, pages, blocks, i);
    if i == i2 {
        let number = pages[i].page_number;
        let own = by_index(on_page(blocks, number));
        let parts = block_parts(own);
        let at = own_places(blocks, number);
        lemma_own_places(blocks, number);
        assert(own[at(j)] == blocks[j] && own[at(j2)] == blocks[j2]);
        assert(at(j) < at(j2));
        lemma_starts_ascend(parts, at(j), at(j2));
    }
}

/// Whether the document owes a paragraph to line `k` of block `j` on page `i`:
/// the block is on the page, has text, and is neither a heading nor a table.
pub open spec fn owes_line(
    pages: Seq<GeneralDocumentPageView>,
    blocks: Seq<GeneralDocumentBlockView>,
    i: int,
    j: int,
    k: int,
) -> bool {
    &&& 0 <= i < pages.len()
    &&& 0 <= j < blocks.len()
    &&& blocks[j].page_number == pages[i].page_number
    &&& blocks[j].text is Some
    &&& blocks[j].block_type != "heading"@
    &&& blocks[j].block_type != "table"@
    &&& blocks[j].block_type != "table_cell"@
    &&& 0 <= k < lines_of(trimmed(blocks[j].text->0)).len()
}

/// No text is lost in the export: for every page and every block on it that is
/// neither a heading nor a table, the document holds each line of the block's
/// trimmed text, escaped, as a paragraph of its own; the paragraphs stand in the
/// order of the pages, of the numbers of the blocks, and of the lines. `at` says
/// where.
pub proof fn law_export_keeps_every_line(
    filename: Seq<char>,
    pages: Seq<GeneralDocumentPageView>,
    blocks: Seq<GeneralDocumentBlockView>,
) -> (at: spec_fn(int, int, int) -> int)
    ensures
        forall|i: int, j: int, k: int|
            owes_line(pages, blocks, i, j, k) ==> matches_at(
                document_part(filename, pages, blocks),
                "<w:p><w:r><w:t>"@ + xml_escaped(lines_of(trimmed(blocks[j].text->0))[k])
                    + "</w:t></w:r></w:p>"@,
                #[trigger] at(i, j, k),
            ),
        forall|i: int, j: int, k: int, i2: int, j2: int, k2: int|
            owes_line(pages, blocks, i, j, k) && owes_line(pages, blocks, i2, j2, k2) && (
            block_precedes(blocks, i, j, i2, j2) || i == i2 && j == j2 && k < k2)
                ==> #[trigger] at(i, j, k) < #[trigger] at(i2, j2, k2),
{
    let doc = document_part(filename, pages, blocks);
    let at = |i: int, j: int, k: int|
        block_start(filename, pages, blocks, i, j) + start_of(
            line_parts(lines_of(trimmed(blocks[j].text->0))),
            k,
        );
    assert forall|i: int, j: int, k: int| owes_line(pages, blocks, i, j, k) implies matches_at(
        doc,
        "<w:p><w:r><w:t>"@ + xml_escaped(lines_of(trimmed(blocks[j].text->0))[k])
            + "</w:t></w:r></w:p>"@,
        #[trigger] at(i, j, k),
    ) by {
        lemma_line_stands(filename, pages, blocks, i, j, k);
    }
    assert forall|i: int, j: int, k: int, i2: int, j2: int, k2: int|
        owes_line(pages, blocks, i, j, k) && owes_line(pages, blocks, i2, j2, k2) && (
        block_precedes(blocks, i, j, i2, j2) || i == i2 && j == j2 && k
            < k2) implies #[trigger] at(i, j, k) < #[trigger] at(i2, j2, k2) by {
        lemma_line_stands(filename, pages, blocks, i, j, k);
        lemma_line_stands(filename, pages, blocks, i2, j2, k2);
        let parts = line_parts(lines_of(trimmed(blocks[j].text->0)));
        reveal_strlit("<w:p><w:r><w:t>");
        assert(parts[k].len() > 0);
        if i == i2 && j == j2 && k < k2 {
            lemma_starts_ascend(parts, k, k2);
        } else {
            lemma_blocks_in_order(filename, pages, blocks, i, j, i2, j2);
        }
    }
    at
}

/// A line of a block stands where it begins, within its block.
proof fn lemma_line_stands(
    filename: Seq<char>,
    pages: Seq<GeneralDocumentPageView>,
    blocks: Seq<GeneralDocumentBlockView>,
    i: int,
    j: int,
    k: int,
)
    requires
        owes_line(pages, blocks, i, j, k),
    ensures
        ({
            let parts = line_parts(lines_of(trimmed(blocks[j].text->0)));
            let block = block_start(filename, pages, blocks, i, j);
            &&& matches_at(
                document_part(filename, pages, blocks),
                parts[k],
                block + start_of(parts, k),
            )
            &&& 0 <= start_of(parts, k)
            &&& start_of(parts, k) + parts[k].len() <= block_body(blocks[j]).len()
        }),
{
    let t = trimmed(blocks[j].text->0);
    let list = lines_of(t);
    let parts = line_parts(list);
    assert(t.len() > 0) by {
        if t.len() == 0 {
            assert(list.len() == 0);
        }
    }
    lemma_block_stands(filename, pages, blocks, i, j);
    lemma_line_parts(list);
    lemma_stands_in_order(parts, k);
    assert(block_body(blocks[j]) == paragraphs(list));
    lemma_stands_deeper(
        document_part(filename, pages, blocks),
        block_body(blocks[j]),
        block_start(filename, pages, blocks, i, j),
        parts[k],
        start_of(parts, k),
    );
}

/// A heading on a page becomes a heading with its text; it stands behind what
/// comes before it, and before what comes after it.
pub proof fn law_export_keeps_headings(
    filename: Seq<char>,
    pages: Seq<GeneralDocumentPageView>,
    blocks: Seq<GeneralDocumentBlockView>,
    i: int,
    j: int,
)
    requires
        0 <= i < pages.len(),
        0 <= j < blocks.len(),
        blocks[j].page_number == pages[i].page_number,
        blocks[j].block_type == "heading"@,
        blocks[j].text is Some,
        trimmed(blocks[j].text->0).len() > 0,
    ensures
        has_text(
            document_part(filename, pages, blocks),
            "<w:p><w:pPr><w:pStyle w:val=\"Heading1\"/></w:pPr><w:r><w:b/><w:t>"@ + xml_escaped(
                trimmed(blocks[j].text->0),
            ) + "</w:t></w:r></w:p>"@,
        ),
{
    lemma_block_stands(filename, pages, blocks, i, j);
    assert(matches_at(
        document_part(filename, pages, blocks),
        paragraph(trimmed(blocks[j].text->0), true),
        block_start(filename, pages, blocks, i, j),
    ));
}

/// Every page of the document has its page break with its number, in the order of
/// the pages; and a page without blocks has behind it each line of its text as a
/// paragraph: of the text as edited, else of the text as read.
pub proof fn law_export_keeps_every_page(
    filename: Seq<char>,
    pages: Seq<GeneralDocumentPageView>,
    blocks: Seq<GeneralDocumentBlockView>,
) -> (at: spec_fn(int) -> int)
    ensures
        begins_with(
            document_part(filename, pages, blocks),
            DOCUMENT_HEAD@ + "<w:p><w:r><w:t>"@ + xml_escaped(filename) + "</w:t></w:r></w:p>"@,
        ),
        forall|i: int|
            0 <= i < pages.len() ==> matches_at(
                document_part(filename, pages, blocks),
                "<w:p><w:r><w:br w:type=\"page\"/><w:t>หน้า "@ + decimal(
                    pages[i].page_number as int,
                ) + "</w:t></w:r></w:p>"@,
                #[trigger] at(i),
            ),
        forall|i: int, i2: int| 0 <= i < i2 < pages.len() ==> #[trigger] at(i) < #[trigger] at(i2),
        forall|i: int, k: int|
            0 <= i < pages.len() && (forall|j: int|
                0 <= j < blocks.len() ==> (#[trigger] blocks[j]).page_number
                    != pages[i].page_number) && (pages[i].edited_text is Some
                || pages[i].ocr_text is Some) && 0 <= k < lines_of(shown_text(pages[i])).len()
                ==> has_text(
                document_part(filename, pages, blocks),
                "<w:p><w:r><w:t>"@ + xml_escaped(#[trigger] lines_of(shown_text(pages[i]))[k])
                    + "</w:t></w:r></w:p>"@,
            ),
{
    let doc = document_part(filename, pages, blocks);
    let at = |i: int| page_start(filename, pages, blocks, i);
    let name = paragraph(filename, false);
    lemma_begins_with_concat(DOCUMENT_HEAD@ + name, pages_body(pages, blocks) + DOCUMENT_TAIL@);
    assert(DOCUMENT_HEAD@ + name + (pages_body(pages, blocks) + DOCUMENT_TAIL@) =~= doc);
    assert(DOCUMENT_HEAD@ + name =~= DOCUMENT_HEAD@ + "<w:p><w:r><w:t>"@ + xml_escaped(filename)
        + "</w:t></w:r></w:p>"@);
    assert forall|i: int| 0 <= i < pages.len() implies matches_at(
        doc,
        "<w:p><w:r><w:br w:type=\"page\"/><w:t>หน้า "@ + decimal(pages[i].page_number as int)
            + "</w:t></w:r></w:p>"@,
        #[trigger] at(i),
    ) by {
        lemma_page_stands(filename, pages, blocks, i);
        let head = page_break(pages[i].page_number);
        let body = page_body(pages[i], blocks);
        let rest = body.skip(head.len() as int);
        assert(body =~= head + rest);
        lemma_begins_with_concat(head, rest);
        lemma_stands_deeper(doc, body, at(i), head, 0);
    }
    assert forall|i: int, i2: int| 0 <= i < i2 < pages.len() implies #[trigger] at(i)
        < #[trigger] at(i2) by {
        lemma_page_stands(filename, pages, blocks, i);
        reveal_strlit("<w:p><w:r><w:br w:type=\"page\"/><w:t>หน้า ");
        assert(page_body(pages[i], blocks).len() > 0);
        assert(page_start(filename, pages, blocks, i) + page_body(pages[i], blocks).len()
            <= page_start(filename, pages, blocks, i2));
    }
    assert forall|i: int, k: int|
        0 <= i < pages.len() && (forall|j: int|
            0 <= j < blocks.len() ==> (#[trigger] blocks[j]).page_number != pages[i].page_number)
            && (pages[i].edited_text is Some || pages[i].ocr_text is Some) && 0 <= k < lines_of(
            shown_text(pages[i]),
        ).len() implies has_text(
        doc,
        "<w:p><w:r><w:t>"@ + xml_escaped(#[trigger] lines_of(shown_text(pages[i]))[k])
            + "</w:t></w:r></w:p>"@,
    ) by {
        lemma_page_stands(filename, pages, blocks, i);
        lemma_no_blocks(blocks, pages[i].page_number);
        let list = lines_of(shown_text(pages[i]));
        let parts = line_parts(list);
        lemma_line_parts(list);
        lemma_stands_in_order(parts, k);
        let head = page_break(pages[i].page_number);
        let none = Seq::<char>::empty();
        lemma_stands_within(head, paragraphs(list), none, parts[k], start_of(parts, k));
        assert(head + paragraphs(list) + none =~= page_body(pages[i], blocks));
        lemma_stands_deeper(
            doc,
            page_body(pages[i], blocks),
            at(i),
            parts[k],
            head.len() + start_of(parts, k),
        );
    }
    at
}

/// The text that a page shows: the edited one, and where there is none, the one
/// that was read.
pub open spec fn shown_text(page: GeneralDocumentPageView) -> Seq<char> {
    if page.edited_text is Some {
        page.edited_text->0
    } else {
        page.ocr_text->0
    }
}

proof fn lemma_no_blocks(blocks: Seq<GeneralDocumentBlockView>, page: i64)
    requires
        forall|j: int| 0 <= j < blocks.len() ==> (#[trigger] blocks[j]).page_number != page,
    ensures
        by_index(on_page(blocks, page)).len() == 0,
{
    let at = law_page_has_its_blocks_in_order(blocks, page);
    let own = by_index(on_page(blocks, page));
    if own.len() > 0 {
        assert(own[0].page_number == page && blocks.contains(own[0]));
    }
}

/// The cell of a table that holds a text.
pub open spec fn table_cell(text: Seq<char>) -> Seq<char> {
    "<w:tc><w:p><w:r><w:t>"@ + xml_escaped(text) + "</w:t></w:r></w:p></w:tc>"@
}

/// The cells of a row, one by one.
spec fn cell_parts(cells: Seq<Seq<char>>) -> Seq<Seq<char>> {
    Seq::new(cells.len(), |i: int| table_cell(cells[i]))
}

proof fn lemma_cell_parts(cells: Seq<Seq<char>>)
    ensures
        row_cells(cells) == concatenated(cell_parts(cells)),
    decreases cells.len(),
{
    if cells.len() > 0 {
        lemma_cell_parts(cells.drop_last());
        assert(cell_parts(cells).drop_last() =~= cell_parts(cells.drop_last()));
        assert(cell_parts(cells).last() == table_cell(cells.last()));
    }
}

/// The rows of a table, one by one.
spec fn row_parts(rows: Seq<Seq<Seq<char>>>) -> Seq<Seq<char>> {
    Seq::new(rows.len(), |i: int| "<w:tr>"@ + row_cells(rows[i]) + "</w:tr>"@)
}

/// The line that writes a row of cells: the cells between bars.
pub open spec fn row_line(cells: Seq<Seq<char>>) -> Seq<char> {
    "|"@ + joined(cells, "|"@) + "|"@
}

/// The lines that write rows of cells.
pub open spec fn rows_lines(rows: Seq<Seq<Seq<char>>>) -> Seq<Seq<char>> {
    Seq::new(rows.len(), |i: int| row_line(rows[i]))
}

/// Whether texts can be the cells of a row: each is plain and has no bar, and one
/// of them has a character that no rule is made of.
pub open spec fn are_cells(cells: Seq<Seq<char>>) -> bool {
    &&& forall|i: int| 0 <= i < cells.len() ==> plain(#[trigger] cells[i]) && lacks(cells[i], '|')
    &&& exists|i: int| 0 <= i < cells.len() && !is_rule_cell(#[trigger] cells[i])
}

/// What is known of a line that writes a row.
proof fn lemma_row_line(cells: Seq<Seq<char>>)
    requires
        cells.len() > 0,
        forall|i: int| 0 <= i < cells.len() ==> plain(#[trigger] cells[i]) && lacks(cells[i], '|'),
    ensures
        ({
            let inner = joined(cells, "|"@);
            &&& inner.len() > 0
            &&& inner[0] != '|'
            &&& inner[inner.len() - 1] != '|'
            &&& one_line(inner)
        }),
    decreases cells.len(),
{
    reveal_strlit("|");
    let inner = joined(cells, "|"@);
    let n = cells.len() - 1;
    assert(plain(cells[0]) && lacks(cells[0], '|'));
    assert(plain(cells[n]) && lacks(cells[n], '|'));
    assert(cells[0][0] != '|');
    assert(cells[n][cells[n].len() - 1] != '|');
    if n > 0 {
        let before = cells.drop_last();
        assert forall|i: int| 0 <= i < before.len() implies plain(#[trigger] before[i]) && lacks(
            before[i],
            '|',
        ) by {
            assert(before[i] == cells[i]);
        }
        lemma_row_line(before);
        let front = joined(before, "|"@);
        assert(one_line("|"@));
        lemma_one_line_concat(front, "|"@);
        lemma_one_line_concat(front + "|"@, cells[n]);
        assert(inner[0] == front[0]);
        assert(inner[inner.len() - 1] == cells[n][cells[n].len() - 1]);
    }
}

/// The bars around a row are taken off, and no others.
proof fn lemma_bars_taken(inner: Seq<char>)
    requires
        inner.len() > 0,
        inner[0] != '|',
        inner[inner.len() - 1] != '|',
    ensures
        ({
            let line = "|"@ + inner + "|"@;
            &&& trimmed(line) == line
            &&& begins_with(line, "|"@)
            &&& finishes_with(line, "|"@)
            &&& without_trailing(without_leading(line, "|"@), "|"@) == inner
        }),
{
    reveal_strlit("|");
    let bar = "|"@;
    let line = bar + inner + bar;
    let rest = inner + bar;
    assert(line[0] == '|' && line[line.len() - 1] == '|');
    assert(!is_space('|'));
    lemma_trimmed_plain(line);
    lemma_assoc(bar, inner, bar);
    lemma_begins_with_concat(bar, rest);
    lemma_end_stands(bar + inner, bar);
    assert(rest[0] == inner[0]);
    lemma_lead_taken(bar, rest);
    lemma_trail_taken(inner, bar);
}

/// A line that writes a row of cells is read as a row with these cells.
pub proof fn law_row_is_read_back(cells: Seq<Seq<char>>)
    requires
        are_cells(cells),
    ensures
        row_of(row_line(cells)) == Some(cells),
{
    reveal_strlit("|");
    let bar = "|"@;
    let inner = joined(cells, bar);
    let line = row_line(cells);
    lemma_row_line(cells);
    lemma_bars_taken(inner);
    assert forall|i: int| 0 <= i < cells.len() implies lacks(#[trigger] cells[i], bar[0]) by {
        assert(lacks(cells[i], '|'));
    }
    lemma_pieces_joined(cells, bar);
    assert forall|i: int| 0 <= i < cells.len() implies trimmed(#[trigger] cells[i]) == cells[i] by {
        assert(plain(cells[i]));
        lemma_trimmed_plain(cells[i]);
    }
    assert(cells_of(line) =~= cells);
}

proof fn lemma_row_parts(rows: Seq<Seq<Seq<char>>>)
    requires
        forall|i: int| 0 <= i < rows.len() ==> are_cells(#[trigger] rows[i]),
    ensures
        table_rows(rows_lines(rows)) == concatenated(row_parts(rows)),
    decreases rows.len(),
{
    if rows.len() > 0 {
        let before = rows.drop_last();
        assert forall|i: int| 0 <= i < before.len() implies are_cells(#[trigger] before[i]) by {
            assert(before[i] == rows[i]);
        }
        lemma_row_parts(before);
        assert(rows_lines(rows).drop_last() =~= rows_lines(before));
        assert(row_parts(rows).drop_last() =~= row_parts(before));
        assert(are_cells(rows[rows.len() - 1]));
        law_row_is_read_back(rows.last());
        assert(rows_lines(rows).last() == row_line(rows.last()));
        let front = table_rows(rows_lines(before));
        let cells = row_cells(rows.last());
        assert(row_parts(rows).last() == "<w:tr>"@ + cells + "</w:tr>"@);
        assert(front + "<w:tr>"@ + cells + "</w:tr>"@ =~= front + ("<w:tr>"@ + cells + "</w:tr>"@));
    }
}

/// The text that rows are written in has them as its lines.
proof fn lemma_rows_text(rows: Seq<Seq<Seq<char>>>)
    requires
        rows.len() > 0,
        forall|i: int| 0 <= i < rows.len() ==> are_cells(#[trigger] rows[i]),
    ensures
        lines_of(joined(rows_lines(rows), "\n"@)) == rows_lines(rows),
        trimmed(joined(rows_lines(rows), "\n"@)) == joined(rows_lines(rows), "\n"@),
        joined(rows_lines(rows), "\n"@).len() > 0,
{
    let list = rows_lines(rows);
    assert(!is_space('|'));
    assert forall|i: int| 0 <= i < list.len() implies plain(#[trigger] list[i]) by {
        reveal_strlit("|");
        assert(are_cells(rows[i]));
        let inner = joined(rows[i], "|"@);
        lemma_row_line(rows[i]);
        assert(one_line("|"@));
        lemma_one_line_concat("|"@, inner);
        lemma_one_line_concat("|"@ + inner, "|"@);
        assert(list[i][0] == '|' && list[i][list[i].len() - 1] == '|');
    }
    assert forall|i: int| 0 <= i < list.len() implies one_line(#[trigger] list[i]) && list[i].len()
        > 0 by {
        assert(plain(list[i]));
    }
    lemma_lines_joined(list);
    lemma_joined_without_gaps(list);
    assert(plain(list[0]));
    assert(plain(list[list.len() - 1]));
    lemma_trimmed_plain(joined(list, "\n"@));
}

/// No cell of a table is lost in the export: the document holds every cell of every
/// row that the text of a table writes, those of a row in their order, and the rows
/// in theirs.
pub proof fn law_export_keeps_tables(
    filename: Seq<char>,
    pages: Seq<GeneralDocumentPageView>,
    blocks: Seq<GeneralDocumentBlockView>,
    i: int,
    j: int,
    rows: Seq<Seq<Seq<char>>>,
    r: int,
    c: int,
    r2: int,
    c2: int,
)
    requires
        0 <= i < pages.len(),
        0 <= j < blocks.len(),
        blocks[j].page_number == pages[i].page_number,
        blocks[j].block_type == "table"@ || blocks[j].block_type == "table_cell"@,
        blocks[j].text == Some(joined(rows_lines(rows), "\n"@)),
        forall|k: int| 0 <= k < rows.len() ==> are_cells(#[trigger] rows[k]),
        0 <= r < rows.len(),
        0 <= c < rows[r].len(),
        0 <= r2 < rows.len(),
        0 <= c2 < rows[r2].len(),
    ensures
        ({
            let doc = document_part(filename, pages, blocks);
            let cell = "<w:tc><w:p><w:r><w:t>"@ + xml_escaped(rows[r][c])
                + "</w:t></w:r></w:p></w:tc>"@;
            let other = "<w:tc><w:p><w:r><w:t>"@ + xml_escaped(rows[r2][c2])
                + "</w:t></w:r></w:p></w:tc>"@;
            &&& has_text(doc, cell)
            &&& r < r2 || r == r2 && c < c2 ==> shows_in_order(doc, cell, other)
        }),
{
    let doc = document_part(filename, pages, blocks);
    let text = joined(rows_lines(rows), "\n"@);
    let list = rows_lines(rows);
    let body = block_body(blocks[j]);
    let cell = table_cell(rows[r][c]);
    let other = table_cell(rows[r2][c2]);
    lemma_rows_text(rows);
    assert(are_cells(rows[0]));
    law_row_is_read_back(rows[0]);
    assert(row_of(list[0]) is Some);
    assert(has_rows(list));
    assert(body == table(text)) by {
        reveal_strlit("heading");
        reveal_strlit("table");
        reveal_strlit("table_cell");
        assert("heading"@.len() == 7);
        assert("table"@.len() == 5);
        assert("table_cell"@.len() == 10);
    }
    lemma_row_parts(rows);
    let parts = row_parts(rows);
    lemma_block_stands(filename, pages, blocks, i, j);
    let at = block_start(filename, pages, blocks, i, j);
    lemma_stands_between("<w:tbl>"@, table_rows(list), "</w:tbl>"@);
    let inside = "<w:tbl>"@.len() as int;
    lemma_stands_deeper(doc, body, at, table_rows(list), inside);
    lemma_row_shows_cell(rows[r], c);
    lemma_row_shows_cell(rows[r2], c2);
    lemma_stands_in_order(parts, r);
    lemma_stands_deeper(doc, table_rows(list), at + inside, parts[r], start_of(parts, r));
    assert(has_text(doc, parts[r]));
    lemma_holds_deeper(doc, parts[r], cell);
    if r < r2 {
        lemma_concatenated_in_order(parts, r, r2);
        lemma_order_deeper(doc, table_rows(list), at + inside, parts[r], parts[r2]);
        lemma_order_across(doc, parts[r], parts[r2], cell, other);
    } else if r == r2 && c < c2 {
        let cells = cell_parts(rows[r]);
        lemma_cell_parts(rows[r]);
        lemma_concatenated_in_order(cells, c, c2);
        lemma_stands_between("<w:tr>"@, row_cells(rows[r]), "</w:tr>"@);
        lemma_order_deeper(parts[r], row_cells(rows[r]), "<w:tr>"@.len() as int, cell, other);
        lemma_order_deeper(doc, parts[r], at + inside + start_of(parts, r), cell, other);
    }
}

/// A row holds its cells.
proof fn lemma_row_shows_cell(cells: Seq<Seq<char>>, c: int)
    requires
        0 <= c < cells.len(),
    ensures
        has_text("<w:tr>"@ + row_cells(cells) + "</w:tr>"@, table_cell(cells[c])),
{
    let parts = cell_parts(cells);
    lemma_cell_parts(cells);
    lemma_stands_in_order(parts, c);
    assert(has_text(row_cells(cells), parts[c]));
    lemma_still_holds("<w:tr>"@, row_cells(cells), "</w:tr>"@, parts[c]);
}

/// A line of dashes and colons between bars is no row: it parts the head of a table
/// from its body.
pub proof fn law_rule_is_no_row(cells: Seq<Seq<char>>)
    requires
        cells.len() > 0,
        forall|i: int| 0 <= i < cells.len() ==> (#[trigger] cells[i]).len() > 0,
        forall|i: int, k: int|
            0 <= i < cells.len() && 0 <= k < cells[i].len() ==> (#[trigger] cells[i][k]) == '-'
                || cells[i][k] == ':',
    ensures
        row_of(row_line(cells)) is None,
{
    reveal_strlit("|");
    let bar = "|"@;
    assert(!is_space('-') && !is_space(':'));
    assert forall|i: int| 0 <= i < cells.len() implies plain(#[trigger] cells[i]) && lacks(
        cells[i],
        '|',
    ) && is_rule_cell(cells[i]) by {
        let cell = cells[i];
        assert(cell[0] == '-' || cell[0] == ':');
        let n = cell.len() - 1;
        assert(cells[i][n] == '-' || cells[i][n] == ':');
        assert forall|k: int| 0 <= k < cell.len() implies (#[trigger] cell[k]) != '|' && cell[k]
            != '\n' && cell[k] != '\r' && is_rule_char(cell[k]) by {
            assert(cells[i][k] == '-' || cells[i][k] == ':');
        }
    }
    let inner = joined(cells, bar);
    let line = row_line(cells);
    lemma_row_line(cells);
    lemma_bars_taken(inner);
    assert forall|i: int| 0 <= i < cells.len() implies lacks(#[trigger] cells[i], bar[0]) by {
        assert(lacks(cells[i], '|'));
    }
    lemma_pieces_joined(cells, bar);
    assert forall|i: int| 0 <= i < cells.len() implies trimmed(#[trigger] cells[i]) == cells[i] by {
        assert(plain(cells[i]));
        lemma_trimmed_plain(cells[i]);
    }
    assert(cells_of(line) =~= cells);
    assert(is_rule(cells));
}

proof fn lemma_no_row_without_bar(line: Seq<char>)
    requires
        lacks(line, '|'),
    ensures
        row_of(line) is None,
{
    reveal_strlit("|");
    let t = trimmed(line);
    lemma_trimmed_is_part(line);
    let at = choose|at: int| matches_at(line, t, at);
    if begins_with(t, "|"@) {
        assert(t.subrange(0, 1)[0] == t[0]);
        assert(line.subrange(at, at + t.len())[0] == line[at]);
    }
}

proof fn lemma_lines_lack(text: Seq<char>, c: char)
    requires
        lacks(text, c),
    ensures
        forall|i: int| 0 <= i < lines_of(text).len() ==> lacks(#[trigger] lines_of(text)[i], c),
    decreases text.len(),
{
    let list = lines_of(text);
    let feed = seq!['\n'];
    if text.len() > 0 {
        let n = find_text(text, feed);
        lemma_find(text, feed);
        if n >= 0 {
            let rest = text.skip(n + 1);
            assert forall|k: int| 0 <= k < rest.len() implies (#[trigger] rest[k]) != c by {
                assert(rest[k] == text[n + 1 + k]);
            }
            lemma_lines_lack(rest, c);
            assert(list == seq![without_return(text.take(n))] + lines_of(rest));
        }
        assert forall|i: int| 0 <= i < list.len() implies lacks(#[trigger] list[i], c) by {
            if n >= 0 && i > 0 {
                assert(list[i] == lines_of(text.skip(n + 1))[i - 1]);
            } else {
                assert forall|k: int| 0 <= k < list[i].len() implies (#[trigger] list[i][k])
                    != c by {
                    assert(list[i][k] == text[k]);
                }
            }
        }
    }
}

/// A table whose text has no bars is no table: it becomes a paragraph with that
/// text, so that nothing of it is lost.
pub proof fn law_table_without_rows_is_a_paragraph(
    filename: Seq<char>,
    pages: Seq<GeneralDocumentPageView>,
    blocks: Seq<GeneralDocumentBlockView>,
    i: int,
    j: int,
    text: Seq<char>,
)
    requires
        0 <= i < pages.len(),
        0 <= j < blocks.len(),
        blocks[j].page_number == pages[i].page_number,
        blocks[j].block_type == "table"@ || blocks[j].block_type == "table_cell"@,
        blocks[j].text == Some(text),
        trimmed(text) == text,
        text.len() > 0,
        lacks(text, '|'),
    ensures
        has_text(
            document_part(filename, pages, blocks),
            "<w:p><w:r><w:t>"@ + xml_escaped(text) + "</w:t></w:r></w:p>"@,
        ),
{
    let body = block_body(blocks[j]);
    lemma_lines_lack(text, '|');
    let list = lines_of(text);
    assert forall|k: int| 0 <= k < list.len() implies row_of(#[trigger] list[k]) is None by {
        assert(lacks(list[k], '|'));
        lemma_no_row_without_bar(list[k]);
    }
    assert(!has_rows(list));
    assert(body == paragraph(text, false)) by {
        reveal_strlit("heading");
        reveal_strlit("table");
        reveal_strlit("table_cell");
        assert("heading"@.len() == 7);
        assert("table"@.len() == 5);
        assert("table_cell"@.len() == 10);
    }
    lemma_block_stands(filename, pages, blocks, i, j);
    assert(matches_at(
        document_part(filename, pages, blocks),
        body,
        block_start(filename, pages, blocks, i, j),
    ));
}

} // verus!
