//! Uploaded forms and files: what a form holds, which files are taken, how many
//! pages they have, and under which name they are kept.
use vstd::prelude::*;

use crate::error::bad_request;
use crate::error::BAD_REQUEST;
use crate::error::ApiError;
use crate::fields::lemma_values_push;
use crate::fields::lookup_nonempty;
use crate::fields::nonempty;
use crate::fields::value_at;
use crate::fields::values_of;
use crate::number::all_digits;
use crate::number::digits;
use crate::number::law_digits_stand_for_number;
use crate::number::law_parse_reads_numeral;
use crate::number::parse_usize;
use crate::number::parsed;
use crate::number::show_u64;
use crate::number::show_usize;
use crate::schemas::DocType;
use crate::text::after_last;
use crate::text::begins_with;
use crate::text::cat2;
use crate::text::cat5;
use crate::text::chars_of;
use crate::text::count_matches;
use crate::text::ends_with;
use crate::text::find_from;
use crate::text::find_text;
use crate::text::finishes_with;
use crate::text::has_text;
use crate::text::is_ascii_digit;
use crate::text::is_control;
use crate::text::is_control_char;
use crate::text::is_digit;
use crate::text::is_space;
use crate::text::is_whitespace;
use crate::text::lemma_assoc;
use crate::text::lemma_begins_with_concat;
use crate::text::lemma_cancel;
use crate::text::lemma_end_stands;
use crate::text::lemma_find;
use crate::text::lemma_front_holds;
use crate::text::lemma_has_text;
use crate::text::lemma_replaced_concat;
use crate::text::matches_at;
use crate::text::occurrences;
use crate::text::replaced;
use crate::text::same;
use crate::text::skip_space;
use crate::text::substring;
use crate::text::trimmed_start;
use crate::unicode::lossy_text;
use crate::unicode::lowercase;
use crate::unicode::utf8_lossy;

verus! {

// ---------------------------------------------------------------------------
// Names of files
// ---------------------------------------------------------------------------

/// The characters that part the directories of a path.
pub open spec fn is_separator(c: char) -> bool {
    c == '/' || c == '\\'
}

/// What becomes of a character of a file name: white space becomes an
/// underscore, other control characters go.
pub open spec fn clean_char(c: char) -> Seq<char> {
    if is_space(c) {
        seq!['_']
    } else if is_control_char(c) {
        Seq::empty()
    } else {
        seq![c]
    }
}

/// The last component of a path.
pub open spec fn last_component(path: Seq<char>) -> Seq<char> {
    after_last(path, |c: char| is_separator(c))
}

/// A file name, cleaned.
pub open spec fn clean(name: Seq<char>) -> Seq<char> {
    replaced(name, |c: char| clean_char(c))
}

/// The name under which an uploaded file is kept.
pub open spec fn sanitized(name: Seq<char>) -> Seq<char> {
    let base = clean(last_component(name));
    if base.len() == 0 {
        "template.docx"@
    } else {
        base
    }
}

/// The name under which an uploaded file is kept: the last component of its
/// path without control characters.
pub fn sanitize_filename(name: &str) -> (r: String)
    ensures
        r@ == sanitized(name@),
{
    let cs = chars_of(name);
    let n: usize = cs.len();
    let ghost sep = |c: char| is_separator(c);
    let ghost clean = |c: char| clean_char(c);
    let mut start: usize = n;
    assert(cs@.subrange(n as int, n as int) =~= Seq::empty());
    assert(cs@.take(n as int) =~= cs@);
    assert(after_last(cs@, sep) =~= after_last(cs@.take(n as int), sep) + cs@.subrange(
        n as int,
        n as int,
    ));
    while start > 0 && cs[start - 1] != '/' && cs[start - 1] != '\\'
        invariant
            start <= n,
            n == cs@.len(),
            sep == (|c: char| is_separator(c)),
            after_last(cs@, sep) == after_last(cs@.take(start as int), sep) + cs@.subrange(
                start as int,
                n as int,
            ),
        decreases start,
    {
        proof {
            let here = cs@.take(start as int);
            assert(here.drop_last() =~= cs@.take(start - 1));
            assert(after_last(here, sep) + cs@.subrange(start as int, n as int) =~= after_last(
                cs@.take(start - 1),
                sep,
            ) + cs@.subrange(start - 1, n as int));
        }
        start -= 1;
    }
    proof {
        let here = cs@.take(start as int);
        assert(after_last(here, sep) =~= Seq::empty());
        assert(after_last(cs@, sep) =~= cs@.subrange(start as int, n as int));
    }
    let ghost base = cs@.subrange(start as int, n as int);
    let mut out = String::new();
    assert(out@ =~= replaced(base.take(0), clean));
    let mut i: usize = start;
    while i < n
        invariant
            start <= i <= n,
            n == cs@.len(),
            base == cs@.subrange(start as int, n as int),
            clean == (|c: char| clean_char(c)),
            out@ == replaced(base.take(i - start), clean),
        decreases n - i,
    {
        let c = cs[i];
        proof {
            let next = base.take(i - start + 1);
            assert(next.drop_last() =~= base.take(i - start));
            assert(next.last() == c);
        }
        if is_whitespace(c) {
            out.push('_');
        } else if !is_control(c) {
            out.push(c);
        }
        assert(out@ =~= replaced(base.take(i - start + 1), clean));
        i += 1;
    }
    assert(base.take(n - start) =~= base);
    if out.as_str().is_empty() {
        "template.docx".to_owned()
    } else {
        out
    }
}

/// Whether a character may stand in the name of a kept file.
pub open spec fn is_safe(c: char) -> bool {
    !is_separator(c) && !is_space(c) && !is_control_char(c)
}

/// The last component of a path holds no separator.
proof fn lemma_last_component(s: Seq<char>)
    ensures
        forall|i: int| 0 <= i < last_component(s).len() ==> !is_separator(
            #[trigger] last_component(s)[i],
        ),
    decreases s.len(),
{
    if s.len() > 0 {
        lemma_last_component(s.drop_last());
        let before = last_component(s.drop_last());
        if !is_separator(s.last()) {
            assert(last_component(s) == before.push(s.last()));
        }
    }
}

proof fn lemma_clean_is_safe(s: Seq<char>)
    requires
        forall|i: int| 0 <= i < s.len() ==> !is_separator(#[trigger] s[i]),
    ensures
        forall|i: int| 0 <= i < clean(s).len() ==> is_safe(#[trigger] clean(s)[i]),
    decreases s.len(),
{
    if s.len() > 0 {
        lemma_clean_is_safe(s.drop_last());
        let before = clean(s.drop_last());
        assert(!is_separator(s[s.len() - 1]));
        assert(clean(s) == before + clean_char(s.last()));
    }
}

proof fn lemma_safe_is_kept(s: Seq<char>)
    requires
        forall|i: int| 0 <= i < s.len() ==> is_safe(#[trigger] s[i]),
    ensures
        last_component(s) == s,
        clean(s) == s,
    decreases s.len(),
{
    if s.len() > 0 {
        lemma_safe_is_kept(s.drop_last());
        assert(is_safe(s.last()));
        assert(last_component(s) =~= s);
        assert(clean(s) =~= s);
    } else {
        assert(last_component(s) =~= s);
        assert(clean(s) =~= s);
    }
}

/// The name of a kept file is not empty, and holds no separator, no white space
/// and no control character: whatever was uploaded, it names a file in the
/// directory it is put in. To clean it again changes nothing.
pub proof fn law_sanitized_name_stays_in_its_directory(name: Seq<char>)
    ensures
        sanitized(name).len() > 0,
        forall|i: int| 0 <= i < sanitized(name).len() ==> is_safe(#[trigger] sanitized(name)[i]),
        sanitized(sanitized(name)) == sanitized(name),
{
    reveal_strlit("template.docx");
    lemma_last_component(name);
    lemma_clean_is_safe(last_component(name));
    let kept = sanitized(name);
    assert forall|i: int| 0 <= i < kept.len() implies is_safe(#[trigger] kept[i]) by {
        if clean(last_component(name)).len() == 0 {
            assert(kept == "template.docx"@);
        }
    }
    lemma_safe_is_kept(kept);
}

/// The path under which a template that was uploaded at `millis` is kept.
pub open spec fn template_upload_path(
    dir: Seq<char>,
    millis: nat,
    filename: Seq<char>,
) -> Seq<char> {
    dir + "/"@ + digits(millis) + "_"@ + sanitized(filename)
}

/// The path under which a template that was uploaded at `millis` is kept.
pub fn template_path(dir: &str, millis: u64, filename: &str) -> (r: String)
    ensures
        r@ == template_upload_path(dir@, millis as nat, filename@),
{
    cat5(dir, "/", show_u64(millis).as_str(), "_", sanitize_filename(filename).as_str())
}

// ---------------------------------------------------------------------------
// Counting the pages of a PDF
// ---------------------------------------------------------------------------

/// The most pages a general document may have.
pub const GENERAL_DOC_MAX_PAGES: usize = 20;

/// The digits that `s` begins with.
pub open spec fn digit_run(s: Seq<char>) -> Seq<char>
    decreases s.len(),
{
    if s.len() > 0 && is_digit(s[0]) {
        seq![s[0]] + digit_run(s.drop_first())
    } else {
        Seq::empty()
    }
}

/// The number that stands at the beginning of `s`, after white space; zero
/// where there is none.
pub open spec fn leading_number(s: Seq<char>) -> nat {
    match parsed(digit_run(trimmed_start(s)), usize::MAX as nat) {
        Some(n) => n,
        None => 0,
    }
}

/// The larger of two numbers.
pub open spec fn larger(a: nat, b: nat) -> nat {
    if a < b {
        b
    } else {
        a
    }
}

/// The largest page count that the page trees in `text` declare.
pub open spec fn largest_count(text: Seq<char>) -> nat
    decreases text.len(),
{
    let n = find_text(text, "/Count"@);
    if 0 <= n && n + "/Count"@.len() <= text.len() && "/Count"@.len() > 0 {
        let rest = text.skip(n + "/Count"@.len());
        larger(leading_number(rest), largest_count(rest))
    } else {
        0
    }
}

/// The number of pages of a file, from its name in lower case and its text.
/// Only a PDF can have more than one; it has as many as it has page objects or
/// as its page trees declare, whichever is more.
pub open spec fn page_count(lower: Seq<char>, text: Seq<char>) -> nat {
    if !finishes_with(lower, ".pdf"@) {
        1
    } else {
        let all = occurrences(text, "/Type /Page"@);
        let trees = occurrences(text, "/Type /Pages"@);
        let direct = if trees < all {
            (all - trees) as nat
        } else {
            0
        };
        larger(larger(direct, largest_count(text)), 1)
    }
}

/// The number at the beginning of `cs` from position `at` on.
fn number_at(cs: &Vec<char>, at: usize) -> (r: usize)
    requires
        at <= cs@.len(),
    ensures
        r == leading_number(cs@.skip(at as int)),
{
    let start = skip_space(cs, at);
    let ghost here = cs@.skip(start as int);
    let mut end: usize = start;
    assert(cs@.subrange(start as int, start as int) + digit_run(here) =~= digit_run(here));
    while end < cs.len() && is_ascii_digit(cs[end])
        invariant
            start <= end <= cs@.len(),
            here == cs@.skip(start as int),
            cs@.subrange(start as int, end as int) + digit_run(cs@.skip(end as int)) == digit_run(
                here,
            ),
        decreases cs@.len() - end,
    {
        proof {
            let now = cs@.skip(end as int);
            assert(now.drop_first() =~= cs@.skip(end as int + 1));
            assert(cs@.subrange(start as int, end as int + 1) + digit_run(
                cs@.skip(end as int + 1),
            ) =~= cs@.subrange(start as int, end as int) + digit_run(now));
        }
        end += 1;
    }
    assert(digit_run(cs@.skip(end as int)) =~= Seq::empty());
    assert(cs@.subrange(start as int, end as int) =~= digit_run(here));
    match parse_usize(substring(cs, start, end).as_str()) {
        Some(n) => n,
        None => 0,
    }
}

/// The largest page count that the page trees in `text` declare.
pub fn max_pdf_count_value(text: &str) -> (r: usize)
    ensures
        r == largest_count(text@),
{
    let cs = chars_of(text);
    let mark = chars_of("/Count");
    let n: usize = cs.len();
    let mut best: usize = 0;
    let mut at: usize = 0;
    proof {
        reveal_strlit("/Count");
        assert(cs@.skip(0) =~= cs@);
    }
    loop
        invariant
            at <= n,
            n == cs@.len(),
            mark@ == "/Count"@,
            mark@.len() == 6,
            cs@ == text@,
            larger(best as nat, largest_count(cs@.skip(at as int))) == largest_count(text@),
        decreases cs@.len() - at,
    {
        let ghost here = cs@.skip(at as int);
        match find_from(&cs, &mark, at) {
            Some(k) => {
                let next: usize = k + mark.len();
                assert(here.skip(k - at + 6) =~= cs@.skip(next as int));
                let found = number_at(&cs, next);
                if best < found {
                    best = found;
                }
                at = next;
            },
            None => {
                assert(largest_count(here) == 0);
                return best;
            },
        }
    }
}

/// The number of pages of a file, from its name in lower case and its text.
pub fn count_pages(lower: &str, text: &str) -> (r: usize)
    ensures
        r == page_count(lower@, text@),
{
    if !ends_with(lower, ".pdf") {
        return 1;
    }
    proof {
        reveal_strlit("/Type /Page");
        reveal_strlit("/Type /Pages");
    }
    let all = count_matches(text, "/Type /Page");
    let trees = count_matches(text, "/Type /Pages");
    let direct: usize = if trees < all {
        all - trees
    } else {
        0
    };
    let declared = max_pdf_count_value(text);
    let most: usize = if direct < declared {
        declared
    } else {
        direct
    };
    if most < 1 {
        1
    } else {
        most
    }
}

/// The number of pages of a file.
pub fn estimate_page_count(filename: &str, bytes: &[u8]) -> (r: Result<usize, ApiError>)
    ensures
        r is Ok,
        r->Ok_0 == page_count(lowercase(filename@), lossy_text(bytes@)),
{
    let lower = filename.to_lowercase();
    let text = utf8_lossy(bytes);
    Ok(count_pages(lower.as_str(), text.as_str()))
}

/// A file has at least one page, and a file that is not a PDF has exactly one.
pub proof fn law_page_count_is_positive(lower: Seq<char>, text: Seq<char>)
    ensures
        page_count(lower, text) >= 1,
        !finishes_with(lower, ".pdf"@) ==> page_count(lower, text) == 1,
{
}

// ---------------------------------------------------------------------------
// Which files are taken
// ---------------------------------------------------------------------------

/// Whether a file name, in lower case, is that of a file that is taken.
pub open spec fn is_supported(lower: Seq<char>) -> bool {
    finishes_with(lower, ".pdf"@) || finishes_with(lower, ".png"@) || finishes_with(lower, ".jpg"@)
        || finishes_with(lower, ".jpeg"@)
}

/// What is said of a file that is not taken.
pub open spec fn file_refusal(lower: Seq<char>, empty: bool) -> Option<Seq<char>> {
    if !is_supported(lower) {
        Some("รองรับเฉพาะ PDF, PNG, JPG, JPEG"@)
    } else if empty {
        Some("uploaded file is empty"@)
    } else {
        None
    }
}

/// Whether a file is taken, from its name in lower case.
pub fn check_general_file(lower: &str, empty: bool) -> (r: Result<(), ApiError>)
    ensures
        match r {
            Ok(_) => file_refusal(lower@, empty) is None,
            Err(e) => file_refusal(lower@, empty) is Some && e@ == bad_request(
                file_refusal(lower@, empty)->0,
            ),
        },
{
    let supported = ends_with(lower, ".pdf") || ends_with(lower, ".png") || ends_with(lower, ".jpg")
        || ends_with(lower, ".jpeg");
    if !supported {
        return Err(ApiError::new(BAD_REQUEST, "รองรับเฉพาะ PDF, PNG, JPG, JPEG"));
    }
    if empty {
        return Err(ApiError::new(BAD_REQUEST, "uploaded file is empty"));
    }
    Ok(())
}

/// Whether a file is taken.
pub fn validate_general_file(filename: &str, bytes: &[u8]) -> (r: Result<(), ApiError>)
    ensures
        match r {
            Ok(_) => file_refusal(lowercase(filename@), bytes@.len() == 0) is None,
            Err(e) => file_refusal(lowercase(filename@), bytes@.len() == 0) is Some && e@
                == bad_request(file_refusal(lowercase(filename@), bytes@.len() == 0)->0),
        },
{
    let lower = filename.to_lowercase();
    check_general_file(lower.as_str(), bytes.len() == 0)
}

/// What is said of a file with too many pages.
pub open spec fn too_many_pages(pages: nat) -> Seq<char> {
    "รองรับสูงสุด "@ + digits(GENERAL_DOC_MAX_PAGES as nat) + " หน้า (ไฟล์นี้ประมาณ "@ + digits(pages)
        + " หน้า)"@
}

/// Whether a file with so many pages is taken.
pub fn check_page_limit(pages: usize) -> (r: Result<(), ApiError>)
    ensures
        match r {
            Ok(_) => pages <= GENERAL_DOC_MAX_PAGES,
            Err(e) => pages > GENERAL_DOC_MAX_PAGES && e@ == bad_request(
                too_many_pages(pages as nat),
            ),
        },
{
    if pages > GENERAL_DOC_MAX_PAGES {
        return Err(
            ApiError {
                status: BAD_REQUEST,
                detail: cat5(
                    "รองรับสูงสุด ",
                    show_usize(GENERAL_DOC_MAX_PAGES).as_str(),
                    " หน้า (ไฟล์นี้ประมาณ ",
                    show_usize(pages).as_str(),
                    " หน้า)",
                ),
            },
        );
    }
    Ok(())
}

/// The number of pages of a file that is to be kept, or why it is not taken.
pub fn accept_general_upload(filename: &str, bytes: &[u8]) -> (r: Result<usize, ApiError>)
    ensures
        ({
            let lower = lowercase(filename@);
            let refusal = file_refusal(lower, bytes@.len() == 0);
            let pages = page_count(lower, lossy_text(bytes@));
            match r {
                Ok(n) => refusal is None && pages <= GENERAL_DOC_MAX_PAGES && n == pages,
                Err(e) => {
                    ||| refusal is Some && e@ == bad_request(refusal->0)
                    ||| refusal is None && pages > GENERAL_DOC_MAX_PAGES && e@ == bad_request(
                        too_many_pages(pages),
                    )
                },
            }
        }),
{
    match validate_general_file(filename, bytes) {
        Ok(_) => {},
        Err(e) => {
            return Err(e);
        },
    }
    let lower = filename.to_lowercase();
    let text = utf8_lossy(bytes);
    let pages = count_pages(lower.as_str(), text.as_str());
    match check_page_limit(pages) {
        Ok(_) => Ok(pages),
        Err(e) => Err(e),
    }
}

/// The media type of a page image, from its path in lower case.
pub open spec fn media_type(lower: Seq<char>) -> Seq<char> {
    if finishes_with(lower, ".png"@) {
        "image/png"@
    } else {
        "image/jpeg"@
    }
}

/// The media type of a page image, from its path in lower case.
pub fn content_type_of(lower: &str) -> (r: &'static str)
    ensures
        r@ == media_type(lower@),
{
    if ends_with(lower, ".png") {
        "image/png"
    } else {
        "image/jpeg"
    }
}

/// The media type of a page image.
pub fn image_content_type(path: &str) -> (r: &'static str)
    ensures
        r@ == media_type(lowercase(path@)),
{
    let lower = path.to_lowercase();
    content_type_of(lower.as_str())
}

// ---------------------------------------------------------------------------
// Forms
// ---------------------------------------------------------------------------

/// An uploaded form: text fields by name, and at most one file. A field that
/// is given twice has the last value.
#[derive(Debug)]
pub struct Upload {
    pub fields: Vec<(String, String)>,
    pub filename: Option<String>,
    pub bytes: Option<Vec<u8>>,
}

impl Upload {
    /// The value of a field that is given and not empty.
    pub open spec fn value(self, name: Seq<char>) -> Option<Seq<char>> {
        nonempty(value_at(self.fields@, name))
    }

    /// The form without fields.
    pub fn new() -> (r: Upload)
        ensures
            r.fields@.len() == 0,
            r.filename is None,
            r.bytes is None,
    {
        Upload { fields: Vec::new(), filename: None, bytes: None }
    }

    /// Whether the part of a form with this name is its file.
    pub fn is_file_part(name: &str) -> (r: bool)
        ensures
            r == (name@ == "file"@),
    {
        same(name, "file")
    }

    /// Takes the file of the form.
    pub fn put_file(&mut self, filename: Option<String>, bytes: Vec<u8>)
        ensures
            final(self).fields == old(self).fields,
            final(self).filename == filename,
            final(self).bytes == Some(bytes),
    {
        self.filename = filename;
        self.bytes = Some(bytes);
    }

    /// Takes a field of the form.
    pub fn put_field(&mut self, name: String, value: String)
        ensures
            values_of(final(self).fields@) == values_of(old(self).fields@).insert(name@, value@),
            final(self).filename == old(self).filename,
            final(self).bytes == old(self).bytes,
    {
        proof {
            lemma_values_push(self.fields@, (name, value));
        }
        self.fields.push((name, value));
    }

    /// The value of a field that is given and not empty.
    pub fn field(&self, name: &str) -> (r: Option<&str>)
        ensures
            crate::text::opt_str(r) == self.value(name@),
    {
        lookup_nonempty(&self.fields, name)
    }

    /// The value of a field that must be given.
    pub fn required(&self, name: &str) -> (r: Result<&str, ApiError>)
        ensures
            match r {
                Ok(value) => self.value(name@) == Some(value@),
                Err(e) => self.value(name@) is None && e@ == bad_request(
                    "missing form field: "@ + name@,
                ),
            },
    {
        match self.field(name) {
            Some(value) => Ok(value),
            None => Err(
                ApiError { status: BAD_REQUEST, detail: cat2("missing form field: ", name) },
            ),
        }
    }

    /// The kind of document that the form is about.
    pub fn doc_type(&self) -> (r: Result<DocType, ApiError>)
        ensures
            match (r, self.value("doc_type"@)) {
                (Ok(d), Some(raw)) => d.thai() == raw,
                (Ok(_), None) => false,
                (Err(e), Some(raw)) => (forall|d: DocType| d.thai() != raw) && e@ == bad_request(
                    "invalid doc_type: "@ + raw,
                ),
                (Err(e), None) => e@ == bad_request("missing form field: "@ + "doc_type"@),
            },
    {
        let raw = match self.required("doc_type") {
            Ok(raw) => raw,
            Err(e) => {
                return Err(e);
            },
        };
        match DocType::from_thai(raw) {
            Some(d) => Ok(d),
            None => Err(ApiError { status: BAD_REQUEST, detail: cat2("invalid doc_type: ", raw) }),
        }
    }

    /// The file of the form, with the name it was given or `upload`.
    pub fn file(&self) -> (r: Result<(&str, &Vec<u8>), ApiError>)
        ensures
            match r {
                Ok(file) => {
                    &&& self.bytes == Some(*file.1)
                    &&& file.0@ == (match self.filename {
                        Some(name) => name@,
                        None => "upload"@,
                    })
                },
                Err(e) => self.bytes is None && e@ == bad_request("missing file field"@),
            },
    {
        match &self.bytes {
            Some(bytes) => {
                let name: &str = match &self.filename {
                    Some(name) => name.as_str(),
                    None => "upload",
                };
                Ok((name, bytes))
            },
            None => Err(ApiError::new(BAD_REQUEST, "missing file field")),
        }
    }

    /// Whether a template is uploaded as the default of its kind.
    pub fn is_default(&self) -> (r: bool)
        ensures
            r == (match self.value("is_default"@) {
                Some(v) => v == "true"@ || v == "on"@ || v == "1"@,
                None => false,
            }),
    {
        match self.field("is_default") {
            Some(v) => same(v, "true") || same(v, "on") || same(v, "1"),
            None => false,
        }
    }

    /// Whether the text of a scan is to be brought into the shape of its kind.
    pub fn wants_structure(&self) -> (r: bool)
        ensures
            r == (self.value("structure"@) != Some("false"@)),
    {
        match self.field("structure") {
            Some(v) => !same(v, "false"),
            None => true,
        }
    }
}

// ---------------------------------------------------------------------------
// Laws
// ---------------------------------------------------------------------------

proof fn lemma_clean_keeps(name: Seq<char>)
    requires
        forall|i: int|
            0 <= i < name.len() ==> !is_space(#[trigger] name[i]) && !is_control_char(name[i]),
    ensures
        clean(name) == name,
    decreases name.len(),
{
    if name.len() > 0 {
        let before = name.drop_last();
        assert forall|i: int| 0 <= i < before.len() implies !is_space(#[trigger] before[i])
            && !is_control_char(before[i]) by {
            assert(before[i] == name[i]);
        }
        lemma_clean_keeps(before);
        assert(name.last() == name[name.len() - 1]);
        assert(before + seq![name.last()] =~= name);
    }
    assert(clean(name) =~= name);
}

proof fn lemma_component_behind(front: Seq<char>, name: Seq<char>)
    requires
        front.len() == 0 || is_separator(front.last()),
        forall|i: int| 0 <= i < name.len() ==> !is_separator(#[trigger] name[i]),
    ensures
        last_component(front + name) == name,
    decreases name.len(),
{
    let whole = front + name;
    if name.len() == 0 {
        assert(whole =~= front);
        assert(last_component(whole) =~= name);
    } else {
        let before = name.drop_last();
        assert(whole.drop_last() =~= front + before);
        assert(whole.last() == name[name.len() - 1]);
        assert forall|i: int| 0 <= i < before.len() implies !is_separator(#[trigger] before[i]) by {
            assert(before[i] == name[i]);
        }
        lemma_component_behind(front, before);
        assert(before.push(name.last()) =~= name);
    }
}

/// A file name that is clean is kept as it is, whatever directories stand before
/// it, in either way of writing them.
pub proof fn law_clean_name_is_kept(directories: Seq<char>, name: Seq<char>)
    requires
        name.len() > 0,
        forall|i: int|
            0 <= i < name.len() ==> !is_space(#[trigger] name[i]) && !is_control_char(name[i])
                && !is_separator(name[i]),
    ensures
        sanitized(name) == name,
        sanitized(directories + seq!['/'] + name) == name,
        sanitized(directories + seq!['\\'] + name) == name,
{
    lemma_clean_keeps(name);
    let none = Seq::<char>::empty();
    lemma_component_behind(none, name);
    assert(none + name =~= name);
    assert((directories + seq!['/']).last() == '/');
    assert((directories + seq!['\\']).last() == '\\');
    lemma_component_behind(directories + seq!['/'], name);
    lemma_component_behind(directories + seq!['\\'], name);
}

/// A count that is declared anywhere in a text is no larger than the largest.
proof fn lemma_count_is_seen(text: Seq<char>, at: int)
    requires
        matches_at(text, "/Count"@, at),
    ensures
        leading_number(text.skip(at + "/Count"@.len())) <= largest_count(text),
    decreases text.len(),
{
    reveal_strlit("/Count");
    let word = "/Count"@;
    lemma_find(text, word);
    let n = find_text(text, word);
    let rest = text.skip(n + word.len());
    if n < at {
        assert(text.subrange(at, at + 6)[0] == text[at]);
        if at < n + 6 {
            assert(text.subrange(n, n + 6)[at - n] == text[at]);
        }
        assert(rest.subrange(at - n - 6, at - n) =~= text.subrange(at, at + 6));
        lemma_count_is_seen(rest, at - n - 6);
        assert(rest.skip(at - n) =~= text.skip(at + 6));
    }
}

proof fn lemma_digit_run(d: Seq<char>, rest: Seq<char>)
    requires
        all_digits(d),
        rest.len() == 0 || !is_digit(rest[0]),
    ensures
        digit_run(d + rest) == d,
    decreases d.len(),
{
    let whole = d + rest;
    if d.len() == 0 {
        assert(whole =~= rest);
        assert(digit_run(whole) =~= d);
    } else {
        assert(whole[0] == d[0]);
        assert(whole.drop_first() =~= d.drop_first() + rest);
        assert forall|i: int| 0 <= i < d.drop_first().len() implies is_digit(
            #[trigger] d.drop_first()[i],
        ) by {
            assert(d.drop_first()[i] == d[i + 1]);
        }
        lemma_digit_run(d.drop_first(), rest);
        assert(seq![d[0]] + d.drop_first() =~= d);
    }
}

/// A PDF has at least as many pages as any of its page trees declares, wherever
/// the declaration stands; a file that is no PDF has one page, whatever is in it.
pub proof fn law_declared_pages_are_counted(
    lower: Seq<char>,
    before: Seq<char>,
    n: nat,
    rest: Seq<char>,
)
    requires
        n <= usize::MAX,
        rest.len() == 0 || !is_digit(rest[0]),
    ensures
        finishes_with(lower, ".pdf"@) ==> page_count(
            lower,
            before + "/Count "@ + (digits(n) + rest),
        ) >= n,
        !finishes_with(lower, ".pdf"@) ==> page_count(
            lower,
            before + "/Count "@ + (digits(n) + rest),
        ) == 1,
{
    reveal_strlit("/Count ");
    reveal_strlit("/Count");
    let word = "/Count"@;
    let d = digits(n);
    let text = before + "/Count "@ + (d + rest);
    let at = before.len() as int;
    assert(text.subrange(at, at + 6) =~= word);
    lemma_count_is_seen(text, at);
    let behind = text.skip(at + 6);
    assert(behind[0] == ' ');
    assert(is_space(' '));
    assert(behind.drop_first() =~= d + rest);
    law_digits_stand_for_number(n);
    assert(is_digit(d[0]));
    assert((d + rest)[0] == d[0]);
    assert(!is_space(d[0])) by {
        assert(d[0] as u32 >= 48 && d[0] as u32 <= 57);
    }
    assert(trimmed_start(d + rest) == d + rest);
    assert(trimmed_start(behind) == d + rest);
    lemma_digit_run(d, rest);
    law_parse_reads_numeral(n, usize::MAX as nat);
    assert(leading_number(behind) == n);
}

/// Files of the four kinds are taken unless they are empty, and no others are. Of
/// a file of another kind it is told which kinds there are, also where it is empty.
pub proof fn law_files_are_taken_by_their_kind(lower: Seq<char>)
    ensures
        file_refusal(lower, false) is Some ==> file_refusal(lower, false) == Some(
            "รองรับเฉพาะ PDF, PNG, JPG, JPEG"@,
        ) && file_refusal(lower, true) == file_refusal(lower, false),
        file_refusal(lower, false) is None ==> file_refusal(lower, true) == Some(
            "uploaded file is empty"@,
        ),
        file_refusal(lower, false) is None <==> (finishes_with(lower, ".pdf"@) || finishes_with(
            lower,
            ".png"@,
        ) || finishes_with(lower, ".jpg"@) || finishes_with(lower, ".jpeg"@)),
        file_refusal(lower, true) is Some,
{
}

/// A template is kept in its directory, under a name that ends with that of the
/// file as it was cleaned, and uploads at different times have different paths.
pub proof fn law_template_path_is_its_own(
    dir: Seq<char>,
    millis: nat,
    other: nat,
    filename: Seq<char>,
)
    ensures
        begins_with(template_upload_path(dir, millis, filename), dir + "/"@),
        finishes_with(template_upload_path(dir, millis, filename), sanitized(filename)),
        millis != other ==> template_upload_path(dir, millis, filename) != template_upload_path(
            dir,
            other,
            filename,
        ),
{
    let root = dir + "/"@;
    let name = sanitized(filename);
    let end = "_"@ + name;
    let a = digits(millis);
    let b = digits(other);
    lemma_end_stands(root + a + "_"@, name);
    lemma_assoc(root + a, "_"@, name);
    lemma_assoc(root + b, "_"@, name);
    lemma_assoc(root, a, end);
    lemma_begins_with_concat(root, a + end);
    law_digits_stand_for_number(millis);
    law_digits_stand_for_number(other);
    if template_upload_path(dir, millis, filename) == template_upload_path(dir, other, filename) {
        lemma_cancel(root, a, b, end);
    }
}

/// A PDF has as many pages as it has page objects that are no page trees, unless a
/// page tree declares more; and it always has one.
pub proof fn law_page_objects_are_counted(lower: Seq<char>, text: Seq<char>)
    requires
        finishes_with(lower, ".pdf"@),
    ensures
        page_count(lower, text) + occurrences(text, "/Type /Pages"@) >= occurrences(
            text,
            "/Type /Page"@,
        ),
        page_count(lower, text) >= 1,
        !has_text(text, "/Count"@) && page_count(lower, text) > 1 ==> page_count(lower, text)
            + occurrences(text, "/Type /Pages"@) == occurrences(text, "/Type /Page"@),
{
    lemma_has_text(text, "/Count"@);
}

/// White space in a file name becomes an underscore, control characters go, and
/// what stands around them stays.
pub proof fn law_name_is_cleaned_in_place(before: Seq<char>, c: char, behind: Seq<char>)
    ensures
        is_space(c) ==> clean(before + seq![c] + behind) == clean(before) + seq!['_'] + clean(
            behind,
        ),
        !is_space(c) && is_control_char(c) ==> clean(before + seq![c] + behind) == clean(before)
            + clean(behind),
        !is_space(c) && !is_control_char(c) ==> clean(before + seq![c] + behind) == clean(before)
            + seq![c] + clean(behind),
{
    let f = |c: char| clean_char(c);
    let one = seq![c];
    lemma_replaced_concat(before + one, behind, f);
    lemma_replaced_concat(before, one, f);
    assert(one.drop_last() =~= Seq::empty());
    assert(replaced(one.drop_last(), f) =~= Seq::empty());
    assert(replaced(one, f) =~= clean_char(c));
    assert(clean(before) + Seq::<char>::empty() =~= clean(before));
}

/// A page image is served as what its extension says that it is.
pub proof fn law_images_are_served_by_extension(lower: Seq<char>)
    ensures
        finishes_with(lower, ".png"@) ==> media_type(lower) == "image/png"@,
        finishes_with(lower, ".jpg"@) || finishes_with(lower, ".jpeg"@) ==> media_type(lower)
            == "image/jpeg"@,
{
    reveal_strlit(".png");
    reveal_strlit(".jpg");
    reveal_strlit(".jpeg");
    let n = lower.len() as int;
    if finishes_with(lower, ".png"@) {
        assert(lower.subrange(n - 4, n)[1] == lower[n - 3]);
        assert(lower.subrange(n - 4, n)[2] == lower[n - 2]);
    }
    if finishes_with(lower, ".jpg"@) {
        assert(lower.subrange(n - 4, n)[1] == lower[n - 3]);
    }
    if finishes_with(lower, ".jpeg"@) {
        assert(lower.subrange(n - 5, n)[3] == lower[n - 2]);
    }
}

/// A file with too many pages is told how many it may have and how many it has.
pub proof fn law_page_limit_is_told(pages: nat)
    ensures
        has_text(too_many_pages(pages), digits(20)),
        finishes_with(too_many_pages(pages), digits(pages) + " หน้า)"@),
{
    let a = "รองรับสูงสุด "@;
    let b = " หน้า (ไฟล์นี้ประมาณ "@;
    let c = " หน้า)"@;
    let n = digits(GENERAL_DOC_MAX_PAGES as nat);
    let m = digits(pages);
    lemma_end_stands(a, n);
    lemma_front_holds(a + n, b, n);
    lemma_front_holds(a + n + b, m, n);
    lemma_front_holds(a + n + b + m, c, n);
    lemma_assoc(a + n + b, m, c);
    lemma_end_stands(a + n + b, m + c);
}

} // verus!
