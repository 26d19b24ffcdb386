//! The text of documents.

use vstd::prelude::*;

use crate::archive::{archive_text, open_archive};
use crate::archive::{zip_fault, zip_text};
use crate::model::sse::chunk_text;
use crate::model::sse::lossy_text;
use crate::text::{
    chars_of, concat2, concat5, copy_str, decimal_of, ends_with, find_chars, is_blank, join, one_of,
    rfind_chars, str_eq, string_of_range, to_lower,
};
use crate::text::{
    decimal, find_back, find_from, has_suffix, is_blank_text, is_one_of, joined,
    lemma_find_from, lower, opt_text, strings,
};

verus! {

/// The most bytes that a document may have.
pub const MAX_DOC_BYTES: u64 = 20_971_520;

/// The text of a document, and whether it is Markdown.
#[derive(Debug)]
pub struct ParsedDoc {
    pub text: String,
    pub markdown: bool,
}

/// The value of the text of a document.
#[verifier::ext_equal]
pub struct ParsedView {
    pub text: Seq<char>,
    pub markdown: bool,
}

impl View for ParsedDoc {
    type V = ParsedView;

    open spec fn view(&self) -> ParsedView {
        ParsedView { text: self.text@, markdown: self.markdown }
    }
}

/// A document or an error, as values.
pub open spec fn parsed_result(r: Result<ParsedDoc, String>) -> Result<ParsedView, Seq<char>> {
    match r {
        Ok(doc) => Ok(doc@),
        Err(e) => Err(e@),
    }
}

// ---------------------------------------------------------------------
// File names
// ---------------------------------------------------------------------

/// The extension of a file name: what follows its last dot, unless that dot is
/// the first character.
pub open spec fn extension(name: Seq<char>) -> Option<Seq<char>> {
    match find_back(name, seq!['.'], name.len() as int) {
        Some(i) => if i == 0 || name == ".."@ {
            None
        } else {
            Some(name.skip(i + 1))
        },
        None => None,
    }
}

/// The extension of a file name in lower case.
pub open spec fn extension_of(name: Seq<char>) -> Option<Seq<char>> {
    match extension(name) {
        Some(e) => Some(lower(e)),
        None => None,
    }
}

/// The extension of a file name in lower case.
pub fn ext_of(name: &str) -> (r: Option<String>)
    ensures
        opt_text(r) == extension_of(name@),
{
    let v = chars_of(name);
    let n: usize = v.len();
    let dot = ['.'];
    assert(dot@ =~= seq!['.']);
    match rfind_chars(v.as_slice(), &dot) {
        Some(i) => {
            if i == 0 || str_eq(name, "..") {
                return None;
            }
            let ext = string_of_range(v.as_slice(), i + 1, n);
            assert(ext@ =~= name@.skip(i + 1));
            Some(to_lower(ext.as_str()))
        },
        None => None,
    }
}

/// The extensions of the documents that can be read.
pub open spec fn supported() -> Seq<&'static str> {
    seq![
        "txt",
        "text",
        "log",
        "csv",
        "tsv",
        "md",
        "markdown",
        "mdown",
        "mkd",
        "pdf",
        "docx",
        "xlsx",
        "html",
        "htm",
        "png",
        "jpg",
        "jpeg",
        "webp",
        "bmp",
        "tif",
        "tiff",
        "gif",
    ]
}

/// A file that can be read as a document.
pub open spec fn supported_name(name: Seq<char>) -> bool {
    match extension_of(name) {
        Some(e) => is_one_of(e, supported()),
        None => false,
    }
}

/// Whether a file of the name can be read as a document.
pub fn is_supported_ext(name: &str) -> (r: bool)
    ensures
        r == supported_name(name@),
{
    let known = [
        "txt",
        "text",
        "log",
        "csv",
        "tsv",
        "md",
        "markdown",
        "mdown",
        "mkd",
        "pdf",
        "docx",
        "xlsx",
        "html",
        "htm",
        "png",
        "jpg",
        "jpeg",
        "webp",
        "bmp",
        "tif",
        "tiff",
        "gif",
    ];
    assert(known@ =~= supported());
    match ext_of(name) {
        Some(e) => one_of(e.as_str(), &known),
        None => false,
    }
}

/// How a document is read.
#[derive(Debug, Clone, Copy, PartialEq, Eq, Structural)]
pub enum DocumentKind {
    Markdown,
    Plain,
    Html,
    Docx,
    Xlsx,
    Pdf,
}

/// The extensions of Markdown.
pub open spec fn markdown_exts() -> Seq<&'static str> {
    seq!["md", "markdown", "mdown", "mkd"]
}

/// The extensions of plain text.
pub open spec fn plain_exts() -> Seq<&'static str> {
    seq!["txt", "text", "log", "csv", "tsv"]
}

/// The extensions of images.
pub open spec fn image_exts() -> Seq<&'static str> {
    seq!["png", "jpg", "jpeg", "webp", "bmp", "tif", "tiff", "gif"]
}

/// How a document of the name is read; what is said where it cannot be.
pub open spec fn kind_of(name: Seq<char>) -> Result<DocumentKind, Seq<char>> {
    let ext = match extension_of(name) {
        Some(e) => e,
        None => Seq::empty(),
    };
    if is_one_of(ext, markdown_exts()) {
        Ok(DocumentKind::Markdown)
    } else if is_one_of(ext, plain_exts()) {
        Ok(DocumentKind::Plain)
    } else if ext == "html"@ || ext == "htm"@ {
        Ok(DocumentKind::Html)
    } else if ext == "docx"@ {
        Ok(DocumentKind::Docx)
    } else if ext == "xlsx"@ {
        Ok(DocumentKind::Xlsx)
    } else if ext == "pdf"@ {
        Ok(DocumentKind::Pdf)
    } else if is_one_of(ext, image_exts()) {
        Err("图片需经 OCR 处理（不应直接走 parse_file）"@)
    } else {
        Err("Unsupported file type: ."@ + ext)
    }
}

/// How a document of the name is read.
pub fn document_kind(name: &str) -> (r: Result<DocumentKind, String>)
    ensures
        match r {
            Ok(k) => kind_of(name@) == Ok::<DocumentKind, Seq<char>>(k),
            Err(e) => kind_of(name@) == Err::<DocumentKind, Seq<char>>(e@),
        },
{
    let ext = match ext_of(name) {
        Some(e) => e,
        None => String::new(),
    };
    assert(extension_of(name@) is None ==> ext@ =~= Seq::<char>::empty());
    let markdown = ["md", "markdown", "mdown", "mkd"];
    assert(markdown@ =~= markdown_exts());
    let plain = ["txt", "text", "log", "csv", "tsv"];
    assert(plain@ =~= plain_exts());
    let image = ["png", "jpg", "jpeg", "webp", "bmp", "tif", "tiff", "gif"];
    assert(image@ =~= image_exts());
    let e = ext.as_str();
    if one_of(e, &markdown) {
        Ok(DocumentKind::Markdown)
    } else if one_of(e, &plain) {
        Ok(DocumentKind::Plain)
    } else if str_eq(e, "html") || str_eq(e, "htm") {
        Ok(DocumentKind::Html)
    } else if str_eq(e, "docx") {
        Ok(DocumentKind::Docx)
    } else if str_eq(e, "xlsx") {
        Ok(DocumentKind::Xlsx)
    } else if str_eq(e, "pdf") {
        Ok(DocumentKind::Pdf)
    } else if one_of(e, &image) {
        Err(copy_str("图片需经 OCR 处理（不应直接走 parse_file）"))
    } else {
        Err(concat2("Unsupported file type: .", e))
    }
}

/// What is said of a file that is too large.
pub open spec fn too_large_text(size: u64) -> Seq<char> {
    "file too large: "@ + decimal(size as nat) + " bytes (max "@ + decimal(MAX_DOC_BYTES as nat)
        + ")"@
}

/// Refuses a file that is too large.
pub fn check_document_size(size: u64) -> (r: Result<(), String>)
    ensures
        match r {
            Ok(_) => size <= MAX_DOC_BYTES,
            Err(e) => size > MAX_DOC_BYTES && e@ == too_large_text(size),
        },
{
    if size > MAX_DOC_BYTES {
        let given = decimal_of(size);
        let limit = decimal_of(MAX_DOC_BYTES);
        Err(
            concat5(
                "file too large: ",
                given.as_str(),
                " bytes (max ",
                limit.as_str(),
                ")",
            ),
        )
    } else {
        Ok(())
    }
}

/// The document that the bytes of a text file are.
pub fn text_document(bytes: &[u8], markdown: bool) -> (r: ParsedDoc)
    ensures
        r@ == (ParsedView { text: lossy_text(bytes@), markdown }),
{
    ParsedDoc { text: chunk_text(bytes), markdown }
}

/// The document that the text of a PDF is; the text must not be blank.
pub open spec fn pdf_parsed(text: Result<Seq<char>, Seq<char>>) -> Result<ParsedView, Seq<char>> {
    match text {
        Err(e) => Err("PDF text extraction failed: "@ + e),
        Ok(t) => if is_blank_text(t) {
            Err("No extractable text (scanned/image PDF — OCR import is not yet supported)"@)
        } else {
            Ok(ParsedView { text: t, markdown: false })
        },
    }
}

/// The document that the text of a PDF is.
pub fn pdf_document(text: Result<String, String>) -> (r: Result<ParsedDoc, String>)
    ensures
        parsed_result(r) == pdf_parsed(
            match text {
                Ok(t) => Ok(t@),
                Err(e) => Err(e@),
            },
        ),
{
    match text {
        Err(e) => Err(concat2("PDF text extraction failed: ", e.as_str())),
        Ok(t) => if is_blank(t.as_str()) {
            Err(
                copy_str(
                    "No extractable text (scanned/image PDF — OCR import is not yet supported)",
                ),
            )
        } else {
            Ok(ParsedDoc { text: t, markdown: false })
        },
    }
}

// ---------------------------------------------------------------------
// WordprocessingML
// ---------------------------------------------------------------------

/// What character data stands for.
pub uninterp spec fn unescaped(text: Seq<char>) -> Seq<char>;

/// Calls `html_escape::decode_html_entities`, which puts the characters in place
/// of their entities. The result is a function of the text.
#[verifier::external_body]
fn unescape(text: &str) -> (r: String)
    ensures
        r@ == unescaped(text@),
{
    html_escape::decode_html_entities(text).into_owned()
}

/// A character that ends the name of a tag.
pub open spec fn ends_name(c: char) -> bool {
    c == ' ' || c == '/' || c == '>'
}

/// The name of a tag: what comes before its first space, slash or bracket.
pub open spec fn tag_name(tag: Seq<char>) -> Seq<char>
    decreases tag.len(),
{
    if tag.len() == 0 || ends_name(tag[0]) {
        Seq::empty()
    } else {
        seq![tag[0]] + tag_name(tag.skip(1))
    }
}

fn get_tag_name(v: &Vec<char>, start: usize, end: usize) -> (r: usize)
    requires
        start <= end <= v@.len(),
    ensures
        start <= r <= end,
        v@.subrange(start as int, r as int) == tag_name(v@.subrange(start as int, end as int)),
{
    let mut i: usize = start;
    let ghost tag = v@.subrange(start as int, end as int);
    assert(v@.subrange(start as int, start as int) + tag_name(tag) =~= tag_name(tag));
    while i < end && !(v[i] == ' ' || v[i] == '/' || v[i] == '>')
        invariant
            start <= i <= end <= v@.len(),
            tag == v@.subrange(start as int, end as int),
            tag_name(tag) == v@.subrange(start as int, i as int) + tag_name(
                v@.subrange(i as int, end as int),
            ),
        decreases end - i,
    {
        assert(v@.subrange(i as int, end as int).skip(1) =~= v@.subrange(i + 1, end as int));
        assert(v@.subrange(start as int, i as int) + (seq![v@[i as int]] + tag_name(
            v@.subrange(i + 1, end as int),
        )) =~= v@.subrange(start as int, i + 1) + tag_name(v@.subrange(i + 1, end as int)));
        i += 1;
    }
    assert(v@.subrange(start as int, i as int) + Seq::<char>::empty() =~= v@.subrange(
        start as int,
        i as int,
    ));
    i
}

/// The visible text of WordprocessingML from a position on: the text of runs, a
/// line break behind every paragraph, and tabs and breaks where they stand.
pub open spec fn docx_text_from(s: Seq<char>, from: int) -> Seq<char>
    decreases s.len() - from,
    via docx_text_decreases
{
    if from < 0 || from > s.len() {
        Seq::empty()
    } else {
        match find_from(s, "<"@, from) {
            None => Seq::empty(),
            Some(lt) => match find_from(s, ">"@, lt) {
                None => Seq::empty(),
                Some(gt) => {
                    let tag = s.subrange(lt + 1, gt);
                    let name = tag_name(tag);
                    let run_end = if name == "w:t"@ && !has_suffix(tag, "/"@) {
                        find_from(s, "</w:t>"@, gt + 1)
                    } else {
                        None
                    };
                    match run_end {
                        Some(e) => unescaped(s.subrange(gt + 1, e)) + docx_text_from(
                            s,
                            e + "</w:t>"@.len(),
                        ),
                        None => if name == "w:tab"@ {
                            seq!['\t'] + docx_text_from(s, gt + 1)
                        } else if name == "w:br"@ || name == "w:cr"@ || tag == "/w:p"@ {
                            seq!['\n'] + docx_text_from(s, gt + 1)
                        } else {
                            docx_text_from(s, gt + 1)
                        },
                    }
                },
            },
        }
    }
}

#[via_fn]
proof fn docx_text_decreases(s: Seq<char>, from: int) {
    reveal_strlit("<");
    reveal_strlit(">");
    reveal_strlit("</w:t>");
    if 0 <= from <= s.len() {
        lemma_find_from(s, "<"@, from);
        if let Some(lt) = find_from(s, "<"@, from) {
            lemma_find_from(s, ">"@, lt);
            if let Some(gt) = find_from(s, ">"@, lt) {
                lemma_find_from(s, "</w:t>"@, gt + 1);
            }
        }
    }
}

/// The visible text of WordprocessingML.
pub fn docx_xml_to_text(xml: &str) -> (r: String)
    ensures
        r@ == docx_text_from(xml@, 0),
{
    let v = chars_of(xml);
    let n: usize = v.len();
    let open = chars_of("<");
    let close = chars_of(">");
    let run_close = chars_of("</w:t>");
    let slash = chars_of("/");
    proof {
        reveal_strlit("<");
        reveal_strlit(">");
        reveal_strlit("</w:t>");
        reveal_strlit("/");
    }
    let mut out = String::new();
    let mut i: usize = 0;
    assert(out@ + docx_text_from(xml@, 0) =~= docx_text_from(xml@, 0));
    loop
        invariant
            i <= n == v@.len(),
            v@ == xml@,
            open@ == "<"@,
            close@ == ">"@,
            run_close@ == "</w:t>"@,
            slash@ == "/"@,
            open@.len() == 1,
            close@.len() == 1,
            run_close@.len() == 6,
            slash@.len() == 1,
            open@[0] == '<',
            close@[0] == '>',
            docx_text_from(xml@, 0) == out@ + docx_text_from(xml@, i as int),
        decreases v@.len() - i,
    {
        let lt: usize = match find_chars(v.as_slice(), open.as_slice(), i) {
            Some(k) => k,
            None => {
                assert(out@ + Seq::<char>::empty() =~= out@);
                return out;
            },
        };
        let gt: usize = match find_chars(v.as_slice(), close.as_slice(), lt) {
            Some(k) => k,
            None => {
                assert(out@ + Seq::<char>::empty() =~= out@);
                return out;
            },
        };
        proof {
            lemma_find_from(v@, "<"@, i as int);
            lemma_find_from(v@, ">"@, lt as int);
            assert(v@.subrange(lt as int, lt + 1)[0] == '<');
            assert(v@.subrange(gt as int, gt + 1)[0] == '>');
        }
        let tag = string_of_range(v.as_slice(), lt + 1, gt);
        let name_end: usize = get_tag_name(&v, lt + 1, gt);
        let name = string_of_range(v.as_slice(), lt + 1, name_end);
        let ghost before = out@;
        if str_eq(name.as_str(), "w:t") && !ends_with(tag.as_str(), "/") {
            if let Some(end) = find_chars(v.as_slice(), run_close.as_slice(), gt + 1) {
                let raw = string_of_range(v.as_slice(), gt + 1, end);
                let text = unescape(raw.as_str());
                out.append(text.as_str());
                i = end + 6;
                assert(before + (text@ + docx_text_from(xml@, i as int)) =~= out@ + docx_text_from(
                    xml@,
                    i as int,
                ));
                continue;
            }
        } else if str_eq(name.as_str(), "w:tab") {
            out.push('\t');
        } else if str_eq(name.as_str(), "w:br") || str_eq(name.as_str(), "w:cr") || str_eq(
            tag.as_str(),
            "/w:p",
        ) {
            out.push('\n');
        }
        proof {
            lemma_tag_names();
        }
        i = gt + 1;
        assert(before + (seq!['\t'] + docx_text_from(xml@, i as int)) =~= before.push('\t')
            + docx_text_from(xml@, i as int));
        assert(before + (seq!['\n'] + docx_text_from(xml@, i as int)) =~= before.push('\n')
            + docx_text_from(xml@, i as int));
    }
}

proof fn lemma_tag_names()
    ensures
        "w:t"@ != "w:tab"@,
        "w:t"@ != "w:br"@,
        "w:t"@ != "w:cr"@,
        tag_name("/w:p"@) != "w:t"@,
{
    reveal_strlit("w:t");
    reveal_strlit("w:tab");
    reveal_strlit("w:br");
    reveal_strlit("w:cr");
    reveal_strlit("/w:p");
    assert("w:t"@.len() == 3 && "w:tab"@.len() == 5 && "w:br"@.len() == 4 && "w:cr"@.len() == 4);
    assert("/w:p"@[0] == '/');
    assert(tag_name("/w:p"@).len() == 0);
}

/// The document in the bytes of a Word file.
pub open spec fn docx_parsed(bytes: Seq<u8>) -> Result<ParsedView, Seq<char>> {
    match zip_fault(bytes) {
        Some(e) => Err("open docx zip: "@ + e),
        None => match zip_text(bytes, "word/document.xml"@) {
            Err(e) => Err("docx missing document.xml: "@ + e),
            Ok(Err(e)) => Err("read document.xml: "@ + e),
            Ok(Ok(xml)) => word_parsed(xml),
        },
    }
}

/// The document in the body of a Word file; its text must not be blank.
pub open spec fn word_parsed(xml: Seq<char>) -> Result<ParsedView, Seq<char>> {
    if is_blank_text(docx_text_from(xml, 0)) {
        Err("docx has no extractable text"@)
    } else {
        Ok(ParsedView { text: docx_text_from(xml, 0), markdown: false })
    }
}

/// The document in the body of a Word file.
pub fn word_document(xml: &str) -> (r: Result<ParsedDoc, String>)
    ensures
        parsed_result(r) == word_parsed(xml@),
{
    let text = docx_xml_to_text(xml);
    if is_blank(text.as_str()) {
        Err(copy_str("docx has no extractable text"))
    } else {
        Ok(ParsedDoc { text, markdown: false })
    }
}

/// The document in the bytes of a Word file.
pub fn parse_docx(bytes: Vec<u8>) -> (r: Result<ParsedDoc, String>)
    ensures
        parsed_result(r) == docx_parsed(bytes@),
{
    let mut archive = match open_archive(bytes) {
        Ok(a) => a,
        Err(e) => {
            return Err(concat2("open docx zip: ", e.as_str()));
        },
    };
    match archive_text(&mut archive, "word/document.xml") {
        Err(e) => Err(concat2("docx missing document.xml: ", e.as_str())),
        Ok(Err(e)) => Err(concat2("read document.xml: ", e.as_str())),
        Ok(Ok(xml)) => word_document(xml.as_str()),
    }
}

// ---------------------------------------------------------------------
// Sheets
// ---------------------------------------------------------------------

/// A sheet of a workbook: its name and the texts of its cells.
#[derive(Debug)]
pub struct Sheet {
    pub name: String,
    pub rows: Vec<Vec<String>>,
}

/// The rows that are not blank, each as a line of cells with tabs between.
pub open spec fn row_lines(rows: Seq<Vec<String>>) -> Seq<char>
    decreases rows.len(),
{
    if rows.len() == 0 {
        Seq::empty()
    } else {
        let line = joined(strings(rows.last()@), "\t"@);
        row_lines(rows.drop_last()) + if is_blank_text(line) {
            Seq::empty()
        } else {
            line + "\n"@
        }
    }
}

/// The sheets that have rows, each as a section.
pub open spec fn sheet_sections(sheets: Seq<Sheet>) -> Seq<char>
    decreases sheets.len(),
{
    if sheets.len() == 0 {
        Seq::empty()
    } else {
        let sheet = sheets.last();
        sheet_sections(sheets.drop_last()) + if sheet.rows@.len() == 0 {
            Seq::empty()
        } else {
            "# "@ + sheet.name@ + "\n"@ + row_lines(sheet.rows@) + "\n"@
        }
    }
}

fn write_rows(rows: &Vec<Vec<String>>) -> (r: String)
    ensures
        r@ == row_lines(rows@),
{
    let mut out = String::new();
    let mut i: usize = 0;
    assert(rows@.take(0) =~= Seq::<Vec<String>>::empty());
    while i < rows.len()
        invariant
            i <= rows@.len(),
            out@ == row_lines(rows@.take(i as int)),
        decreases rows@.len() - i,
    {
        assert(rows@.take(i + 1).drop_last() =~= rows@.take(i as int));
        let line = join(&rows[i], "\t");
        let ghost before = out@;
        if !is_blank(line.as_str()) {
            out.append(line.as_str());
            out.append("\n");
            assert(out@ =~= before + (line@ + "\n"@));
        } else {
            assert(before + Seq::<char>::empty() =~= before);
        }
        i += 1;
    }
    assert(rows@.take(rows@.len() as int) =~= rows@);
    out
}

/// The document that the sheets of a workbook are.
pub open spec fn sheets_parsed(sheets: Seq<Sheet>) -> Result<ParsedView, Seq<char>> {
    if is_blank_text(sheet_sections(sheets)) {
        Err("xlsx has no extractable cells"@)
    } else {
        Ok(ParsedView { text: sheet_sections(sheets), markdown: true })
    }
}

/// The document that the sheets of a workbook are.
pub fn xlsx_document(sheets: &Vec<Sheet>) -> (r: Result<ParsedDoc, String>)
    ensures
        parsed_result(r) == sheets_parsed(sheets@),
{
    let mut out = String::new();
    let mut i: usize = 0;
    assert(sheets@.take(0) =~= Seq::<Sheet>::empty());
    while i < sheets.len()
        invariant
            i <= sheets@.len(),
            out@ == sheet_sections(sheets@.take(i as int)),
        decreases sheets@.len() - i,
    {
        assert(sheets@.take(i + 1).drop_last() =~= sheets@.take(i as int));
        let ghost before = out@;
        if sheets[i].rows.len() > 0 {
            let rows = write_rows(&sheets[i].rows);
            let section = concat5(
                "# ",
                sheets[i].name.as_str(),
                "\n",
                rows.as_str(),
                "\n",
            );
            out.append(section.as_str());
        } else {
            assert(before + Seq::<char>::empty() =~= before);
        }
        i += 1;
    }
    assert(sheets@.take(sheets@.len() as int) =~= sheets@);
    if is_blank(out.as_str()) {
        Err(copy_str("xlsx has no extractable cells"))
    } else {
        Ok(ParsedDoc { text: out, markdown: true })
    }
}

/// The lines of rows are those of the first rows, and then those of the rest.
pub proof fn law_rows_stay_in_order(a: Seq<Vec<String>>, b: Seq<Vec<String>>)
    ensures
        row_lines(a + b) == row_lines(a) + row_lines(b),
    decreases b.len(),
{
    if b.len() == 0 {
        assert(a + b =~= a);
        assert(row_lines(a) + row_lines(b) =~= row_lines(a));
    } else {
        law_rows_stay_in_order(a, b.drop_last());
        assert((a + b).drop_last() =~= a + b.drop_last());
        assert((a + b).last() == b.last());
        assert(row_lines(a + b) =~= row_lines(a) + row_lines(b));
    }
}

/// The sections of sheets are those of the first sheets, and then those of the rest.
pub proof fn law_sheets_stay_in_order(a: Seq<Sheet>, b: Seq<Sheet>)
    ensures
        sheet_sections(a + b) == sheet_sections(a) + sheet_sections(b),
    decreases b.len(),
{
    if b.len() == 0 {
        assert(a + b =~= a);
        assert(sheet_sections(a) + sheet_sections(b) =~= sheet_sections(a));
    } else {
        law_sheets_stay_in_order(a, b.drop_last());
        assert((a + b).drop_last() =~= a + b.drop_last());
        assert((a + b).last() == b.last());
        assert(sheet_sections(a + b) =~= sheet_sections(a) + sheet_sections(b));
    }
}

/// A row is one line, its cells with tabs between; a blank row is none.
pub proof fn law_a_row_is_one_line(row: Vec<String>)
    ensures
        row_lines(seq![row]) == if is_blank_text(joined(strings(row@), seq!['\t'])) {
            Seq::<char>::empty()
        } else {
            joined(strings(row@), seq!['\t']) + seq!['\n']
        },
{
    reveal_with_fuel(row_lines, 2);
    reveal_strlit("\t");
    reveal_strlit("\n");
    assert("\t"@ =~= seq!['\t']);
    assert("\n"@ =~= seq!['\n']);
    assert(seq![row].drop_last() =~= Seq::<Vec<String>>::empty());
    assert(seq![row].last() == row);
    assert(row_lines(seq![row]) =~= if is_blank_text(joined(strings(row@), seq!['\t'])) {
        Seq::<char>::empty()
    } else {
        joined(strings(row@), seq!['\t']) + seq!['\n']
    });
}

/// A sheet is a section under its name, with its rows; an empty sheet is none.
pub proof fn law_a_sheet_is_one_section(sheet: Sheet)
    ensures
        sheet_sections(seq![sheet]) == if sheet.rows@.len() == 0 {
            Seq::<char>::empty()
        } else {
            seq!['#', ' '] + sheet.name@ + seq!['\n'] + row_lines(sheet.rows@) + seq!['\n']
        },
{
    reveal_with_fuel(sheet_sections, 2);
    reveal_strlit("# ");
    reveal_strlit("\n");
    assert("# "@ =~= seq!['#', ' ']);
    assert("\n"@ =~= seq!['\n']);
    assert(seq![sheet].drop_last() =~= Seq::<Sheet>::empty());
    assert(seq![sheet].last() == sheet);
    assert(sheet_sections(seq![sheet]) =~= if sheet.rows@.len() == 0 {
        Seq::<char>::empty()
    } else {
        seq!['#', ' '] + sheet.name@ + seq!['\n'] + row_lines(sheet.rows@) + seq!['\n']
    });
}

/// A workbook is its sections, in markdown; one in which nothing is seen is refused. So is
/// a document of words, and one of pages.
pub proof fn law_documents_are_their_text(
    sheets: Seq<Sheet>,
    xml: Seq<char>,
    text: Seq<char>,
    error: Seq<char>,
)
    ensures
        is_blank_text(sheet_sections(sheets)) <==> sheets_parsed(sheets) is Err,
        sheets_parsed(sheets) is Ok ==> sheets_parsed(sheets)->Ok_0.text == sheet_sections(sheets)
            && sheets_parsed(sheets)->Ok_0.markdown,
        is_blank_text(docx_text_from(xml, 0)) <==> word_parsed(xml) is Err,
        word_parsed(xml) is Ok ==> word_parsed(xml)->Ok_0.text == docx_text_from(xml, 0)
            && !word_parsed(xml)->Ok_0.markdown,
        pdf_parsed(Ok(text)) is Err <==> is_blank_text(text),
        pdf_parsed(Ok(text)) is Ok ==> pdf_parsed(Ok(text))->Ok_0.text == text && !pdf_parsed(
            Ok(text),
        )->Ok_0.markdown,
        pdf_parsed(Err(error)) is Err,
{
}

/// The extension of a name is what stands after its last dot, in lower case; a name without
/// a dot, or with one in front alone, has none.
pub proof fn law_the_extension_follows_the_last_dot(stem: Seq<char>, ext: Seq<char>)
    requires
        stem.len() > 0,
        !ext.contains('.'),
        stem.push('.') + ext != ".."@,
    ensures
        extension_of(stem.push('.') + ext) == Some(lower(ext)),
        extension_of(ext) is None,
        extension_of(seq!['.'] + ext) is None,
{
    let name = stem.push('.') + ext;
    let dot = seq!['.'];
    crate::text::lemma_find_back(name, dot, name.len() as int);
    let n = stem.len() as int;
    assert(name.subrange(n, n + 1) =~= dot);
    assert(crate::text::occurs_at(name, dot, n));
    let k = find_back(name, dot, name.len() as int)->0;
    assert(k >= n);
    if k > n {
        assert(name.subrange(k, k + 1)[0] == '.');
        assert(name[k] == ext[k - n - 1]);
        assert(ext.contains(ext[k - n - 1]));
    }
    assert(name.skip(n + 1) =~= ext);
    crate::text::lemma_find_back(ext, dot, ext.len() as int);
    if find_back(ext, dot, ext.len() as int) is Some {
        let j = find_back(ext, dot, ext.len() as int)->0;
        assert(ext.subrange(j, j + 1)[0] == '.');
        assert(ext.contains(ext[j]));
    }
    let hidden = seq!['.'] + ext;
    crate::text::lemma_find_back(hidden, dot, hidden.len() as int);
    assert(hidden.subrange(0, 1) =~= dot);
    assert(crate::text::occurs_at(hidden, dot, 0));
    let m = find_back(hidden, dot, hidden.len() as int)->0;
    if m > 0 {
        assert(hidden.subrange(m, m + 1)[0] == '.');
        assert(hidden[m] == ext[m - 1]);
        assert(ext.contains(ext[m - 1]));
    }
}

/// A character stands at no place from `from` up to `to`.
pub open spec fn free_of(s: Seq<char>, c: char, from: int, to: int) -> bool {
    forall|i: int| from <= i < to ==> (#[trigger] s[i]) != c
}

proof fn lemma_char_found(s: Seq<char>, p: Seq<char>, c: char, from: int, i: int)
    requires
        0 <= from <= i < s.len(),
        p == seq![c],
        s[i] == c,
        free_of(s, c, from, i),
    ensures
        find_from(s, p, from) == Some(i),
{
    lemma_find_from(s, p, from);
    assert(s.subrange(i, i + 1) =~= p);
    assert(crate::text::occurs_at(s, p, i));
    let k = find_from(s, p, from)->0;
    if k < i {
        assert(s.subrange(k, k + 1)[0] == c);
        assert(s[k] == c);
    }
}

/// The text of a document of words is what stands in its runs: at a run that begins at
/// `at`, with `text` in it, the reading gives that text and goes on behind the run.
pub proof fn law_runs_give_their_text(s: Seq<char>, from: int, at: int, text: Seq<char>)
    requires
        0 <= from <= at,
        free_of(s, '<', from, at),
        crate::text::occurs_at(s, "<w:t>"@ + text + "</w:t>"@, at),
        !text.contains('<'),
    ensures
        docx_text_from(s, from) == unescaped(text) + docx_text_from(s, at + 5 + text.len() + 6),
{
    reveal_strlit("<w:t>");
    reveal_strlit("</w:t>");
    reveal_strlit("<");
    reveal_strlit(">");
    reveal_strlit("/");
    reveal_strlit("w:t");
    let run = "<w:t>"@ + text + "</w:t>"@;
    let whole = s.subrange(at, at + run.len());
    assert(whole == run);
    assert forall|k: int| 0 <= k < run.len() implies s[at + k] == run[k] by {
        assert(whole[k] == s[at + k]);
    }
    assert(run[0] == '<' && run[1] == 'w' && run[2] == ':' && run[3] == 't' && run[4] == '>');
    assert(s[at + 0] == run[0]);
    assert(s[at + 1] == run[1]);
    assert(s[at + 2] == run[2]);
    assert(s[at + 3] == run[3]);
    assert(s[at + 4] == run[4]);
    assert("<"@ =~= seq!['<']);
    assert(">"@ =~= seq!['>']);
    lemma_char_found(s, "<"@, '<', from, at);
    lemma_char_found(s, ">"@, '>', at, at + 4);
    let tag = s.subrange(at + 1, at + 4);
    assert(tag =~= seq!['w', ':', 't']);
    assert("w:t"@ =~= tag);
    reveal_with_fuel(tag_name, 5);
    assert(tag.skip(1) =~= seq![':', 't']);
    assert(tag.skip(1).skip(1) =~= seq!['t']);
    assert(tag.skip(1).skip(1).skip(1) =~= Seq::<char>::empty());
    assert(tag_name(tag) =~= tag);
    assert(!has_suffix(tag, "/"@)) by {
        if has_suffix(tag, "/"@) {
            assert(tag.subrange(2, 3)[0] == '/');
        }
    }
    let end = "</w:t>"@;
    let e = at + 5 + text.len();
    assert(s.subrange(e, e + 6) =~= end) by {
        assert forall|k: int| 0 <= k < 6 implies s[e + k] == end[k] by {
            assert(s[at + (5 + text.len() + k)] == run[5 + text.len() + k]);
        }
    }
    lemma_find_from(s, end, at + 5);
    assert(crate::text::occurs_at(s, end, e));
    let f = find_from(s, end, at + 5)->0;
    if f < e {
        assert(s.subrange(f, f + 6)[0] == '<');
        assert(s[at + (f - at)] == run[f - at]);
        assert(run[f - at] == text[f - at - 5]);
        assert(text.contains(text[f - at - 5]));
    }
    assert(f == e);
    assert(s.subrange(at + 5, e) =~= text) by {
        assert forall|k: int| 0 <= k < text.len() implies s[at + 5 + k] == text[k] by {
            assert(s[at + (5 + k)] == run[5 + k]);
        }
    }
}

/// The end of a paragraph gives a line break, and the reading goes on behind it.
pub proof fn law_paragraphs_end_lines(s: Seq<char>, from: int, at: int)
    requires
        0 <= from <= at,
        free_of(s, '<', from, at),
        crate::text::occurs_at(s, "</w:p>"@, at),
    ensures
        docx_text_from(s, from) == seq!['\n'] + docx_text_from(s, at + 6),
{
    reveal_strlit("</w:p>");
    reveal_strlit("<");
    reveal_strlit(">");
    reveal_strlit("/w:p");
    reveal_strlit("w:t");
    reveal_strlit("w:tab");
    reveal_strlit("w:br");
    reveal_strlit("w:cr");
    let run = "</w:p>"@;
    let whole = s.subrange(at, at + 6);
    assert(whole == run);
    assert forall|k: int| 0 <= k < 6 implies s[at + k] == run[k] by {
        assert(whole[k] == s[at + k]);
    }
    assert(s[at + 0] == run[0]);
    assert(s[at + 1] == run[1]);
    assert(s[at + 2] == run[2]);
    assert(s[at + 3] == run[3]);
    assert(s[at + 4] == run[4]);
    assert(s[at + 5] == run[5]);
    assert("<"@ =~= seq!['<']);
    assert(">"@ =~= seq!['>']);
    lemma_char_found(s, "<"@, '<', from, at);
    lemma_char_found(s, ">"@, '>', at, at + 5);
    let tag = s.subrange(at + 1, at + 5);
    assert(tag =~= "/w:p"@);
    assert(tag[0] == '/');
    assert(tag_name(tag) =~= Seq::<char>::empty());
    assert("w:t"@.len() == 3);
    assert("w:tab"@.len() == 5);
    assert("w:br"@.len() == 4);
    assert("w:cr"@.len() == 4);
}

/// Files are read by their extension: text as it is, markdown as markdown, and the others
/// each in their way; a name whose extension is none of the known ones is refused.
pub proof fn law_files_are_read_by_extension(name: Seq<char>, ext: Seq<char>)
    requires
        extension_of(name) == Some(ext),
    ensures
        ext == "md"@ || ext == "markdown"@ || ext == "mdown"@ || ext == "mkd"@ ==> kind_of(name)
            == Ok::<DocumentKind, Seq<char>>(DocumentKind::Markdown),
        ext == "txt"@ || ext == "text"@ || ext == "log"@ || ext == "csv"@ || ext == "tsv"@
            ==> kind_of(name) == Ok::<DocumentKind, Seq<char>>(DocumentKind::Plain),
        ext == "html"@ || ext == "htm"@ ==> kind_of(name) == Ok::<DocumentKind, Seq<char>>(
            DocumentKind::Html,
        ),
        ext == "docx"@ ==> kind_of(name) == Ok::<DocumentKind, Seq<char>>(DocumentKind::Docx),
        ext == "xlsx"@ ==> kind_of(name) == Ok::<DocumentKind, Seq<char>>(DocumentKind::Xlsx),
        ext == "pdf"@ ==> kind_of(name) == Ok::<DocumentKind, Seq<char>>(DocumentKind::Pdf),
        is_one_of(ext, image_exts()) ==> kind_of(name) is Err,
        kind_of(name) is Ok ==> supported_name(name),
        is_one_of(ext, image_exts()) ==> supported_name(name),
        supported_name(name) ==> kind_of(name) is Ok || is_one_of(ext, image_exts()),
{
    lemma_exts();
    let m = markdown_exts();
    let p = plain_exts();
    let g = image_exts();
    let s = supported();
    assert(m[0]@ == "md"@ && m[1]@ == "markdown"@ && m[2]@ == "mdown"@ && m[3]@ == "mkd"@);
    assert(p[0]@ == "txt"@ && p[1]@ == "text"@ && p[2]@ == "log"@ && p[3]@ == "csv"@ && p[4]@
        == "tsv"@);
    assert(g[0]@ == "png"@ && g[1]@ == "jpg"@ && g[2]@ == "jpeg"@ && g[3]@ == "webp"@ && g[4]@
        == "bmp"@ && g[5]@ == "tif"@ && g[6]@ == "tiff"@ && g[7]@ == "gif"@);
    assert(s[0]@ == "txt"@ && s[1]@ == "text"@ && s[2]@ == "log"@ && s[3]@ == "csv"@ && s[4]@
        == "tsv"@ && s[5]@ == "md"@ && s[6]@ == "markdown"@ && s[7]@ == "mdown"@ && s[8]@ == "mkd"@
        && s[9]@ == "pdf"@ && s[10]@ == "docx"@ && s[11]@ == "xlsx"@ && s[12]@ == "html"@ && s[13]@
        == "htm"@ && s[14]@ == "png"@ && s[15]@ == "jpg"@ && s[16]@ == "jpeg"@ && s[17]@ == "webp"@
        && s[18]@ == "bmp"@ && s[19]@ == "tif"@ && s[20]@ == "tiff"@ && s[21]@ == "gif"@);
    if is_one_of(ext, s) {
        let i = choose|i: int| 0 <= i < s.len() && ext == #[trigger] s[i]@;
        assert(0 <= i < 22);
    }
    if is_one_of(ext, m) {
        let i = choose|i: int| 0 <= i < m.len() && ext == #[trigger] m[i]@;
        assert(s[i + 5]@ == ext);
    }
    if is_one_of(ext, p) {
        let i = choose|i: int| 0 <= i < p.len() && ext == #[trigger] p[i]@;
        assert(s[i]@ == ext);
    }
    if is_one_of(ext, g) {
        let i = choose|i: int| 0 <= i < g.len() && ext == #[trigger] g[i]@;
        assert(s[i + 14]@ == ext);
    }
}

proof fn lemma_exts()
    ensures
        "txt"@ != "text"@,
        "txt"@ != "log"@,
        "txt"@ != "csv"@,
        "txt"@ != "tsv"@,
        "txt"@ != "md"@,
        "txt"@ != "markdown"@,
        "txt"@ != "mdown"@,
        "txt"@ != "mkd"@,
        "txt"@ != "pdf"@,
        "txt"@ != "docx"@,
        "txt"@ != "xlsx"@,
        "txt"@ != "html"@,
        "txt"@ != "htm"@,
        "txt"@ != "png"@,
        "txt"@ != "jpg"@,
        "txt"@ != "jpeg"@,
        "txt"@ != "webp"@,
        "txt"@ != "bmp"@,
        "txt"@ != "tif"@,
        "txt"@ != "tiff"@,
        "txt"@ != "gif"@,
        "text"@ != "log"@,
        "text"@ != "csv"@,
        "text"@ != "tsv"@,
        "text"@ != "md"@,
        "text"@ != "markdown"@,
        "text"@ != "mdown"@,
        "text"@ != "mkd"@,
        "text"@ != "pdf"@,
        "text"@ != "docx"@,
        "text"@ != "xlsx"@,
        "text"@ != "html"@,
        "text"@ != "htm"@,
        "text"@ != "png"@,
        "text"@ != "jpg"@,
        "text"@ != "jpeg"@,
        "text"@ != "webp"@,
        "text"@ != "bmp"@,
        "text"@ != "tif"@,
        "text"@ != "tiff"@,
        "text"@ != "gif"@,
        "log"@ != "csv"@,
        "log"@ != "tsv"@,
        "log"@ != "md"@,
        "log"@ != "markdown"@,
        "log"@ != "mdown"@,
        "log"@ != "mkd"@,
        "log"@ != "pdf"@,
        "log"@ != "docx"@,
        "log"@ != "xlsx"@,
        "log"@ != "html"@,
        "log"@ != "htm"@,
        "log"@ != "png"@,
        "log"@ != "jpg"@,
        "log"@ != "jpeg"@,
        "log"@ != "webp"@,
        "log"@ != "bmp"@,
        "log"@ != "tif"@,
        "log"@ != "tiff"@,
        "log"@ != "gif"@,
        "csv"@ != "tsv"@,
        "csv"@ != "md"@,
        "csv"@ != "markdown"@,
        "csv"@ != "mdown"@,
        "csv"@ != "mkd"@,
        "csv"@ != "pdf"@,
        "csv"@ != "docx"@,
        "csv"@ != "xlsx"@,
        "csv"@ != "html"@,
        "csv"@ != "htm"@,
        "csv"@ != "png"@,
        "csv"@ != "jpg"@,
        "csv"@ != "jpeg"@,
        "csv"@ != "webp"@,
        "csv"@ != "bmp"@,
        "csv"@ != "tif"@,
        "csv"@ != "tiff"@,
        "csv"@ != "gif"@,
        "tsv"@ != "md"@,
        "tsv"@ != "markdown"@,
        "tsv"@ != "mdown"@,
        "tsv"@ != "mkd"@,
        "tsv"@ != "pdf"@,
        "tsv"@ != "docx"@,
        "tsv"@ != "xlsx"@,
        "tsv"@ != "html"@,
        "tsv"@ != "htm"@,
        "tsv"@ != "png"@,
        "tsv"@ != "jpg"@,
        "tsv"@ != "jpeg"@,
        "tsv"@ != "webp"@,
        "tsv"@ != "bmp"@,
        "tsv"@ != "tif"@,
        "tsv"@ != "tiff"@,
        "tsv"@ != "gif"@,
        "md"@ != "markdown"@,
        "md"@ != "mdown"@,
        "md"@ != "mkd"@,
        "md"@ != "pdf"@,
        "md"@ != "docx"@,
        "md"@ != "xlsx"@,
        "md"@ != "html"@,
        "md"@ != "htm"@,
        "md"@ != "png"@,
        "md"@ != "jpg"@,
        "md"@ != "jpeg"@,
        "md"@ != "webp"@,
        "md"@ != "bmp"@,
        "md"@ != "tif"@,
        "md"@ != "tiff"@,
        "md"@ != "gif"@,
        "markdown"@ != "mdown"@,
        "markdown"@ != "mkd"@,
        "markdown"@ != "pdf"@,
        "markdown"@ != "docx"@,
        "markdown"@ != "xlsx"@,
        "markdown"@ != "html"@,
        "markdown"@ != "htm"@,
        "markdown"@ != "png"@,
        "markdown"@ != "jpg"@,
        "markdown"@ != "jpeg"@,
        "markdown"@ != "webp"@,
        "markdown"@ != "bmp"@,
        "markdown"@ != "tif"@,
        "markdown"@ != "tiff"@,
        "markdown"@ != "gif"@,
        "mdown"@ != "mkd"@,
        "mdown"@ != "pdf"@,
        "mdown"@ != "docx"@,
        "mdown"@ != "xlsx"@,
        "mdown"@ != "html"@,
        "mdown"@ != "htm"@,
        "mdown"@ != "png"@,
        "mdown"@ != "jpg"@,
        "mdown"@ != "jpeg"@,
        "mdown"@ != "webp"@,
        "mdown"@ != "bmp"@,
        "mdown"@ != "tif"@,
        "mdown"@ != "tiff"@,
        "mdown"@ != "gif"@,
        "mkd"@ != "pdf"@,
        "mkd"@ != "docx"@,
        "mkd"@ != "xlsx"@,
        "mkd"@ != "html"@,
        "mkd"@ != "htm"@,
        "mkd"@ != "png"@,
        "mkd"@ != "jpg"@,
        "mkd"@ != "jpeg"@,
        "mkd"@ != "webp"@,
        "mkd"@ != "bmp"@,
        "mkd"@ != "tif"@,
        "mkd"@ != "tiff"@,
        "mkd"@ != "gif"@,
        "pdf"@ != "docx"@,
        "pdf"@ != "xlsx"@,
        "pdf"@ != "html"@,
        "pdf"@ != "htm"@,
        "pdf"@ != "png"@,
        "pdf"@ != "jpg"@,
        "pdf"@ != "jpeg"@,
        "pdf"@ != "webp"@,
        "pdf"@ != "bmp"@,
        "pdf"@ != "tif"@,
        "pdf"@ != "tiff"@,
        "pdf"@ != "gif"@,
        "docx"@ != "xlsx"@,
        "docx"@ != "html"@,
        "docx"@ != "htm"@,
        "docx"@ != "png"@,
        "docx"@ != "jpg"@,
        "docx"@ != "jpeg"@,
        "docx"@ != "webp"@,
        "docx"@ != "bmp"@,
        "docx"@ != "tif"@,
        "docx"@ != "tiff"@,
        "docx"@ != "gif"@,
        "xlsx"@ != "html"@,
        "xlsx"@ != "htm"@,
        "xlsx"@ != "png"@,
        "xlsx"@ != "jpg"@,
        "xlsx"@ != "jpeg"@,
        "xlsx"@ != "webp"@,
        "xlsx"@ != "bmp"@,
        "xlsx"@ != "tif"@,
        "xlsx"@ != "tiff"@,
        "xlsx"@ != "gif"@,
        "html"@ != "htm"@,
        "html"@ != "png"@,
        "html"@ != "jpg"@,
        "html"@ != "jpeg"@,
        "html"@ != "webp"@,
        "html"@ != "bmp"@,
        "html"@ != "tif"@,
        "html"@ != "tiff"@,
        "html"@ != "gif"@,
        "htm"@ != "png"@,
        "htm"@ != "jpg"@,
        "htm"@ != "jpeg"@,
        "htm"@ != "webp"@,
        "htm"@ != "bmp"@,
        "htm"@ != "tif"@,
        "htm"@ != "tiff"@,
        "htm"@ != "gif"@,
        "png"@ != "jpg"@,
        "png"@ != "jpeg"@,
        "png"@ != "webp"@,
        "png"@ != "bmp"@,
        "png"@ != "tif"@,
        "png"@ != "tiff"@,
        "png"@ != "gif"@,
        "jpg"@ != "jpeg"@,
        "jpg"@ != "webp"@,
        "jpg"@ != "bmp"@,
        "jpg"@ != "tif"@,
        "jpg"@ != "tiff"@,
        "jpg"@ != "gif"@,
        "jpeg"@ != "webp"@,
        "jpeg"@ != "bmp"@,
        "jpeg"@ != "tif"@,
        "jpeg"@ != "tiff"@,
        "jpeg"@ != "gif"@,
        "webp"@ != "bmp"@,
        "webp"@ != "tif"@,
        "webp"@ != "tiff"@,
        "webp"@ != "gif"@,
        "bmp"@ != "tif"@,
        "bmp"@ != "tiff"@,
        "bmp"@ != "gif"@,
        "tif"@ != "tiff"@,
        "tif"@ != "gif"@,
        "tiff"@ != "gif"@,
{
    reveal_strlit("txt");
    reveal_strlit("text");
    reveal_strlit("log");
    reveal_strlit("csv");
    reveal_strlit("tsv");
    reveal_strlit("md");
    reveal_strlit("markdown");
    reveal_strlit("mdown");
    reveal_strlit("mkd");
    reveal_strlit("pdf");
    reveal_strlit("docx");
    reveal_strlit("xlsx");
    reveal_strlit("html");
    reveal_strlit("htm");
    reveal_strlit("png");
    reveal_strlit("jpg");
    reveal_strlit("jpeg");
    reveal_strlit("webp");
    reveal_strlit("bmp");
    reveal_strlit("tif");
    reveal_strlit("tiff");
    reveal_strlit("gif");
    assert("txt"@.len() == 3);
    assert("text"@.len() == 4);
    assert("txt"@[0] == 't');
    assert("log"@[0] == 'l');
    assert("csv"@[0] == 'c');
    assert("txt"@[1] == 'x');
    assert("tsv"@[1] == 's');
    assert("md"@.len() == 2);
    assert("markdown"@.len() == 8);
    assert("mdown"@.len() == 5);
    assert("mkd"@[0] == 'm');
    assert("pdf"@[0] == 'p');
    assert("docx"@.len() == 4);
    assert("xlsx"@.len() == 4);
    assert("html"@.len() == 4);
    assert("htm"@[0] == 'h');
    assert("png"@[0] == 'p');
    assert("jpg"@[0] == 'j');
    assert("jpeg"@.len() == 4);
    assert("webp"@.len() == 4);
    assert("bmp"@[0] == 'b');
    assert("tif"@[1] == 'i');
    assert("tiff"@.len() == 4);
    assert("gif"@[0] == 'g');
    assert("log"@.len() == 3);
    assert("csv"@.len() == 3);
    assert("tsv"@.len() == 3);
    assert("mkd"@.len() == 3);
    assert("pdf"@.len() == 3);
    assert("text"@[0] == 't');
    assert("docx"@[0] == 'd');
    assert("xlsx"@[0] == 'x');
    assert("html"@[0] == 'h');
    assert("htm"@.len() == 3);
    assert("png"@.len() == 3);
    assert("jpg"@.len() == 3);
    assert("jpeg"@[0] == 'j');
    assert("webp"@[0] == 'w');
    assert("bmp"@.len() == 3);
    assert("tif"@.len() == 3);
    assert("text"@[1] == 'e');
    assert("tiff"@[1] == 'i');
    assert("gif"@.len() == 3);
    assert("tsv"@[0] == 't');
    assert("tif"@[0] == 't');
    assert("pdf"@[1] == 'd');
    assert("png"@[1] == 'n');
    assert("tiff"@[0] == 't');
}

} // verus!
