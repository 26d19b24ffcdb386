//! Taking documents into a library.

use vstd::prelude::*;

use crate::codec::{hex_text, sha256_digest};
use crate::codec::sha256_hex;
use crate::json::{Json, JsonNumber, JsonView, Object};
use crate::knowledge_base::chunking::{piece_views, PieceView};
use crate::knowledge_base::chunking::ChunkPiece;
use crate::knowledge_base::parse::supported_name;
use crate::knowledge_base::parse::is_supported_ext;
use crate::knowledge_base::{chunk_views, document_views, id_of, snapshot_of, ChunkView, DocumentView};
use crate::knowledge_base::{
    gen_id, is_snapshot_of, DocStatus, KnowledgeChunk, KnowledgeDocument, KnowledgeLibrary,
};
use crate::model::messages::{str_json, with_field};
use crate::settings::provider_index;
use crate::settings::{find_provider, ModelProvider};
use crate::text::{
    chars_of, concat2, concat3, concat4, contains, copy_opt, copy_str, is_alphanumeric, is_blank,
    lines, starts_with, str_eq, strip_prefix, to_lower, trim, trim_start, truncate_chars,
};
use crate::text::{
    alphanumeric, first_chars, has_infix, has_prefix, is_blank_text, lines_of, lower, opt_str,
    opt_text, strings, trimmed, trimmed_start, without_prefix,
};

verus! {

/// How many texts are embedded at once.
pub const BATCH: usize = 64;

// ---------------------------------------------------------------------
// Names
// ---------------------------------------------------------------------

/// A character of a file name that is kept.
pub open spec fn file_char(c: char) -> bool {
    alphanumeric(c) || c == '.' || c == '-' || c == '_'
}

/// A name with an underscore for every character that a file name should not
/// have.
pub open spec fn file_name_of(name: Seq<char>) -> Seq<char> {
    if name.len() == 0 {
        "file"@
    } else {
        Seq::new(
            name.len(),
            |i: int|
                if file_char(name[i]) {
                    name[i]
                } else {
                    '_'
                },
        )
    }
}

/// A name with an underscore for every character that a file name should not
/// have. It leads to no other directory: there is no slash in it.
pub fn sanitize_filename(name: &str) -> (r: String)
    ensures
        r@ == file_name_of(name@),
        forall|i: int| 0 <= i < r@.len() ==> #[trigger] r@[i] != '/' && r@[i] != '\\',
{
    let v = chars_of(name);
    if v.len() == 0 {
        proof {
            reveal_strlit("file");
        }
        return copy_str("file");
    }
    let mut out = String::new();
    let mut i: usize = 0;
    while i < v.len()
        invariant
            i <= v@.len(),
            v@ == name@,
            out@.len() == i,
            forall|j: int|
                0 <= j < i ==> #[trigger] out@[j] == (if file_char(name@[j]) {
                    name@[j]
                } else {
                    '_'
                }),
            forall|j: int| 0 <= j < i ==> #[trigger] out@[j] != '/' && out@[j] != '\\',
        decreases v@.len() - i,
    {
        let c = v[i];
        if is_alphanumeric(c) || c == '.' || c == '-' || c == '_' {
            out.push(c);
        } else {
            out.push('_');
        }
        i += 1;
    }
    assert(out@ =~= file_name_of(name@));
    out
}

/// A name of at most 120 characters.
pub fn truncate_name(s: &str) -> (r: String)
    ensures
        r@ == first_chars(trimmed(s@), 120),
{
    truncate_chars(trim(s).as_str(), 120)
}

/// The name of the snapshot of a file.
pub fn snapshot_name(doc_id: &str, file_name: &str) -> (r: String)
    ensures
        r@ == doc_id@ + "__"@ + file_name_of(file_name@),
        snapshot_of(r@, doc_id@),
{
    let name = sanitize_filename(file_name);
    let r = concat3(doc_id, "__", name.as_str());
    assert(r@.subrange(0, (doc_id@ + "__"@).len() as int) =~= doc_id@ + "__"@);
    r
}

/// The name of the snapshot of a web page.
pub fn page_snapshot_name(doc_id: &str, title: &str) -> (r: String)
    ensures
        r@ == doc_id@ + "__"@ + file_name_of(title@) + ".md"@,
        snapshot_of(r@, doc_id@),
{
    let name = sanitize_filename(title);
    let r = concat4(doc_id, "__", name.as_str(), ".md");
    assert(r@.subrange(0, (doc_id@ + "__"@).len() as int) =~= doc_id@ + "__"@);
    r
}

/// The first of the names, from `from` on, that is a snapshot of a document.
pub open spec fn source_index(names: Seq<Seq<char>>, doc_id: Seq<char>, from: int) -> Option<int>
    decreases names.len() - from,
{
    if from < 0 || from >= names.len() {
        None
    } else if snapshot_of(names[from], doc_id) {
        Some(from)
    } else {
        source_index(names, doc_id, from + 1)
    }
}

/// The first of the names that is a snapshot of a document.
pub fn find_source(names: &Vec<String>, doc_id: &str) -> (r: Result<usize, String>)
    ensures
        match r {
            Ok(i) => i < names@.len() && source_index(strings(names@), doc_id@, 0) == Some(
                i as int,
            ),
            Err(e) => source_index(strings(names@), doc_id@, 0) is None && e@
                == "source snapshot missing for "@ + doc_id@,
        },
{
    let ghost all = strings(names@);
    let mut i: usize = 0;
    while i < names.len()
        invariant
            i <= names@.len(),
            all == strings(names@),
            source_index(all, doc_id@, 0) == source_index(all, doc_id@, i as int),
        decreases names@.len() - i,
    {
        assert(all[i as int] == names@[i as int]@);
        if is_snapshot_of(names[i].as_str(), doc_id) {
            return Ok(i);
        }
        i += 1;
    }
    Err(concat2("source snapshot missing for ", doc_id))
}

// ---------------------------------------------------------------------
// Files
// ---------------------------------------------------------------------

/// Refuses a file that cannot be read as a document.
pub fn check_upload(name: Option<&str>) -> (r: Result<(), String>)
    ensures
        match r {
            Ok(_) => opt_str(name) matches Some(n) && supported_name(n),
            Err(e) => match opt_str(name) {
                Some(n) => !supported_name(n) && e@ == "Unsupported file type: "@ + n,
                None => e@ == "Unsupported file type: "@,
            },
        },
{
    match name {
        Some(n) => if is_supported_ext(n) {
            Ok(())
        } else {
            Err(concat2("Unsupported file type: ", n))
        },
        None => Err(copy_str("Unsupported file type: ")),
    }
}

/// The record of a document that is going to be indexed.
pub open spec fn new_document_view(
    id: Seq<char>,
    name: Seq<char>,
    bytes: Seq<u8>,
    now: i64,
) -> DocumentView {
    DocumentView {
        id,
        name,
        size_bytes: bytes.len() as u64,
        hash: hex_text(sha256_digest(bytes)),
        chunk_count: 0,
        status: DocStatus::Indexing,
        error: None,
        created_at: now,
    }
}

/// The record of a document that is going to be indexed.
pub fn new_document(id: String, name: String, bytes: &[u8], now: i64) -> (r: KnowledgeDocument)
    ensures
        r@ == new_document_view(id@, name@, bytes@, now),
{
    KnowledgeDocument {
        id,
        name,
        size_bytes: bytes.len() as u64,
        hash: sha256_hex(bytes),
        chunk_count: 0,
        status: DocStatus::Indexing,
        error: None,
        created_at: now,
    }
}

// ---------------------------------------------------------------------
// Web pages
// ---------------------------------------------------------------------

/// The URL of a page that can be taken in.
pub fn check_url(url: &str) -> (r: Result<String, String>)
    ensures
        match r {
            Ok(u) => u@ == trimmed(url@) && (has_prefix(u@, "http://"@) || has_prefix(
                u@,
                "https://"@,
            )),
            Err(e) => !has_prefix(trimmed(url@), "http://"@) && !has_prefix(
                trimmed(url@),
                "https://"@,
            ) && e@ == "Only http(s) URLs are supported"@,
        },
{
    let u = trim(url);
    if starts_with(u.as_str(), "http://") || starts_with(u.as_str(), "https://") {
        Ok(u)
    } else {
        Err(copy_str("Only http(s) URLs are supported"))
    }
}

/// A page that is HTML: its type says so, or it begins like it.
pub open spec fn is_markup(content_type: Option<Seq<char>>, body: Seq<char>) -> bool {
    (match content_type {
        Some(t) => has_infix(lower(t), "html"@),
        None => false,
    }) || has_prefix(trimmed_start(body), "<"@)
}

/// Whether a page is HTML.
pub fn needs_extraction(content_type: Option<&str>, body: &str) -> (r: bool)
    ensures
        r == is_markup(opt_str(content_type), body@),
{
    let declared = match content_type {
        Some(t) => contains(to_lower(t).as_str(), "html"),
        None => false,
    };
    declared || starts_with(trim_start(body).as_str(), "<")
}

/// The first heading, from line `from` on.
pub open spec fn first_heading(text_lines: Seq<Seq<char>>, from: int) -> Option<Seq<char>>
    decreases text_lines.len() - from,
{
    if from < 0 || from >= text_lines.len() {
        None
    } else {
        match without_prefix(text_lines[from], "# "@) {
            Some(t) => Some(trimmed(t)),
            None => first_heading(text_lines, from + 1),
        }
    }
}

/// The title of a page: its first heading, else its URL.
pub open spec fn title_of(text: Seq<char>, url: Seq<char>) -> Seq<char> {
    let found = match first_heading(lines_of(text), 0) {
        Some(t) => if t.len() == 0 {
            url
        } else {
            t
        },
        None => url,
    };
    first_chars(trimmed(found), 120)
}

/// The title of a page: its first heading, else its URL.
pub fn page_title(text: &str, url: &str) -> (r: String)
    ensures
        r@ == title_of(text@, url@),
{
    let all = lines(text);
    let ghost views = strings(all@);
    let mut i: usize = 0;
    while i < all.len()
        invariant
            i <= all@.len(),
            views == strings(all@),
            views == lines_of(text@),
            first_heading(views, 0) == first_heading(views, i as int),
        decreases all@.len() - i,
    {
        assert(views[i as int] == all@[i as int]@);
        if let Some(t) = strip_prefix(all[i].as_str(), "# ") {
            let heading = trim(t.as_str());
            if heading.as_str().is_empty() {
                return truncate_name(url);
            }
            return truncate_name(heading.as_str());
        }
        i += 1;
    }
    truncate_name(url)
}

/// Refuses a page without text.
pub fn check_page_text(text: &str) -> (r: Result<(), String>)
    ensures
        match r {
            Ok(_) => !is_blank_text(text@),
            Err(e) => is_blank_text(text@) && e@ == "No extractable text at that URL"@,
        },
{
    if is_blank(text) {
        Err(copy_str("No extractable text at that URL"))
    } else {
        Ok(())
    }
}

// ---------------------------------------------------------------------
// Indexing
// ---------------------------------------------------------------------

/// The name of the first document with the identifier, from `from` on.
pub open spec fn name_in(docs: Seq<DocumentView>, doc_id: Seq<char>, from: int) -> Seq<char>
    decreases docs.len() - from,
{
    if from < 0 || from >= docs.len() {
        doc_id
    } else if docs[from].id == doc_id {
        docs[from].name
    } else {
        name_in(docs, doc_id, from + 1)
    }
}

/// The name of a document, or its identifier where it is not known.
pub fn document_name(docs: &Vec<KnowledgeDocument>, doc_id: &str) -> (r: String)
    ensures
        r@ == name_in(document_views(docs@), doc_id@, 0),
{
    let ghost all = document_views(docs@);
    let mut i: usize = 0;
    while i < docs.len()
        invariant
            i <= docs@.len(),
            all == document_views(docs@),
            name_in(all, doc_id@, 0) == name_in(all, doc_id@, i as int),
        decreases docs@.len() - i,
    {
        assert(all[i as int] == docs@[i as int]@);
        if str_eq(docs[i].id.as_str(), doc_id) {
            return docs[i].name.clone();
        }
        i += 1;
    }
    copy_str(doc_id)
}

/// The provider that embeds the texts of a library.
pub fn embedding_provider(providers: &Vec<ModelProvider>, lib: &KnowledgeLibrary) -> (r: Result<
    usize,
    String,
>)
    ensures
        match r {
            Ok(i) => i < providers@.len() && provider_index(
                providers@,
                lib.embedding_provider_id@,
                0,
            ) == Some(i as int),
            Err(e) => provider_index(providers@, lib.embedding_provider_id@, 0) is None && e@
                == "Embedding provider '"@ + lib.embedding_provider_id@ + "' not found"@,
        },
{
    match find_provider(providers, lib.embedding_provider_id.as_str()) {
        Some(i) => Ok(i),
        None => Err(
            concat3("Embedding provider '", lib.embedding_provider_id.as_str(), "' not found"),
        ),
    }
}

/// The texts of the pieces, in order.
pub open spec fn piece_texts(pieces: Seq<PieceView>) -> Seq<Seq<char>> {
    Seq::new(pieces.len(), |i: int| pieces[i].text)
}

/// Where the batch ends that begins at a place.
pub open spec fn batch_end(total: int, from: int) -> int {
    if total - from <= BATCH {
        total
    } else {
        from + BATCH
    }
}

/// The texts of the batch that begins at a place.
pub fn next_batch(pieces: &Vec<ChunkPiece>, from: usize) -> (r: Vec<String>)
    requires
        from <= pieces@.len(),
    ensures
        strings(r@) == piece_texts(piece_views(pieces@)).subrange(
            from as int,
            batch_end(pieces@.len() as int, from as int),
        ),
{
    let total: usize = pieces.len();
    let end: usize = if total - from <= BATCH {
        total
    } else {
        from + BATCH
    };
    let mut out: Vec<String> = Vec::new();
    let mut i: usize = from;
    while i < end
        invariant
            from <= i <= end <= pieces@.len(),
            out@.len() == i - from,
            forall|j: int| 0 <= j < i - from ==> (#[trigger] out@[j])@ == pieces@[from + j].text@,
        decreases end - i,
    {
        out.push(pieces[i].text.clone());
        i += 1;
    }
    assert(strings(out@) =~= piece_texts(piece_views(pieces@)).subrange(from as int, end as int));
    out
}

/// The batches from a place on, one after the other.
pub open spec fn batches(texts: Seq<Seq<char>>, from: int) -> Seq<Seq<Seq<char>>>
    decreases texts.len() - from,
{
    if from < 0 || from >= texts.len() {
        Seq::empty()
    } else {
        let end = batch_end(texts.len() as int, from);
        seq![texts.subrange(from, end)] + batches(texts, end)
    }
}

/// The texts of several batches, one after the other.
pub open spec fn flattened(groups: Seq<Seq<Seq<char>>>) -> Seq<Seq<char>>
    decreases groups.len(),
{
    if groups.len() == 0 {
        Seq::empty()
    } else {
        groups[0] + flattened(groups.skip(1))
    }
}

/// The batches hold every text once and in order, none is empty and none holds
/// more than `BATCH` texts.
pub proof fn law_batches_hold_every_text(texts: Seq<Seq<char>>, from: int)
    requires
        0 <= from <= texts.len(),
    ensures
        flattened(batches(texts, from)) == texts.skip(from),
        forall|i: int|
            0 <= i < batches(texts, from).len() ==> 0 < (#[trigger] batches(texts, from)[i]).len()
                <= BATCH,
    decreases texts.len() - from,
{
    if from < texts.len() {
        let end = batch_end(texts.len() as int, from);
        law_batches_hold_every_text(texts, end);
        let all = batches(texts, from);
        assert(all.skip(1) =~= batches(texts, end));
        assert(all[0] == texts.subrange(from, end));
        assert(texts.subrange(from, end) + texts.skip(end) =~= texts.skip(from));
        assert forall|i: int| 0 <= i < all.len() implies 0 < (#[trigger] all[i]).len()
            <= BATCH by {
            if i > 0 {
                assert(all[i] == batches(texts, end)[i - 1]);
            }
        }
    } else {
        assert(texts.skip(from) =~= Seq::<Seq<char>>::empty());
    }
}

/// The chunk that a piece, its vector and an identifier make.
pub open spec fn chunk_of(
    doc_id: Seq<char>,
    doc_name: Seq<char>,
    piece: PieceView,
    vector: Seq<u32>,
    id: Seq<char>,
    order: int,
) -> ChunkView {
    ChunkView {
        id,
        doc_id,
        doc_name,
        text: piece.text,
        heading_path: piece.heading,
        page: None,
        char_start: piece.start,
        char_end: piece.end,
        order_index: order,
        embedding: vector,
    }
}

/// The chunks of the pieces that have a vector, in order.
pub open spec fn new_chunk_views(
    doc_id: Seq<char>,
    doc_name: Seq<char>,
    pieces: Seq<PieceView>,
    vectors: Seq<Vec<u32>>,
    ids: Seq<Seq<char>>,
) -> Seq<ChunkView> {
    let n = if pieces.len() <= vectors.len() {
        pieces.len()
    } else {
        vectors.len()
    };
    Seq::new(n, |i: int| chunk_of(doc_id, doc_name, pieces[i], vectors[i]@, ids[i], i))
}

fn copy_bits(v: &Vec<u32>) -> (r: Vec<u32>)
    ensures
        r@ == v@,
{
    let mut out: Vec<u32> = Vec::new();
    let mut i: usize = 0;
    while i < v.len()
        invariant
            i <= v@.len(),
            out@ == v@.take(i as int),
        decreases v@.len() - i,
    {
        out.push(v[i]);
        assert(out@ =~= v@.take(i + 1));
        i += 1;
    }
    assert(v@.take(v@.len() as int) =~= v@);
    out
}

/// The chunks of the pieces that have a vector, with the given identifiers.
pub fn new_chunks_with(
    doc_id: &str,
    doc_name: &str,
    pieces: &Vec<ChunkPiece>,
    vectors: &Vec<Vec<u32>>,
    ids: &Vec<String>,
) -> (r: Vec<KnowledgeChunk>)
    requires
        ids@.len() >= pieces@.len() || ids@.len() >= vectors@.len(),
    ensures
        chunk_views(r@) == new_chunk_views(
            doc_id@,
            doc_name@,
            piece_views(pieces@),
            vectors@,
            strings(ids@),
        ),
{
    let mut out: Vec<KnowledgeChunk> = Vec::new();
    let mut i: usize = 0;
    let ghost views = piece_views(pieces@);
    let ghost names = strings(ids@);
    while i < pieces.len() && i < vectors.len()
        invariant
            i <= pieces@.len(),
            i <= vectors@.len(),
            ids@.len() >= pieces@.len() || ids@.len() >= vectors@.len(),
            views == piece_views(pieces@),
            names == strings(ids@),
            out@.len() == i,
            forall|j: int|
                0 <= j < i ==> (#[trigger] out@[j])@ == chunk_of(
                    doc_id@,
                    doc_name@,
                    views[j],
                    vectors@[j]@,
                    names[j],
                    j,
                ),
        decreases pieces@.len() - i,
    {
        assert(views[i as int] == pieces@[i as int]@);
        out.push(
            KnowledgeChunk {
                id: ids[i].clone(),
                doc_id: copy_str(doc_id),
                doc_name: copy_str(doc_name),
                text: pieces[i].text.clone(),
                heading_path: copy_opt(&pieces[i].heading_path),
                page: None,
                char_start: pieces[i].char_start,
                char_end: pieces[i].char_end,
                order_index: i,
                embedding: copy_bits(&vectors[i]),
            },
        );
        i += 1;
    }
    assert(chunk_views(out@) =~= new_chunk_views(doc_id@, doc_name@, views, vectors@, names));
    out
}

/// An identifier of a chunk with a counter.
pub open spec fn is_chunk_id(id: Seq<char>, n: u64) -> bool {
    exists|millis: u64| id == #[trigger] id_of("chunk"@, millis, n)
}

/// Identifiers of chunks, from a counter on that the caller never uses twice.
pub open spec fn chunk_ids(ids: Seq<Seq<char>>, n: u64) -> bool {
    forall|i: int|
        0 <= i < ids.len() ==> is_chunk_id(#[trigger] ids[i], n.wrapping_add(i as u64))
}

fn gen_chunk_ids(count: usize, n: u64) -> (r: Vec<String>)
    ensures
        r@.len() == count,
        chunk_ids(strings(r@), n),
{
    let mut out: Vec<String> = Vec::new();
    let mut i: usize = 0;
    while i < count
        invariant
            i <= count,
            out@.len() == i,
            chunk_ids(strings(out@), n),
        decreases count - i,
    {
        let ghost before = strings(out@);
        let id = gen_id("chunk", n.wrapping_add(i as u64));
        out.push(id);
        proof {
            let all = strings(out@);
            assert(is_chunk_id(id@, n.wrapping_add(i as u64)));
            assert forall|j: int| 0 <= j < all.len() implies is_chunk_id(
                #[trigger] all[j],
                n.wrapping_add(j as u64),
            ) by {
                if j < before.len() {
                    assert(all[j] == before[j]);
                } else {
                    assert(all[j] == id@);
                }
            }
        }
        i += 1;
    }
    out
}

/// The chunks of the pieces that have a vector; `n` is the first of as many
/// counters as there are pieces.
pub fn new_chunks(
    doc_id: &str,
    doc_name: &str,
    pieces: &Vec<ChunkPiece>,
    vectors: &Vec<Vec<u32>>,
    n: u64,
) -> (r: Vec<KnowledgeChunk>)
    ensures
        exists|ids: Seq<Seq<char>>|
            chunk_ids(ids, n) && ids.len() == pieces@.len() && chunk_views(r@)
                == #[trigger] new_chunk_views(
                doc_id@,
                doc_name@,
                piece_views(pieces@),
                vectors@,
                ids,
            ),
{
    let ids = gen_chunk_ids(pieces.len(), n);
    assert(strings(ids@).len() == ids@.len());
    new_chunks_with(doc_id, doc_name, pieces, vectors, &ids)
}

/// The dimension of the vectors of chunks: that of the first, or 0.
pub fn chunk_dim(chunks: &Vec<KnowledgeChunk>) -> (r: usize)
    ensures
        r == (if chunks@.len() > 0 {
            chunks@[0].embedding@.len()
        } else {
            0
        }),
{
    if chunks.len() > 0 {
        chunks[0].embedding.len()
    } else {
        0
    }
}

/// What is told of the indexing of a document.
pub open spec fn index_event_json(
    kb_id: Seq<char>,
    doc_id: Seq<char>,
    status: Seq<char>,
    indexed: u64,
    total: u64,
    error: Option<Seq<char>>,
) -> JsonView {
    let m = Map::empty().insert("kbId"@, str_json(kb_id)).insert("docId"@, str_json(doc_id)).insert(
        "status"@,
        str_json(status),
    ).insert("indexed"@, JsonView::Number(JsonNumber::Unsigned(indexed))).insert(
        "total"@,
        JsonView::Number(JsonNumber::Unsigned(total)),
    );
    JsonView::Object(
        with_field(
            m,
            "error"@,
            match error {
                Some(e) => Some(str_json(e)),
                None => None,
            },
        ),
    )
}

/// What is told of the indexing of a document.
pub fn index_event(
    kb_id: &str,
    doc_id: &str,
    status: &str,
    indexed: usize,
    total: usize,
    error: &Option<String>,
) -> (r: Json)
    ensures
        r@ == index_event_json(
            kb_id@,
            doc_id@,
            status@,
            indexed as u64,
            total as u64,
            opt_text(*error),
        ),
{
    let mut o = Object::new();
    o.set("kbId", Json::string(kb_id));
    o.set("docId", Json::string(doc_id));
    o.set("status", Json::string(status));
    o.set("indexed", Json::unsigned(indexed as u64));
    o.set("total", Json::unsigned(total as u64));
    if let Some(e) = error {
        o.set("error", Json::string(e.as_str()));
    }
    Json::Object(o)
}

/// How the indexing of a document ended.
#[derive(Debug)]
pub struct Finish {
    pub status: DocStatus,
    pub count: usize,
    pub error: Option<String>,
    pub event: Json,
}

/// How the indexing of a document ended: with so many chunks, or with an error.
pub fn finish_index(kb_id: &str, doc_id: &str, result: Result<usize, String>) -> (r: Finish)
    ensures
        match result {
            Ok(n) => {
                &&& r.status == DocStatus::Ready
                &&& r.count == n
                &&& r.error is None
                &&& r.event@ == index_event_json(
                    kb_id@,
                    doc_id@,
                    "ready"@,
                    n as u64,
                    n as u64,
                    None,
                )
            },
            Err(e) => {
                &&& r.status == DocStatus::Error
                &&& r.count == 0
                &&& opt_text(r.error) == Some(e@)
                &&& r.event@ == index_event_json(kb_id@, doc_id@, "error"@, 0, 0, Some(e@))
            },
        },
{
    match result {
        Ok(n) => Finish {
            status: DocStatus::Ready,
            count: n,
            error: None,
            event: index_event(kb_id, doc_id, "ready", n, n, &None),
        },
        Err(e) => {
            let told = Some(e);
            let event = index_event(kb_id, doc_id, "error", 0, 0, &told);
            Finish { status: DocStatus::Error, count: 0, error: told, event }
        },
    }
}

/// The snapshot of a document is found by its name: the first that is one; and none where
/// none is.
pub proof fn law_snapshots_are_found(names: Seq<Seq<char>>, doc_id: Seq<char>, from: int, i: int)
    requires
        0 <= from <= i <= names.len(),
        forall|j: int| from <= j < i ==> !(#[trigger] snapshot_of(names[j], doc_id)),
    ensures
        i < names.len() && snapshot_of(names[i], doc_id) ==> source_index(names, doc_id, from) == Some(i),
        i == names.len() ==> source_index(names, doc_id, from) == None::<int>,
    decreases i - from,
{
    if from < i {
        assert(!(snapshot_of(names[from], doc_id)));
        law_snapshots_are_found(names, doc_id, from + 1, i);
    }
}

/// A document is named as it is listed; an unlisted one by its identifier.
pub proof fn law_document_names_are_found(docs: Seq<DocumentView>, doc_id: Seq<char>, from: int, i: int)
    requires
        0 <= from <= i <= docs.len(),
        forall|j: int| from <= j < i ==> !((#[trigger] docs[j]).id == doc_id),
    ensures
        i < docs.len() && docs[i].id == doc_id ==> name_in(docs, doc_id, from) == docs[i].name,
        i == docs.len() ==> name_in(docs, doc_id, from) == doc_id,
    decreases i - from,
{
    if from < i {
        assert(!(docs[from].id == doc_id));
        law_document_names_are_found(docs, doc_id, from + 1, i);
    }
}

/// The heading of a text is the first line that begins with `# `, without white space
/// around it.
pub proof fn law_the_first_heading_counts(text_lines: Seq<Seq<char>>, from: int, i: int)
    requires
        0 <= from <= i <= text_lines.len(),
        forall|j: int| from <= j < i ==> !(has_prefix(#[trigger] text_lines[j], "# "@)),
    ensures
        i < text_lines.len() && has_prefix(text_lines[i], "# "@) ==> first_heading(text_lines, from) == Some(trimmed(text_lines[i].skip(2))),
        i == text_lines.len() ==> first_heading(text_lines, from) == None::<Seq<char>>,
    decreases i - from,
{
    reveal_strlit("# ");
    assert("# "@.len() == 2);
    if from < i {
        assert(!(has_prefix(text_lines[from], "# "@)));
        law_the_first_heading_counts(text_lines, from + 1, i);
    }
}

/// A file is named after the document, character for character, with `_` in place of what
/// is no letter, digit, dot, `-` or `_`.
pub proof fn law_file_names_are_safe(name: Seq<char>)
    ensures
        file_name_of(name).len() > 0,
        name.len() > 0 ==> file_name_of(name).len() == name.len(),
        forall|i: int|
            0 <= i < name.len() ==> (#[trigger] file_name_of(name)[i]) == if alphanumeric(name[i])
                || name[i] == '.' || name[i] == '-' || name[i] == '_' {
                name[i]
            } else {
                '_'
            },
{
    reveal_strlit("file");
}

/// A page is titled by its first heading, or by its URL where it has none, cut after 120
/// characters.
pub proof fn law_pages_are_titled(text: Seq<char>, url: Seq<char>)
    ensures
        title_of(text, url).len() <= 120,
        match first_heading(lines_of(text), 0) {
            Some(t) => t.len() > 0 ==> title_of(text, url) == first_chars(trimmed(t), 120),
            None => title_of(text, url) == first_chars(trimmed(url), 120),
        },
{
}

/// A piece and its vector become one chunk: with the text, the heading and the place of the
/// piece, its vector, its identifier and its number in order; as many as there are pieces
/// with a vector.
pub proof fn law_pieces_become_chunks(
    doc_id: Seq<char>,
    doc_name: Seq<char>,
    pieces: Seq<PieceView>,
    vectors: Seq<Vec<u32>>,
    ids: Seq<Seq<char>>,
    i: int,
)
    requires
        pieces.len() == vectors.len(),
        0 <= i < pieces.len(),
    ensures
        ({
            let chunks = new_chunk_views(doc_id, doc_name, pieces, vectors, ids);
            &&& chunks.len() == pieces.len()
            &&& chunks[i].text == pieces[i].text
            &&& chunks[i].heading_path == pieces[i].heading
            &&& chunks[i].char_start == pieces[i].start
            &&& chunks[i].char_end == pieces[i].end
            &&& chunks[i].embedding == vectors[i]@
            &&& chunks[i].id == ids[i]
            &&& chunks[i].doc_id == doc_id
            &&& chunks[i].doc_name == doc_name
            &&& chunks[i].order_index == i
        }),
{
}

/// A document that is taken in is listed as being indexed, with its name, its size and the
/// hash of its bytes, and no chunks yet.
pub proof fn law_new_documents_are_being_indexed(
    id: Seq<char>,
    name: Seq<char>,
    bytes: Seq<u8>,
    now: i64,
)
    ensures
        ({
            let doc = new_document_view(id, name, bytes, now);
            &&& doc.id == id && doc.name == name
            &&& doc.hash == hex_text(sha256_digest(bytes))
            &&& bytes.len() <= u64::MAX ==> doc.size_bytes == bytes.len()
            &&& doc.chunk_count == 0 && doc.status == DocStatus::Indexing && doc.error is None
            &&& doc.created_at == now
        }),
{
}

/// All batches but the last are full.
pub proof fn law_batches_are_full(texts: Seq<Seq<char>>, from: int, i: int)
    requires
        0 <= from <= texts.len(),
        0 <= i < batches(texts, from).len() - 1,
    ensures
        batches(texts, from)[i].len() == BATCH,
    decreases texts.len() - from,
{
    let end = batch_end(texts.len() as int, from);
    let all = batches(texts, from);
    if i == 0 {
        if end == texts.len() {
            assert(batches(texts, end).len() == 0);
        }
    } else {
        assert(all[i] == batches(texts, end)[i - 1]);
        law_batches_are_full(texts, end, i - 1);
    }
}

/// The texts of pieces are the texts of the pieces, in order.
pub proof fn law_piece_texts_are_theirs(pieces: Seq<PieceView>)
    ensures
        piece_texts(pieces).len() == pieces.len(),
        forall|i: int| 0 <= i < pieces.len() ==> (#[trigger] piece_texts(pieces)[i]) == pieces[i].text,
{
}

/// A page is read as markup where its type says so or its text begins with `<`.
pub proof fn law_markup_is_told(content_type: Seq<char>, body: Seq<char>)
    ensures
        has_infix(lower(content_type), "html"@) ==> is_markup(Some(content_type), body),
        trimmed_start(body).len() > 0 && trimmed_start(body)[0] == '<' ==> is_markup(None, body)
            && is_markup(Some(content_type), body),
        !has_infix(lower(content_type), "html"@) && (trimmed_start(body).len() == 0
            || trimmed_start(body)[0] != '<') ==> !is_markup(Some(content_type), body)
            && !is_markup(None, body),
{
    reveal_strlit("<");
    let t = trimmed_start(body);
    assert("<"@ =~= seq!['<']);
    if t.len() > 0 && t[0] == '<' {
        assert(t.subrange(0, 1) =~= "<"@);
    } else if has_prefix(t, "<"@) {
        assert(t.subrange(0, 1)[0] == '<');
    }
}

proof fn lemma_index_keys()
    ensures
        "kbId"@ != "docId"@,
        "kbId"@ != "status"@,
        "kbId"@ != "indexed"@,
        "kbId"@ != "total"@,
        "kbId"@ != "error"@,
        "docId"@ != "status"@,
        "docId"@ != "indexed"@,
        "docId"@ != "total"@,
        "docId"@ != "error"@,
        "status"@ != "indexed"@,
        "status"@ != "total"@,
        "status"@ != "error"@,
        "indexed"@ != "total"@,
        "indexed"@ != "error"@,
        "total"@ != "error"@,
{
    reveal_strlit("kbId");
    reveal_strlit("docId");
    reveal_strlit("status");
    reveal_strlit("indexed");
    reveal_strlit("total");
    reveal_strlit("error");
    assert("kbId"@.len() == 4);
    assert("docId"@.len() == 5);
    assert("status"@.len() == 6);
    assert("indexed"@.len() == 7);
    assert("total"@.len() == 5);
    assert("error"@.len() == 5);
    assert("docId"@[0] == 'd');
    assert("total"@[0] == 't');
    assert("error"@[0] == 'e');
}

/// An event on indexing says the library, the document, the state and how far it is.
pub proof fn law_index_events_say_all(
    kb_id: Seq<char>,
    doc_id: Seq<char>,
    status: Seq<char>,
    indexed: u64,
    total: u64,
    error: Option<Seq<char>>,
)
    ensures
        ({
            let j = index_event_json(kb_id, doc_id, status, indexed, total, error);
            &&& j.field_text("kbId"@) == Some(kb_id)
            &&& j.field_text("docId"@) == Some(doc_id)
            &&& j.field_text("status"@) == Some(status)
            &&& j.field_unsigned("indexed"@) == Some(indexed)
            &&& j.field_unsigned("total"@) == Some(total)
            &&& j.field_text("error"@) == error
        }),
{
    lemma_index_keys();
}

} // verus!
