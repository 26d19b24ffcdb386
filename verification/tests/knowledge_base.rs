//! Documents, libraries and what is found in them.

use std::io::{Cursor, Write};

use kivio_chat::json::Json;
use kivio_chat::knowledge_base::chunking::{
    chunk_document, chunk_with, estimate_tokens, parse_heading, ChunkPiece,
};
use kivio_chat::knowledge_base::embeddings::{
    embed_batch, embed_query, embeddings_from_reply, parse_embeddings_response,
};
use kivio_chat::knowledge_base::ingest::{
    check_page_text, check_upload, check_url, chunk_dim, document_name, embedding_provider,
    find_source, finish_index, index_event, needs_extraction, new_chunks, new_chunks_with,
    new_document, next_batch, page_snapshot_name, page_title, sanitize_filename, snapshot_name,
    BATCH,
};
use kivio_chat::knowledge_base::parse::{
    check_document_size, document_kind, docx_xml_to_text, ext_of, is_supported_ext, parse_docx,
    pdf_document, text_document, word_document, xlsx_document, DocumentKind, Sheet, MAX_DOC_BYTES,
};
use kivio_chat::knowledge_base::process::{
    base_or, document_route, envelope_err, fallback_service, first_key, is_image_ext,
    llamaparse_job, llamaparse_markdown, llamaparse_start, mineru_markdown, mineru_start,
    mineru_upload_place, ocr_engine, pick_markdown, picks_third_party, recognised_document,
    service_document, service_kind, settle_built_in, AfterBuiltIn, DocProcessorProvider,
    DocumentProcessingConfig, JobStep, LlamaJob, MineruJob, OcrEngine, Route, POLL_MAX_ATTEMPTS,
    RESCAN_REFUSED,
};
use kivio_chat::knowledge_base::store::{
    embedding_to_blob, status_from, status_str, vec_table_statement,
};
use kivio_chat::knowledge_base::{
    check_provider_saved, chunks_by_document, create_library, delete_document, delete_library,
    gen_id, get_library, heal_stale_indexing, is_snapshot_of, make_id, mount_system_prompt,
    refresh_library_counts, rename_library, search, set_library_dim, update_embedding,
    validate_kb_id, DocStatus, KnowledgeChunk, KnowledgeDocument, KnowledgeLibrary, LibraryHits,
};
use kivio_chat::settings::ModelProvider;

fn json(text: &str) -> Json {
    Json::parse(text).expect("valid JSON")
}

fn cfg(active: &str, fallback: bool, providers: Vec<DocProcessorProvider>) -> DocumentProcessingConfig {
    DocumentProcessingConfig {
        ocr_engine: "off".to_string(),
        pdf_strategy: "text_layer".to_string(),
        active_processor: active.to_string(),
        fallback_to_third_party: fallback,
        providers,
    }
}

fn provider(id: &str, enabled: bool) -> DocProcessorProvider {
    DocProcessorProvider {
        id: id.to_string(),
        name: id.to_string(),
        kind: "mineru".to_string(),
        api_keys: vec![],
        base_url: String::new(),
        enabled,
    }
}

fn keyed(id: &str, base_url: &str) -> DocProcessorProvider {
    DocProcessorProvider {
        api_keys: vec!["key-1".to_string()],
        base_url: base_url.to_string(),
        ..provider(id, true)
    }
}

fn model_provider(id: &str, keys: &[&str]) -> ModelProvider {
    ModelProvider {
        id: id.to_string(),
        name: id.to_string(),
        api_keys: keys.iter().map(|k| k.to_string()).collect(),
        base_url: "https://api.example.com/v1/".to_string(),
        available_models: Vec::new(),
        enabled_models: Vec::new(),
        supports_tools: true,
        enabled: true,
        api_format: "openai_chat".to_string(),
        model_overrides: Vec::new(),
        compress_request_body: false,
    }
}

fn doc(id: &str, name: &str, chunks: usize) -> KnowledgeDocument {
    KnowledgeDocument {
        id: id.to_string(),
        name: name.to_string(),
        size_bytes: 10,
        hash: format!("h-{id}"),
        chunk_count: chunks,
        status: DocStatus::Ready,
        error: None,
        created_at: 0,
    }
}

fn chunk(id: &str, doc_id: &str, embedding: Vec<u32>) -> KnowledgeChunk {
    KnowledgeChunk {
        id: id.to_string(),
        doc_id: doc_id.to_string(),
        doc_name: format!("{doc_id}.md"),
        text: format!("text of {id}"),
        heading_path: None,
        page: None,
        char_start: 0,
        char_end: 0,
        order_index: 0,
        embedding,
    }
}

fn zip_of(files: &[(&str, &str)]) -> Vec<u8> {
    let mut z = zip::ZipWriter::new(Cursor::new(Vec::new()));
    for (name, text) in files {
        z.start_file(*name, zip::write::SimpleFileOptions::default()).unwrap();
        z.write_all(text.as_bytes()).unwrap();
    }
    z.finish().unwrap().into_inner()
}

// ---------------------------------------------------------------------
// Cutting documents up
// ---------------------------------------------------------------------

#[test]
fn cjk_tokens_counted_higher_than_latin_rule() {
    let zh = "一二三四五六七八九十";
    assert!(estimate_tokens(zh) >= 10);
    let en = "abcdefghij abcdefghij abcdefghij abcdefg";
    assert!(estimate_tokens(en) <= 14 && estimate_tokens(en) >= 8);
}

#[test]
fn heading_parsing() {
    assert_eq!(parse_heading("# Title"), Some((1, "Title".to_string())));
    assert_eq!(parse_heading("### A B"), Some((3, "A B".to_string())));
    assert_eq!(parse_heading("#NoSpace"), None);
    assert_eq!(parse_heading("plain"), None);
    assert_eq!(parse_heading("####### too many"), None);
}

#[test]
fn markdown_chunks_carry_heading_path() {
    let md = "# Guide\n\n## Setup\nInstall the thing.\nRun it.\n\n## Usage\nUse the thing daily.";
    let chunks = chunk_document(md, true);
    assert!(!chunks.is_empty());
    let setup = chunks.iter().find(|c| c.text.contains("Install")).unwrap();
    assert_eq!(setup.heading_path.as_deref(), Some("Guide > Setup"));
    let usage = chunks.iter().find(|c| c.text.contains("daily")).unwrap();
    assert_eq!(usage.heading_path.as_deref(), Some("Guide > Usage"));
}

#[test]
fn long_chinese_text_chunks_within_budget() {
    let zh = "数据".repeat(1000);
    let chunks = chunk_with(&zh, false, 480, 64, 80);
    assert!(chunks.len() > 1, "expected multiple chunks");
    for c in &chunks {
        assert!(
            estimate_tokens(&c.text) <= 480 + 64,
            "chunk too large: {} tokens",
            estimate_tokens(&c.text)
        );
    }
}

#[test]
fn a_carried_line_never_brings_more_than_a_second_budget() {
    let line = "数".repeat(10);
    let text = format!("{line}\n{line}\n{line}");
    let sizes: Vec<usize> = chunk_with(&text, false, 10, 3, 0)
        .iter()
        .map(|c| estimate_tokens(&c.text))
        .collect();
    assert_eq!(sizes, vec![10, 20, 20]);
    let merged: Vec<usize> = chunk_with("数数数\n字字字字", false, 4, 0, 5)
        .iter()
        .map(|c| estimate_tokens(&c.text))
        .collect();
    assert_eq!(merged, vec![7]);
}

#[test]
fn without_an_overlap_chunks_keep_to_the_target_and_grow() {
    let text = (0..50)
        .map(|i| format!("line number {i} with some filler words here"))
        .collect::<Vec<_>>()
        .join("\n");
    let chunks = chunk_with(&text, false, 60, 0, 0);
    assert!(chunks.len() > 1);
    for c in &chunks {
        assert!(estimate_tokens(&c.text) <= 60);
        assert!(c.char_start < c.char_end);
    }
    for w in chunk_with(&text, false, 60, 16, 10).windows(2) {
        assert!(w[1].char_end > w[0].char_end);
    }
}

#[test]
fn short_doc_is_one_chunk() {
    let chunks = chunk_document("Just a short note.", false);
    assert_eq!(chunks.len(), 1);
    assert_eq!(chunks[0].char_start, 0);
}

#[test]
fn overlap_makes_progress_not_infinite() {
    let text = (0..50)
        .map(|i| format!("line number {i} with some filler words here"))
        .collect::<Vec<_>>()
        .join("\n");
    let chunks = chunk_with(&text, false, 60, 16, 10);
    assert!(chunks.len() > 1);
    for w in chunks.windows(2) {
        assert!(w[1].char_start >= w[0].char_start);
    }
}

#[test]
fn blank_documents_have_no_chunks() {
    assert!(chunk_document("", false).is_empty());
    assert!(chunk_document("  \n \n", true).is_empty());
}

// ---------------------------------------------------------------------
// Reading documents
// ---------------------------------------------------------------------

#[test]
fn docx_xml_extracts_paragraph_text() {
    let xml = r#"<w:document><w:body>
            <w:p><w:r><w:t>Hello</w:t></w:r><w:r><w:t xml:space="preserve"> world</w:t></w:r></w:p>
            <w:p><w:r><w:t>第二段 &amp; 实体</w:t></w:r></w:p>
            </w:body></w:document>"#;
    let text = docx_xml_to_text(xml);
    assert!(text.contains("Hello world"), "got: {text:?}");
    assert!(text.contains("第二段 & 实体"), "got: {text:?}");
    assert!(text.contains("world\n第二段") || text.contains("world \n第二段"), "got: {text:?}");
}

#[test]
fn builtin_docx_parse_extracts_paragraph_text() {
    let bytes = zip_of(&[(
        "word/document.xml",
        r#"<?xml version="1.0"?><w:document><w:body><w:p><w:r><w:t>知识库测试文档</w:t></w:r></w:p></w:body></w:document>"#,
    )]);
    let parsed = parse_docx(bytes).unwrap();
    assert!(parsed.text.contains("知识库测试文档"), "got: {:?}", parsed.text);
}

#[test]
fn word_files_that_hold_nothing_are_refused() {
    assert!(parse_docx(b"not an archive".to_vec()).is_err());
    assert!(parse_docx(zip_of(&[("other.xml", "<w:t>x</w:t>")])).is_err());
    assert!(word_document("<w:p></w:p>").is_err());
}

#[test]
fn kinds_of_documents_go_by_the_ending() {
    assert_eq!(ext_of("a.b.MD").as_deref(), Some("md"));
    assert_eq!(ext_of("noext"), None);
    assert!(is_supported_ext("a.pdf"));
    assert!(!is_supported_ext("a.exe"));
    assert!(matches!(document_kind("a.md"), Ok(DocumentKind::Markdown)));
    assert!(matches!(document_kind("a.docx"), Ok(DocumentKind::Docx)));
    assert!(matches!(document_kind("a.pdf"), Ok(DocumentKind::Pdf)));
    assert!(document_kind("a.exe").is_err());
    assert!(check_document_size(MAX_DOC_BYTES).is_ok());
    assert!(check_document_size(MAX_DOC_BYTES + 1).is_err());
}

#[test]
fn texts_are_read_even_where_bytes_are_broken() {
    let parsed = text_document(&[b'o', b'k', 0xff], true);
    assert_eq!(parsed.text, "ok\u{fffd}");
    assert!(parsed.markdown);
    assert!(pdf_document(Ok("  ".to_string())).is_err());
    assert!(pdf_document(Err("broken".to_string())).is_err());
    assert_eq!(pdf_document(Ok("text".to_string())).unwrap().text, "text");
}

#[test]
fn sheets_become_lines_of_cells() {
    let sheets = vec![Sheet {
        name: "Data".to_string(),
        rows: vec![vec!["a".to_string(), "b".to_string()], vec![" ".to_string()]],
    }];
    let parsed = xlsx_document(&sheets).unwrap();
    assert!(parsed.text.contains("Data"));
    assert!(parsed.text.contains('a') && parsed.text.contains('b'));
    assert!(xlsx_document(&Vec::new()).is_err());
}

// ---------------------------------------------------------------------
// Services that read documents
// ---------------------------------------------------------------------

#[test]
fn image_ext_detection() {
    assert!(is_image_ext("a.png"));
    assert!(is_image_ext("photo.JPG"));
    assert!(is_image_ext("scan.tiff"));
    assert!(!is_image_ext("doc.pdf"));
    assert!(!is_image_ext("notes.md"));
    assert!(!is_image_ext("noext"));
}

#[test]
fn routing_branches() {
    let c = cfg("", false, vec![]);
    assert!(!picks_third_party(&c, false));
    assert!(!picks_third_party(&c, true));

    let c = cfg("p1", false, vec![provider("p1", true)]);
    assert!(picks_third_party(&c, false));

    let c = cfg("p1", false, vec![provider("p1", false)]);
    assert!(!picks_third_party(&c, false));

    let c = cfg("", true, vec![provider("p1", true)]);
    assert!(!picks_third_party(&c, false));
    assert!(picks_third_party(&c, true));

    let c = cfg("", true, vec![provider("p1", false)]);
    assert!(!picks_third_party(&c, true));
}

#[test]
fn base_url_defaulting() {
    assert_eq!(base_or("", "https://x.test"), "https://x.test");
    assert_eq!(base_or("  ", "https://x.test"), "https://x.test");
    assert_eq!(base_or("https://y.test/", "https://x.test"), "https://y.test");
}

#[test]
fn off_engine_routes_image_to_select_engine_error() {
    let c = cfg("", false, vec![]);
    assert!(matches!(document_route(&c, "x.png"), Route::Recognition));
    let err = ocr_engine(&c.ocr_engine).err().expect("error");
    assert!(err.contains("选择 OCR 引擎"), "got: {err}");
    assert!(matches!(ocr_engine("system"), Ok(OcrEngine::System)));
}

#[test]
fn pdf_force_ocr_returns_honest_error() {
    let mut c = cfg("", false, vec![]);
    c.pdf_strategy = "force_ocr".to_string();
    assert!(matches!(document_route(&c, "scan.pdf"), Route::Rescan));
    assert!(RESCAN_REFUSED.contains("强制 OCR"));
}

#[test]
fn explicit_processor_routes_third_party() {
    let c = cfg("p1", false, vec![provider("p1", true)]);
    let i = match document_route(&c, "route-check.pdf") {
        Route::Service(i) => i,
        _ => panic!("expected a service"),
    };
    let err = first_key(&c.providers[i]).unwrap_err();
    assert!(err.contains("no API key"), "got: {err}");
}

#[test]
fn failures_go_to_a_service_where_that_is_wanted() {
    let c = cfg("", true, vec![provider("p0", false), provider("p1", true)]);
    assert_eq!(fallback_service(&c), Some(1));
    assert!(matches!(
        settle_built_in(&c, Err("broken".to_string())),
        AfterBuiltIn::Service(1)
    ));
    let c = cfg("", false, vec![provider("p1", true)]);
    assert!(matches!(
        settle_built_in(&c, Err("broken".to_string())),
        AfterBuiltIn::Failed(e) if e == "broken"
    ));
    assert!(recognised_document("  ".to_string()).is_err());
    assert_eq!(recognised_document("text".to_string()).unwrap().text, "text");
}

#[test]
fn service_kinds_are_known_or_refused() {
    assert!(service_kind("mineru").is_ok());
    assert!(service_kind("llamaparse").is_ok());
    assert!(service_kind("other").is_err());
    assert!(service_document(&keyed("p", ""), "  ".to_string()).is_err());
    assert!(service_document(&keyed("p", ""), "# T".to_string()).unwrap().markdown);
}

#[test]
fn a_job_is_asked_for_until_it_is_done_or_time_is_up() {
    let start = mineru_start(&keyed("p", "https://m.test/"), "a.pdf").unwrap();
    assert_eq!(start.key, "key-1");
    assert!(start.url.starts_with("https://m.test/"));
    assert!(mineru_start(&provider("p", true), "a.pdf").is_err());
    let (batch, url) = mineru_upload_place(&json(
        r#"{"code":0,"data":{"batch_id":"b1","file_urls":["https://up.test/1"]}}"#,
    ))
    .unwrap();
    assert_eq!((batch.as_str(), url.as_str()), ("b1", "https://up.test/1"));
    assert!(mineru_upload_place(&json(r#"{"code":1,"msg":"no"}"#)).is_err());

    let mut job = MineruJob::new("https://m.test", "b1");
    let waiting = json(r#"{"code":0,"data":{"extract_result":[{"state":"running"}]}}"#);
    assert!(matches!(job.on_status(&waiting), JobStep::Wait));
    let done = json(
        r#"{"code":0,"data":{"extract_result":[{"state":"done","full_zip_url":"https://z.test/1"}]}}"#,
    );
    assert!(matches!(job.on_status(&done), JobStep::Fetch(url) if url == "https://z.test/1"));

    let mut job = MineruJob::new("https://m.test", "b1");
    let mut rounds: usize = 0;
    loop {
        rounds += 1;
        match job.on_status(&waiting) {
            JobStep::Wait => {}
            JobStep::Failed(_) => break,
            JobStep::Fetch(_) => panic!("nothing to fetch"),
        }
    }
    assert!(rounds <= POLL_MAX_ATTEMPTS);
    assert!(envelope_err(&json(r#"{"code":5,"msg":"quota"}"#), "upload").contains("quota"));
}

#[test]
fn markdown_is_taken_out_of_the_archive() {
    assert_eq!(
        pick_markdown(&vec!["a.json".to_string(), "x/full.md".to_string()]).as_deref(),
        Some("x/full.md")
    );
    assert_eq!(pick_markdown(&vec!["a.json".to_string()]), None);
    let bytes = zip_of(&[("layout.json", "{}"), ("full.md", "# Heading")]);
    assert_eq!(mineru_markdown(bytes).unwrap(), "# Heading");
    assert!(mineru_markdown(zip_of(&[("layout.json", "{}")])).is_err());
    assert!(mineru_markdown(b"no archive".to_vec()).is_err());
}

#[test]
fn llamaparse_jobs_lead_to_their_result() {
    let start = llamaparse_start(&keyed("p", "https://l.test")).unwrap();
    assert!(start.url.starts_with("https://l.test"));
    let id = llamaparse_job(&json(r#"{"id":"job-1"}"#)).unwrap();
    assert_eq!(id, "job-1");
    assert!(llamaparse_job(&json("{}")).is_err());
    let mut job = LlamaJob::new(&start.base, &id);
    assert!(matches!(job.on_status(&json(r#"{"status":"PENDING"}"#)), JobStep::Wait));
    let result_url = job.result_url.clone();
    assert!(matches!(
        job.on_status(&json(r#"{"status":"SUCCESS"}"#)),
        JobStep::Fetch(url) if url == result_url
    ));
    assert!(matches!(
        LlamaJob::new("https://l.test", "j").on_status(&json(r#"{"status":"ERROR"}"#)),
        JobStep::Failed(_)
    ));
    assert_eq!(llamaparse_markdown(&json(r##"{"markdown":"# T"}"##)).unwrap(), "# T");
    assert!(llamaparse_markdown(&json("{}")).is_err());
}

// ---------------------------------------------------------------------
// Embeddings
// ---------------------------------------------------------------------

fn texts(rows: &[Vec<Json>]) -> Vec<Vec<String>> {
    rows.iter().map(|row| row.iter().map(|v| v.to_text()).collect()).collect()
}

#[test]
fn parses_and_reorders_by_index() {
    let body = json(
        r#"{"data":[{"index":1,"embedding":[0.0,1.0]},{"index":0,"embedding":[1.0,0.0]}],"usage":{"prompt_tokens":4}}"#,
    );
    let vectors = parse_embeddings_response(&body).unwrap();
    assert_eq!(texts(&vectors), vec![vec!["1.0", "0.0"], vec!["0.0", "1.0"]]);
}

#[test]
fn surfaces_provider_error_message() {
    let body = json(r#"{"error":{"message":"invalid api key"}}"#);
    let err = parse_embeddings_response(&body).err().expect("error");
    assert!(err.contains("invalid api key"), "got: {err}");
}

#[test]
fn rejects_item_without_embedding() {
    let body = json(r#"{"data":[{"index":0}]}"#);
    assert!(parse_embeddings_response(&body).is_err());
}

#[test]
fn as_many_vectors_come_as_texts_were_sent() {
    let body = json(r#"{"data":[{"index":0,"embedding":[0.5]}]}"#);
    assert!(embeddings_from_reply(&body, 2).is_err());
    let rows = embeddings_from_reply(&body, 1).unwrap();
    assert_eq!(texts(&[embed_query(rows).unwrap()]), vec![vec!["0.5"]]);
    assert!(embed_query(Vec::new()).is_err());
}

#[test]
fn embedding_requests_carry_the_texts() {
    let p = model_provider("openai", &["k"]);
    let call = embed_batch(&p, "m", &vec!["a".to_string(), "b".to_string()]).unwrap().unwrap();
    assert_eq!(call.url, "https://api.example.com/v1/embeddings");
    assert_eq!(call.body.get_str("model"), Some("m"));
    assert_eq!(call.body.get_array("input").map(|v| v.len()), Some(2));
    assert!(embed_batch(&p, "m", &Vec::new()).unwrap().is_none());
    assert!(embed_batch(&model_provider("x", &[]), "m", &vec!["a".to_string()]).is_err());
}

// ---------------------------------------------------------------------
// Taking documents in
// ---------------------------------------------------------------------

#[test]
fn filename_sanitization() {
    assert_eq!(sanitize_filename("a b/c.txt"), "a_b_c.txt");
    assert_eq!(sanitize_filename("报告.pdf"), "报告.pdf");
    assert_eq!(sanitize_filename(""), "file");
    assert_eq!(sanitize_filename("../etc/passwd"), ".._etc_passwd");
}

#[test]
fn snapshots_are_found_by_their_document() {
    let name = snapshot_name("doc_1", "a b.txt");
    assert!(is_snapshot_of(&name, "doc_1"));
    assert!(is_snapshot_of(&page_snapshot_name("doc_1", "Page"), "doc_1"));
    assert!(!is_snapshot_of(&name, "doc_2"));
    let names = vec!["other".to_string(), name];
    assert_eq!(find_source(&names, "doc_1").unwrap(), 1);
    assert!(find_source(&names, "doc_9").is_err());
}

#[test]
fn uploads_and_pages_are_looked_at_first() {
    assert!(check_upload(Some("a.md")).is_ok());
    assert!(check_upload(Some("a.exe")).is_err());
    assert!(check_upload(None).is_err());
    assert_eq!(check_url(" https://example.com/a ").unwrap(), "https://example.com/a");
    assert!(check_url("ftp://example.com").is_err());
    assert!(needs_extraction(Some("text/html; charset=utf-8"), "x"));
    assert!(!needs_extraction(Some("text/plain"), "x"));
    assert!(!page_title("", "https://example.com/a").is_empty());
    assert!(check_page_text("  ").is_err());
    assert!(check_page_text("text").is_ok());
}

#[test]
fn new_documents_are_known_by_the_hash_of_their_bytes() {
    let d = new_document("doc_1".to_string(), "a.md".to_string(), b"abc", 7);
    assert_eq!(d.size_bytes, 3);
    assert_eq!(d.hash, "ba7816bf8f01cfea414140de5dae2223b00361a396177a9cb410ff61f20015ad");
    assert_eq!(d.status, DocStatus::Indexing);
    assert_eq!(d.created_at, 7);
    let docs = vec![d];
    assert_eq!(document_name(&docs, "doc_1"), "a.md");
    assert_eq!(document_name(&docs, "doc_2"), "doc_2");
}

fn piece(text: &str) -> ChunkPiece {
    ChunkPiece { text: text.to_string(), char_start: 0, char_end: 1, heading_path: None }
}

#[test]
fn every_text_is_in_one_batch() {
    let pieces: Vec<ChunkPiece> = (0..BATCH + 3).map(|i| piece(&format!("t{i}"))).collect();
    let first = next_batch(&pieces, 0);
    let second = next_batch(&pieces, first.len());
    assert_eq!(first.len(), BATCH);
    assert_eq!(second.len(), 3);
    assert_eq!(second[0], format!("t{BATCH}"));
    assert!(next_batch(&pieces, pieces.len()).is_empty());
}

#[test]
fn chunks_take_text_and_vector_in_order() {
    let pieces = vec![piece("one"), piece("two")];
    let vectors = vec![vec![1, 2, 3], vec![4, 5, 6]];
    let ids = vec!["c1".to_string(), "c2".to_string()];
    let chunks = new_chunks_with("doc_1", "a.md", &pieces, &vectors, &ids);
    assert_eq!(chunks.len(), 2);
    assert_eq!(chunks[1].id, "c2");
    assert_eq!(chunks[1].text, "two");
    assert_eq!(chunks[1].order_index, 1);
    assert_eq!(chunks[1].embedding, vec![4, 5, 6]);
    assert_eq!(chunk_dim(&chunks), 3);
    assert_eq!(chunk_dim(&Vec::new()), 0);
    let fresh = new_chunks("doc_1", "a.md", &pieces, &vectors, 5);
    assert_ne!(fresh[0].id, fresh[1].id);
}

#[test]
fn the_end_of_indexing_is_told() {
    let done = finish_index("kb_1", "doc_1", Ok(4));
    assert_eq!(done.status, DocStatus::Ready);
    assert_eq!(done.count, 4);
    assert!(done.error.is_none());
    let failed = finish_index("kb_1", "doc_1", Err("broken".to_string()));
    assert_eq!(failed.status, DocStatus::Error);
    assert_eq!(failed.error.as_deref(), Some("broken"));
    assert!(failed.event.to_text().contains("broken"));
    let event = index_event("kb_1", "doc_1", "indexing", 1, 4, &None);
    assert_eq!(event.get_str("status"), Some("indexing"));
}

#[test]
fn texts_are_embedded_by_the_provider_of_the_library() {
    let mut libs = Vec::new();
    let lib = create_library(&mut libs, "L", "p2", "m", 1).unwrap();
    let providers = vec![model_provider("p1", &["k"]), model_provider("p2", &["k"])];
    assert_eq!(embedding_provider(&providers, &lib).unwrap(), 1);
    assert!(embedding_provider(&vec![model_provider("p1", &["k"])], &lib).is_err());
    assert!(check_provider_saved(&providers, "p2").is_ok());
    assert!(check_provider_saved(&providers, "p3").is_err());
}

// ---------------------------------------------------------------------
// Libraries
// ---------------------------------------------------------------------

#[test]
fn kb_id_validation() {
    assert!(validate_kb_id("kb_abc123").is_ok());
    assert!(validate_kb_id("kb_a-b_c").is_ok());
    assert!(validate_kb_id("conv_x").is_err());
    assert!(validate_kb_id("kb_../etc").is_err());
    assert!(validate_kb_id("kb_").is_err());
}

#[test]
fn gen_id_has_separator_between_time_and_counter() {
    let id = gen_id("kb", 3);
    assert!(id.starts_with("kb_"));
    assert_eq!(id.matches('_').count(), 2, "id was {id}");
    assert_ne!(make_id("kb", 1, 11), make_id("kb", 11, 1));
    assert!(validate_kb_id(&id).is_ok());
}

#[test]
fn rename_and_missing_library_errors() {
    let mut libs: Vec<KnowledgeLibrary> = Vec::new();
    let kb = create_library(&mut libs, "Old", "openai", "m", 1).unwrap().id;
    rename_library(&mut libs, &kb, "New").unwrap();
    assert_eq!(get_library(&libs, &kb).unwrap().name, "New");
    assert!(rename_library(&mut libs, "kb_missing", "X").is_err());
    assert!(delete_document(false, "doc_missing").is_err());
    assert!(delete_document(true, "doc_1").is_ok());
}

#[test]
fn libraries_are_counted_changed_and_deleted() {
    let mut libs: Vec<KnowledgeLibrary> = Vec::new();
    let kb = create_library(&mut libs, " Docs ", "openai", "text-embedding-3-small", 1).unwrap().id;
    assert!(create_library(&mut libs, "  ", "openai", "m", 2).is_err());
    assert!(set_library_dim(&mut libs, &kb, 3, 10));
    assert!(refresh_library_counts(&mut libs, &kb, 2, 3, 8, 11));
    let lib = get_library(&libs, &kb).unwrap();
    assert_eq!((lib.doc_count, lib.chunk_count, lib.embedding_dim), (2, 3, 8));
    assert!(refresh_library_counts(&mut libs, &kb, 1, 0, 0, 11));
    let lib = get_library(&libs, &kb).unwrap();
    assert_eq!((lib.doc_count, lib.chunk_count, lib.embedding_dim), (1, 0, 8));
    assert!(!refresh_library_counts(&mut libs, "kb_missing", 1, 1, 4, 11));
    update_embedding(&mut libs, &kb, "other", "m2", 12).unwrap();
    assert_eq!(get_library(&libs, &kb).unwrap().embedding_model, "m2");
    delete_library(&mut libs, &kb).unwrap();
    assert!(libs.is_empty());
    assert!(get_library(&libs, &kb).is_err());
}

#[test]
fn heal_flips_stale_indexing_to_error() {
    let mut stuck = doc("doc_stuck", "a.md", 0);
    stuck.status = DocStatus::Indexing;
    let mut docs = vec![stuck, doc("doc_ok", "b.md", 3)];

    assert_eq!(heal_stale_indexing(&mut docs), 1);
    let stuck = docs.iter().find(|d| d.id == "doc_stuck").unwrap();
    assert_eq!(stuck.status, DocStatus::Error);
    assert!(stuck.error.is_some());
    assert_eq!(docs.iter().find(|d| d.id == "doc_ok").unwrap().status, DocStatus::Ready);
    assert_eq!(heal_stale_indexing(&mut docs), 0);
}

fn hits(kb_id: &str, found: Vec<(&str, i64)>) -> LibraryHits {
    LibraryHits {
        kb_id: kb_id.to_string(),
        hits: Some(found.into_iter().map(|(id, score)| (chunk(id, "d", vec![]), score)).collect()),
    }
}

#[test]
fn e2e_multi_library_search_merges_and_ranks() {
    let results = vec![hits("kb_a", vec![("a1", 100)]), hits("kb_b", vec![("b1", 20)])];
    let found = search(&results, 5);
    assert_eq!(found.len(), 2);
    assert_eq!(found[0].chunk.id, "a1");
    assert_eq!(found[0].kb_id, "kb_a");
    assert_eq!(found[1].kb_id, "kb_b");
    assert_eq!(search(&results, 1).len(), 1);
}

#[test]
fn search_skips_corrupt_library_instead_of_failing() {
    let results = vec![
        hits("kb_good", vec![("g1", 1)]),
        LibraryHits { kb_id: "kb_bad".to_string(), hits: None },
    ];
    let found = search(&results, 5);
    assert_eq!(found.len(), 1, "healthy library's hit must survive a corrupt sibling");
    assert_eq!(found[0].chunk.id, "g1");
}

#[test]
fn chunks_are_grouped_by_document() {
    let chunks =
        vec![chunk("c1", "a", vec![]), chunk("c2", "b", vec![]), chunk("c3", "a", vec![])];
    let groups = chunks_by_document(&chunks);
    assert_eq!(groups.len(), 2);
    assert_eq!(groups.iter().map(|g| g.1.len()).sum::<usize>(), 3);
}

#[test]
fn mounted_libraries_are_named_in_the_prompt() {
    let mut libs = Vec::new();
    let kb = create_library(&mut libs, "Docs", "openai", "m", 1).unwrap().id;
    let zh = mount_system_prompt(&libs, &vec![kb.clone()], "zh-CN").unwrap();
    assert!(zh.starts_with("本会话已挂载知识库：") && zh.contains("Docs"));
    let en = mount_system_prompt(&libs, &vec![kb], "en").unwrap();
    assert!(en.contains("Docs") && en.contains("knowledge_search"));
    assert!(mount_system_prompt(&libs, &Vec::new(), "en").is_none());
}

// ---------------------------------------------------------------------
// Storing
// ---------------------------------------------------------------------

#[test]
fn what_is_stored_comes_back() {
    for status in [DocStatus::Indexing, DocStatus::Ready, DocStatus::Error] {
        assert_eq!(status_from(status_str(status)), status);
    }
    let bits = vec![1.0f32.to_bits(), (-0.5f32).to_bits()];
    let blob = embedding_to_blob(&bits);
    let expected: Vec<u8> =
        [1.0f32, -0.5f32].iter().flat_map(|x| x.to_le_bytes()).collect();
    assert_eq!(blob, expected);
    assert!(vec_table_statement(384).contains("float[384]"));
}
