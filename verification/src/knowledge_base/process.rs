//! Which way a document takes to its text.
//!
//! Images are read by character recognition. Other documents are read by the
//! library itself, or by a service that the user has chosen; a service is also
//! asked where the library fails and the user wants that. The exchanges with the
//! services are steps that the caller carries out.

use vstd::prelude::*;

use crate::archive::{archive_len, archive_name, archive_text, open_archive};
use crate::archive::{zip_count, zip_data, zip_fault, zip_name, zip_text};
use crate::json::items_view;
use crate::json::{Json, JsonView, Object};
use crate::knowledge_base::parse::{extension_of, image_exts, parsed_result, ParsedView};
use crate::knowledge_base::parse::{ext_of, ParsedDoc};
use crate::model::messages::{object2, str_json};
use crate::model::messages::make_object2;
use crate::model::openai::without_slashes;
use crate::model::openai::trim_slashes;
use crate::text::{
    concat2, concat3, concat4, copy_str, ends_with, is_blank, one_of, str_eq, to_upper, trim,
};
use crate::text::{
    has_suffix, is_blank_text, is_one_of, opt_str, opt_text, strings, trimmed, upper,
};

verus! {

/// How often the state of a job is asked for.
pub const POLL_MAX_ATTEMPTS: usize = 90;

/// A service that turns documents into Markdown.
#[derive(Debug)]
pub struct DocProcessorProvider {
    pub id: String,
    pub name: String,
    pub kind: String,
    pub api_keys: Vec<String>,
    pub base_url: String,
    pub enabled: bool,
}

/// How documents are turned into text, as the user has set it.
#[derive(Debug)]
pub struct DocumentProcessingConfig {
    pub ocr_engine: String,
    pub pdf_strategy: String,
    pub active_processor: String,
    pub fallback_to_third_party: bool,
    pub providers: Vec<DocProcessorProvider>,
}

// ---------------------------------------------------------------------
// Routes
// ---------------------------------------------------------------------

/// The extension of a file name in lower case, or nothing.
pub open spec fn ext_or_empty(name: Seq<char>) -> Seq<char> {
    match extension_of(name) {
        Some(e) => e,
        None => Seq::empty(),
    }
}

fn ext_lower(name: &str) -> (r: String)
    ensures
        r@ == ext_or_empty(name@),
{
    match ext_of(name) {
        Some(e) => e,
        None => {
            let none = String::new();
            assert(none@ =~= Seq::<char>::empty());
            none
        },
    }
}

/// Whether a file of the name is an image.
pub fn is_image_ext(name: &str) -> (r: bool)
    ensures
        r == is_one_of(ext_or_empty(name@), image_exts()),
{
    let ext = ext_lower(name);
    let known = ["png", "jpg", "jpeg", "webp", "bmp", "tif", "tiff", "gif"];
    assert(known@ =~= image_exts());
    one_of(ext.as_str(), &known)
}

/// The first service, from `from` on, that is enabled and, where an identifier is
/// given, has it.
pub open spec fn service_index(
    providers: Seq<DocProcessorProvider>,
    id: Option<Seq<char>>,
    from: int,
) -> Option<int>
    decreases providers.len() - from,
{
    if from < 0 || from >= providers.len() {
        None
    } else if providers[from].enabled && (id is None || id == Some(providers[from].id@)) {
        Some(from)
    } else {
        service_index(providers, id, from + 1)
    }
}

fn find_service(providers: &Vec<DocProcessorProvider>, id: Option<&str>) -> (r: Option<usize>)
    ensures
        match r {
            Some(i) => i < providers@.len() && service_index(
                providers@,
                opt_str(id),
                0,
            ) == Some(i as int),
            None => service_index(providers@, opt_str(id), 0) is None,
        },
{
    let ghost wanted = opt_str(id);
    let mut i: usize = 0;
    while i < providers.len()
        invariant
            i <= providers@.len(),
            wanted == opt_str(id),
            service_index(providers@, wanted, 0) == service_index(providers@, wanted, i as int),
        decreases providers@.len() - i,
    {
        let fits = match id {
            Some(t) => str_eq(providers[i].id.as_str(), t),
            None => true,
        };
        if providers[i].enabled && fits {
            return Some(i);
        }
        i += 1;
    }
    None
}

/// The first way of a document.
#[derive(Debug, Clone, Copy, PartialEq, Eq, Structural)]
pub enum Route {
    /// Character recognition.
    Recognition,
    /// The service at a place of the list.
    Service(usize),
    /// The library itself, which refuses to scan a PDF anew.
    Rescan,
    /// The library itself.
    BuiltIn,
}

pub const RESCAN_REFUSED: &'static str = "强制 OCR 重扫扫描版 PDF 暂未启用（内置仅支持 PDF 文字层）";

/// The service that the user has chosen, where it is there and enabled.
pub open spec fn chosen_service(cfg: DocumentProcessingConfig) -> Option<int> {
    if cfg.active_processor@.len() == 0 {
        None
    } else {
        service_index(cfg.providers@, Some(cfg.active_processor@), 0)
    }
}

/// The first way of a document of the name.
pub open spec fn route_of(cfg: DocumentProcessingConfig, name: Seq<char>) -> Route {
    let ext = ext_or_empty(name);
    if is_one_of(ext, image_exts()) {
        Route::Recognition
    } else {
        match chosen_service(cfg) {
            Some(i) => Route::Service(i as usize),
            None => if ext == "pdf"@ && cfg.pdf_strategy@ == "force_ocr"@ {
                Route::Rescan
            } else {
                Route::BuiltIn
            },
        }
    }
}

fn find_chosen(cfg: &DocumentProcessingConfig) -> (r: Option<usize>)
    ensures
        match r {
            Some(i) => i < cfg.providers@.len() && chosen_service(*cfg) == Some(i as int),
            None => chosen_service(*cfg) is None,
        },
{
    if cfg.active_processor.as_str().is_empty() {
        None
    } else {
        find_service(&cfg.providers, Some(cfg.active_processor.as_str()))
    }
}

/// The first way of a document of the name.
pub fn document_route(cfg: &DocumentProcessingConfig, name: &str) -> (r: Route)
    ensures
        r == route_of(*cfg, name@),
        r matches Route::Service(i) ==> i < cfg.providers@.len(),
{
    if is_image_ext(name) {
        return Route::Recognition;
    }
    match find_chosen(cfg) {
        Some(i) => Route::Service(i),
        None => {
            let ext = ext_lower(name);
            if str_eq(ext.as_str(), "pdf") && str_eq(cfg.pdf_strategy.as_str(), "force_ocr") {
                Route::Rescan
            } else {
                Route::BuiltIn
            }
        },
    }
}

/// The service that is asked after the library failed.
pub open spec fn fallback_of(cfg: DocumentProcessingConfig) -> Option<int> {
    if cfg.fallback_to_third_party {
        service_index(cfg.providers@, None, 0)
    } else {
        None
    }
}

/// The service that is asked after the library failed.
pub fn fallback_service(cfg: &DocumentProcessingConfig) -> (r: Option<usize>)
    ensures
        match r {
            Some(i) => i < cfg.providers@.len() && fallback_of(*cfg) == Some(i as int),
            None => fallback_of(*cfg) is None,
        },
{
    if cfg.fallback_to_third_party {
        find_service(&cfg.providers, None)
    } else {
        None
    }
}

/// What becomes of what the library made of a document.
#[derive(Debug)]
pub enum AfterBuiltIn {
    Done(ParsedDoc),
    Service(usize),
    Failed(String),
}

/// What becomes of what the library made of a document, as values.
pub open spec fn after_built_in(
    cfg: DocumentProcessingConfig,
    made: Result<ParsedView, Seq<char>>,
    r: AfterBuiltIn,
) -> bool {
    match made {
        Ok(doc) => r matches AfterBuiltIn::Done(d) && d@ == doc,
        Err(e) => match fallback_of(cfg) {
            Some(i) => r == AfterBuiltIn::Service(i as usize),
            None => r matches AfterBuiltIn::Failed(t) && t@ == e,
        },
    }
}

/// What becomes of what the library made of a document: a failure goes to a
/// service where there is one to fall back to.
pub fn settle_built_in(cfg: &DocumentProcessingConfig, made: Result<ParsedDoc, String>) -> (r:
    AfterBuiltIn)
    ensures
        after_built_in(*cfg, parsed_result(made), r),
{
    match made {
        Ok(doc) => AfterBuiltIn::Done(doc),
        Err(e) => match fallback_service(cfg) {
            Some(i) => AfterBuiltIn::Service(i),
            None => AfterBuiltIn::Failed(e),
        },
    }
}

/// Whether a document that is no image goes to a service.
pub fn picks_third_party(cfg: &DocumentProcessingConfig, builtin_failed: bool) -> (r: bool)
    ensures
        r == (chosen_service(*cfg) is Some || (builtin_failed && fallback_of(*cfg) is Some)),
{
    match find_chosen(cfg) {
        Some(_) => true,
        None => if builtin_failed {
            fallback_service(cfg).is_some()
        } else {
            false
        },
    }
}

/// A way to recognise characters.
#[derive(Debug, Clone, Copy, PartialEq, Eq, Structural)]
pub enum OcrEngine {
    System,
    Rapid,
}

/// The way to recognise characters that a name stands for.
pub open spec fn engine_of(name: Seq<char>) -> Result<OcrEngine, Seq<char>> {
    if name == "system"@ {
        Ok(OcrEngine::System)
    } else if name == "rapid_ocr"@ {
        Ok(OcrEngine::Rapid)
    } else {
        Err("图片入库需先在「文档处理」选择 OCR 引擎"@)
    }
}

/// The way to recognise characters that a name stands for.
pub fn ocr_engine(name: &str) -> (r: Result<OcrEngine, String>)
    ensures
        match r {
            Ok(e) => engine_of(name@) == Ok::<OcrEngine, Seq<char>>(e),
            Err(e) => engine_of(name@) == Err::<OcrEngine, Seq<char>>(e@),
        },
{
    if str_eq(name, "system") {
        Ok(OcrEngine::System)
    } else if str_eq(name, "rapid_ocr") {
        Ok(OcrEngine::Rapid)
    } else {
        Err(copy_str("图片入库需先在「文档处理」选择 OCR 引擎"))
    }
}

/// The document that recognised characters are; there must be some.
pub fn recognised_document(text: String) -> (r: Result<ParsedDoc, String>)
    ensures
        parsed_result(r) == (if is_blank_text(text@) {
            Err::<ParsedView, Seq<char>>("OCR 未识别到文字"@)
        } else {
            Ok(ParsedView { text: text@, markdown: false })
        }),
{
    if is_blank(text.as_str()) {
        Err(copy_str("OCR 未识别到文字"))
    } else {
        Ok(ParsedDoc { text, markdown: false })
    }
}

// ---------------------------------------------------------------------
// Services
// ---------------------------------------------------------------------

/// The first of the keys, from `from` on, that is not blank.
pub open spec fn usable_key(keys: Seq<String>, from: int) -> Option<Seq<char>>
    decreases keys.len() - from,
{
    if from < 0 || from >= keys.len() {
        None
    } else if !is_blank_text(keys[from]@) {
        Some(keys[from]@)
    } else {
        usable_key(keys, from + 1)
    }
}

/// The key for a service.
pub open spec fn key_of(p: DocProcessorProvider) -> Result<Seq<char>, Seq<char>> {
    match usable_key(p.api_keys@, 0) {
        Some(k) => Ok(k),
        None => Err("Document processor '"@ + p.name@ + "' has no API key"@),
    }
}

/// A text or an error, as values.
pub open spec fn text_result(r: Result<String, String>) -> Result<Seq<char>, Seq<char>> {
    match r {
        Ok(t) => Ok(t@),
        Err(e) => Err(e@),
    }
}

/// The key for a service: the first that is not blank.
pub fn first_key(p: &DocProcessorProvider) -> (r: Result<String, String>)
    ensures
        text_result(r) == key_of(*p),
{
    let mut i: usize = 0;
    while i < p.api_keys.len()
        invariant
            i <= p.api_keys@.len(),
            usable_key(p.api_keys@, 0) == usable_key(p.api_keys@, i as int),
        decreases p.api_keys@.len() - i,
    {
        if !is_blank(p.api_keys[i].as_str()) {
            return Ok(p.api_keys[i].clone());
        }
        i += 1;
    }
    Err(concat3("Document processor '", p.name.as_str(), "' has no API key"))
}

/// A base URL without slashes at its end, or a default where it is blank.
pub open spec fn base_of(base_url: Seq<char>, default: Seq<char>) -> Seq<char> {
    if is_blank_text(base_url) {
        default
    } else {
        without_slashes(trimmed(base_url))
    }
}

/// A base URL without slashes at its end, or a default where it is blank.
pub fn base_or(base_url: &str, default: &str) -> (r: String)
    ensures
        r@ == base_of(base_url@, default@),
{
    if is_blank(base_url) {
        copy_str(default)
    } else {
        trim_slashes(trim(base_url).as_str())
    }
}

/// What a service says went wrong: the first of three fields that is there.
pub open spec fn fault_field(v: JsonView) -> Option<JsonView> {
    match v.field("msg"@) {
        Some(m) => Some(m),
        None => match v.field("detail"@) {
            Some(d) => Some(d),
            None => v.field("error"@),
        },
    }
}

/// What is said of a reply that does not hold what was asked for.
pub open spec fn envelope_text(v: JsonView, step: Seq<char>) -> Seq<char> {
    let msg = match fault_field(v) {
        Some(m) => match m.text() {
            Some(t) => t,
            None => "unexpected response"@,
        },
        None => "unexpected response"@,
    };
    step + " error: "@ + msg
}

/// What is said of a reply that does not hold what was asked for.
pub fn envelope_err(v: &Json, step: &str) -> (r: String)
    ensures
        r@ == envelope_text(v@, step@),
{
    let field = match v.get("msg") {
        Some(m) => Some(m),
        None => match v.get("detail") {
            Some(d) => Some(d),
            None => v.get("error"),
        },
    };
    let msg = match field {
        Some(m) => match m.as_str() {
            Some(t) => t,
            None => "unexpected response",
        },
        None => "unexpected response",
    };
    concat3(step, " error: ", msg)
}

/// A kind of service.
#[derive(Debug, Clone, Copy, PartialEq, Eq, Structural)]
pub enum ServiceKind {
    Mineru,
    LlamaParse,
}

/// The kind of service that a name stands for.
pub fn service_kind(kind: &str) -> (r: Result<ServiceKind, String>)
    ensures
        match r {
            Ok(ServiceKind::Mineru) => kind@ == "mineru"@,
            Ok(ServiceKind::LlamaParse) => kind@ == "llamaparse"@,
            Err(e) => kind@ != "mineru"@ && kind@ != "llamaparse"@ && e@
                == "Unknown document processor kind '"@ + kind@ + "'"@,
        },
{
    if str_eq(kind, "mineru") {
        Ok(ServiceKind::Mineru)
    } else if str_eq(kind, "llamaparse") {
        Ok(ServiceKind::LlamaParse)
    } else {
        Err(concat3("Unknown document processor kind '", kind, "'"))
    }
}

/// The document that the Markdown of a service is; it must not be blank.
pub fn service_document(p: &DocProcessorProvider, markdown: String) -> (r: Result<ParsedDoc, String>)
    ensures
        parsed_result(r) == (if is_blank_text(markdown@) {
            Err::<ParsedView, Seq<char>>(
                "Processor '"@ + p.name@ + "' returned empty markdown"@,
            )
        } else {
            Ok(ParsedView { text: markdown@, markdown: true })
        }),
{
    if is_blank(markdown.as_str()) {
        Err(concat3("Processor '", p.name.as_str(), "' returned empty markdown"))
    } else {
        Ok(ParsedDoc { text: markdown, markdown: true })
    }
}

/// What to do after the state of a job was asked for.
#[derive(Debug)]
pub enum JobStep {
    /// Wait, and ask again.
    Wait,
    /// Get the result from the URL.
    Fetch(String),
    Failed(String),
}

/// What to do after the state of a job was asked for, as values.
#[verifier::ext_equal]
pub enum StepView {
    Wait,
    Fetch(Seq<char>),
    Failed(Seq<char>),
}

impl View for JobStep {
    type V = StepView;

    open spec fn view(&self) -> StepView {
        match self {
            JobStep::Wait => StepView::Wait,
            JobStep::Fetch(url) => StepView::Fetch(url@),
            JobStep::Failed(e) => StepView::Failed(e@),
        }
    }
}

/// What to do after the state was asked for `polls` times, the last of which
/// gave `step`: not for ever is a job waited for.
pub open spec fn bounded(step: StepView, polls: int, timed_out: Seq<char>) -> StepView {
    if step is Wait && polls >= POLL_MAX_ATTEMPTS {
        StepView::Failed(timed_out)
    } else {
        step
    }
}

/// A job is waited for only while its state was asked for fewer than
/// `POLL_MAX_ATTEMPTS` times.
pub proof fn law_waiting_ends(step: StepView, polls: int, timed_out: Seq<char>)
    ensures
        bounded(step, polls, timed_out) is Wait ==> polls < POLL_MAX_ATTEMPTS,
        !(step is Wait) ==> bounded(step, polls, timed_out) == step,
{
}

// ---------------------------------------------------------------------
// MinerU
// ---------------------------------------------------------------------

/// The body of the request for a place to put a file.
pub open spec fn mineru_body(file_name: Seq<char>) -> JsonView {
    JsonView::Object(
        Map::empty().insert("enable_formula"@, JsonView::Bool(true)).insert(
            "enable_table"@,
            JsonView::Bool(true),
        ).insert("language"@, str_json("auto"@)).insert(
            "files"@,
            JsonView::Array(
                seq![object2("name"@, str_json(file_name), "is_ocr"@, JsonView::Bool(true))],
            ),
        ),
    )
}

/// A request to send: the key, the base of the URLs, the URL and the body.
#[derive(Debug)]
pub struct MineruStart {
    pub key: String,
    pub base: String,
    pub url: String,
    pub body: Json,
}

/// The request for a place to put a file.
pub fn mineru_start(p: &DocProcessorProvider, file_name: &str) -> (r: Result<MineruStart, String>)
    ensures
        match key_of(*p) {
            Err(e) => r is Err && r->Err_0@ == e,
            Ok(key) => {
                let base = base_of(p.base_url@, "https://mineru.net"@);
                &&& r is Ok
                &&& r->Ok_0.key@ == key
                &&& r->Ok_0.base@ == base
                &&& r->Ok_0.url@ == base + "/api/v4/file-urls/batch"@
                &&& r->Ok_0.body@ == mineru_body(file_name@)
            },
        },
{
    let key = match first_key(p) {
        Ok(k) => k,
        Err(e) => {
            return Err(e);
        },
    };
    let base = base_or(p.base_url.as_str(), "https://mineru.net");
    let mut files: Vec<Json> = Vec::new();
    files.push(make_object2("name", Json::string(file_name), "is_ocr", Json::Bool(true)));
    assert(items_view(files@) =~= seq![
        object2("name"@, str_json(file_name@), "is_ocr"@, JsonView::Bool(true)),
    ]);
    let mut body = Object::new();
    body.set("enable_formula", Json::Bool(true));
    body.set("enable_table", Json::Bool(true));
    body.set("language", Json::string("auto"));
    body.set("files", Json::Array(files));
    let url = concat2(base.as_str(), "/api/v4/file-urls/batch");
    Ok(MineruStart { key, base, url, body: Json::Object(body) })
}

/// The first item of a list, as a text.
pub open spec fn first_text(v: Option<JsonView>) -> Option<Seq<char>> {
    match v {
        Some(j) => match j.items() {
            Some(items) => if items.len() > 0 {
                items[0].text()
            } else {
                None
            },
            None => None,
        },
        None => None,
    }
}

/// The batch and the place to put a file, from the reply to the request for them.
pub open spec fn mineru_place(reply: JsonView) -> Result<(Seq<char>, Seq<char>), Seq<char>> {
    match reply.field("data"@) {
        None => Err("MinerU upload-url "@ + envelope_text(reply, ""@)),
        Some(data) => match data.field_text("batch_id"@) {
            None => Err("MinerU: missing batch_id"@),
            Some(batch) => match first_text(data.field("file_urls"@)) {
                None => Err("MinerU: missing file_urls"@),
                Some(url) => Ok((batch, url)),
            },
        },
    }
}

/// The batch and the place to put a file, from the reply to the request for them.
pub fn mineru_upload_place(reply: &Json) -> (r: Result<(String, String), String>)
    ensures
        match r {
            Ok(pair) => mineru_place(reply@) == Ok::<(Seq<char>, Seq<char>), Seq<char>>(
                (pair.0@, pair.1@),
            ),
            Err(e) => mineru_place(reply@) == Err::<(Seq<char>, Seq<char>), Seq<char>>(e@),
        },
{
    let data = match reply.get("data") {
        Some(d) => d,
        None => {
            let fault = envelope_err(reply, "");
            return Err(concat2("MinerU upload-url ", fault.as_str()));
        },
    };
    let batch = match data.get_str("batch_id") {
        Some(b) => copy_str(b),
        None => {
            return Err(copy_str("MinerU: missing batch_id"));
        },
    };
    let url = match data.get_array("file_urls") {
        Some(items) => {
            assert(items_view(items@).len() == items@.len());
            if items.len() > 0 {
                assert(items_view(items@)[0] == items@[0]@);
                items[0].as_str()
            } else {
                None
            }
        },
        None => None,
    };
    match url {
        Some(u) => Ok((batch, copy_str(u))),
        None => Err(copy_str("MinerU: missing file_urls")),
    }
}

/// What the state of a batch asks for.
pub open spec fn mineru_step(reply: JsonView) -> StepView {
    let list = match reply.path("data"@, "extract_result"@) {
        Some(j) => j.items(),
        None => None,
    };
    match list {
        Some(items) => if items.len() > 0 {
            let first = items[0];
            match first.field_text("state"@) {
                Some(state) => if state == "done"@ {
                    match first.field_text("full_zip_url"@) {
                        Some(url) => StepView::Fetch(url),
                        None => StepView::Failed("MinerU: done but no full_zip_url"@),
                    }
                } else if state == "failed"@ {
                    StepView::Failed("MinerU parse "@ + envelope_text(first, "failed"@))
                } else {
                    StepView::Wait
                },
                None => StepView::Wait,
            }
        } else {
            StepView::Wait
        },
        None => StepView::Wait,
    }
}

fn read_mineru_step(reply: &Json) -> (r: JobStep)
    ensures
        r@ == mineru_step(reply@),
{
    let list = match reply.get_path("data", "extract_result") {
        Some(j) => j.as_array(),
        None => None,
    };
    let items = match list {
        Some(items) => items,
        None => {
            return JobStep::Wait;
        },
    };
    assert(items_view(items@).len() == items@.len());
    if items.len() == 0 {
        return JobStep::Wait;
    }
    let first = &items[0];
    assert(items_view(items@)[0] == first@);
    match first.get_str("state") {
        Some(state) => {
            if str_eq(state, "done") {
                match first.get_str("full_zip_url") {
                    Some(url) => JobStep::Fetch(copy_str(url)),
                    None => JobStep::Failed(copy_str("MinerU: done but no full_zip_url")),
                }
            } else if str_eq(state, "failed") {
                let fault = envelope_err(first, "failed");
                JobStep::Failed(concat2("MinerU parse ", fault.as_str()))
            } else {
                JobStep::Wait
            }
        },
        None => JobStep::Wait,
    }
}

/// A batch that is waited for.
#[derive(Debug)]
pub struct MineruJob {
    pub status_url: String,
    pub polls: usize,
}

impl MineruJob {
    /// A batch whose state was not asked for yet.
    pub fn new(base: &str, batch_id: &str) -> (r: MineruJob)
        ensures
            r.status_url@ == base@ + "/api/v4/extract-results/batch/"@ + batch_id@,
            r.polls == 0,
    {
        MineruJob {
            status_url: concat3(base, "/api/v4/extract-results/batch/", batch_id),
            polls: 0,
        }
    }

    /// Takes the state that the service gave once more.
    pub fn on_status(&mut self, reply: &Json) -> (r: JobStep)
        ensures
            final(self).status_url@ == old(self).status_url@,
            final(self).polls == (if old(self).polls < POLL_MAX_ATTEMPTS {
                old(self).polls + 1
            } else {
                old(self).polls as int
            }),
            r@ == bounded(
                mineru_step(reply@),
                final(self).polls as int,
                "MinerU parse timed out"@,
            ),
    {
        if self.polls < POLL_MAX_ATTEMPTS {
            self.polls = self.polls + 1;
        }
        match read_mineru_step(reply) {
            JobStep::Wait => if self.polls >= POLL_MAX_ATTEMPTS {
                JobStep::Failed(copy_str("MinerU parse timed out"))
            } else {
                JobStep::Wait
            },
            step => step,
        }
    }
}

/// The names of the entries from the first up to `n` that can be opened.
pub open spec fn entry_names(data: Seq<u8>, n: int) -> Seq<Seq<char>>
    decreases n,
{
    if n <= 0 {
        Seq::empty()
    } else {
        let before = entry_names(data, n - 1);
        match zip_name(data, n - 1) {
            Some(name) => before.push(name),
            None => before,
        }
    }
}

/// The first name, from `from` on, that ends in a text.
pub open spec fn ending_in(names: Seq<Seq<char>>, end: Seq<char>, from: int) -> Option<Seq<char>>
    decreases names.len() - from,
{
    if from < 0 || from >= names.len() {
        None
    } else if has_suffix(names[from], end) {
        Some(names[from])
    } else {
        ending_in(names, end, from + 1)
    }
}

fn find_ending(names: &Vec<String>, end: &str) -> (r: Option<String>)
    ensures
        opt_text(r) == ending_in(strings(names@), end@, 0),
{
    let ghost all = strings(names@);
    let mut i: usize = 0;
    while i < names.len()
        invariant
            i <= names@.len(),
            all == strings(names@),
            ending_in(all, end@, 0) == ending_in(all, end@, i as int),
        decreases names@.len() - i,
    {
        assert(all[i as int] == names@[i as int]@);
        if ends_with(names[i].as_str(), end) {
            return Some(names[i].clone());
        }
        i += 1;
    }
    None
}

/// The entry that holds the Markdown: `full.md`, else the first `.md`.
pub open spec fn markdown_entry(names: Seq<Seq<char>>) -> Option<Seq<char>> {
    match ending_in(names, "full.md"@, 0) {
        Some(n) => Some(n),
        None => ending_in(names, ".md"@, 0),
    }
}

/// The entry that holds the Markdown.
pub fn pick_markdown(names: &Vec<String>) -> (r: Option<String>)
    ensures
        opt_text(r) == markdown_entry(strings(names@)),
{
    match find_ending(names, "full.md") {
        Some(n) => Some(n),
        None => find_ending(names, ".md"),
    }
}

/// The Markdown in the archive of a result.
pub open spec fn archive_markdown(data: Seq<u8>) -> Result<Seq<char>, Seq<char>> {
    match zip_fault(data) {
        Some(e) => Err("MinerU zip open: "@ + e),
        None => match markdown_entry(entry_names(data, zip_count(data) as int)) {
            None => Err("MinerU zip has no markdown"@),
            Some(name) => match zip_text(data, name) {
                Err(e) => Err("MinerU zip read: "@ + e),
                Ok(Err(e)) => Err("MinerU md read: "@ + e),
                Ok(Ok(text)) => Ok(text),
            },
        },
    }
}

/// The Markdown in the archive of a result.
pub fn mineru_markdown(bytes: Vec<u8>) -> (r: Result<String, String>)
    ensures
        text_result(r) == archive_markdown(bytes@),
{
    let ghost data = bytes@;
    let mut archive = match open_archive(bytes) {
        Ok(a) => a,
        Err(e) => {
            return Err(concat2("MinerU zip open: ", e.as_str()));
        },
    };
    let count: usize = archive_len(&archive);
    let mut names: Vec<String> = Vec::new();
    let mut i: usize = 0;
    assert(strings(names@) =~= Seq::<Seq<char>>::empty());
    while i < count
        invariant
            i <= count,
            zip_data(archive) == data,
            strings(names@) == entry_names(data, i as int),
        decreases count - i,
    {
        let ghost before = names@;
        if let Some(name) = archive_name(&mut archive, i) {
            names.push(name);
            assert(strings(names@) =~= strings(before).push(name@));
        }
        i += 1;
    }
    let target = match pick_markdown(&names) {
        Some(n) => n,
        None => {
            return Err(copy_str("MinerU zip has no markdown"));
        },
    };
    match archive_text(&mut archive, target.as_str()) {
        Err(e) => Err(concat2("MinerU zip read: ", e.as_str())),
        Ok(Err(e)) => Err(concat2("MinerU md read: ", e.as_str())),
        Ok(Ok(text)) => Ok(text),
    }
}

// ---------------------------------------------------------------------
// LlamaParse
// ---------------------------------------------------------------------

/// A file to upload: the key, the base of the URLs and the URL.
#[derive(Debug)]
pub struct LlamaStart {
    pub key: String,
    pub base: String,
    pub url: String,
}

/// Where to upload a file.
pub fn llamaparse_start(p: &DocProcessorProvider) -> (r: Result<LlamaStart, String>)
    ensures
        match key_of(*p) {
            Err(e) => r is Err && r->Err_0@ == e,
            Ok(key) => {
                let base = base_of(p.base_url@, "https://api.cloud.llamaindex.ai"@);
                &&& r is Ok
                &&& r->Ok_0.key@ == key
                &&& r->Ok_0.base@ == base
                &&& r->Ok_0.url@ == base + "/api/parsing/upload"@
            },
        },
{
    let key = match first_key(p) {
        Ok(k) => k,
        Err(e) => {
            return Err(e);
        },
    };
    let base = base_or(p.base_url.as_str(), "https://api.cloud.llamaindex.ai");
    let url = concat2(base.as_str(), "/api/parsing/upload");
    Ok(LlamaStart { key, base, url })
}

/// The job that a reply to an upload names.
pub fn llamaparse_job(reply: &Json) -> (r: Result<String, String>)
    ensures
        text_result(r) == (match reply@.field_text("id"@) {
            Some(id) => Ok::<Seq<char>, Seq<char>>(id),
            None => Err("LlamaParse upload "@ + envelope_text(reply@, ""@)),
        }),
{
    match reply.get_str("id") {
        Some(id) => Ok(copy_str(id)),
        None => {
            let fault = envelope_err(reply, "");
            Err(concat2("LlamaParse upload ", fault.as_str()))
        },
    }
}

/// What the state of a job asks for.
pub open spec fn llama_step(reply: JsonView, result_url: Seq<char>) -> StepView {
    match reply.field_text("status"@) {
        None => StepView::Wait,
        Some(t) => {
            let state = upper(t);
            if state == "SUCCESS"@ {
                StepView::Fetch(result_url)
            } else if state == "ERROR"@ || state == "CANCELED"@ {
                StepView::Failed("LlamaParse parse "@ + envelope_text(reply, "failed"@))
            } else {
                StepView::Wait
            }
        },
    }
}

fn read_llama_step(reply: &Json, result_url: &str) -> (r: JobStep)
    ensures
        r@ == llama_step(reply@, result_url@),
{
    match reply.get_str("status") {
        None => JobStep::Wait,
        Some(t) => {
            let state = to_upper(t);
            if str_eq(state.as_str(), "SUCCESS") {
                JobStep::Fetch(copy_str(result_url))
            } else if str_eq(state.as_str(), "ERROR") || str_eq(state.as_str(), "CANCELED") {
                let fault = envelope_err(reply, "failed");
                JobStep::Failed(concat2("LlamaParse parse ", fault.as_str()))
            } else {
                JobStep::Wait
            }
        },
    }
}

/// A job that is waited for.
#[derive(Debug)]
pub struct LlamaJob {
    pub status_url: String,
    pub result_url: String,
    pub polls: usize,
}

impl LlamaJob {
    /// A job whose state was not asked for yet.
    pub fn new(base: &str, job_id: &str) -> (r: LlamaJob)
        ensures
            r.status_url@ == base@ + "/api/parsing/job/"@ + job_id@,
            r.result_url@ == base@ + "/api/parsing/job/"@ + job_id@ + "/result/markdown"@,
            r.polls == 0,
    {
        LlamaJob {
            status_url: concat3(base, "/api/parsing/job/", job_id),
            result_url: concat4(base, "/api/parsing/job/", job_id, "/result/markdown"),
            polls: 0,
        }
    }

    /// Takes the state that the service gave once more.
    pub fn on_status(&mut self, reply: &Json) -> (r: JobStep)
        ensures
            final(self).status_url@ == old(self).status_url@,
            final(self).result_url@ == old(self).result_url@,
            final(self).polls == (if old(self).polls < POLL_MAX_ATTEMPTS {
                old(self).polls + 1
            } else {
                old(self).polls as int
            }),
            r@ == bounded(
                llama_step(reply@, old(self).result_url@),
                final(self).polls as int,
                "LlamaParse parse timed out"@,
            ),
    {
        if self.polls < POLL_MAX_ATTEMPTS {
            self.polls = self.polls + 1;
        }
        match read_llama_step(reply, self.result_url.as_str()) {
            JobStep::Wait => if self.polls >= POLL_MAX_ATTEMPTS {
                JobStep::Failed(copy_str("LlamaParse parse timed out"))
            } else {
                JobStep::Wait
            },
            step => step,
        }
    }
}

/// The Markdown of a result.
pub fn llamaparse_markdown(reply: &Json) -> (r: Result<String, String>)
    ensures
        text_result(r) == (match reply@.field_text("markdown"@) {
            Some(t) => Ok::<Seq<char>, Seq<char>>(t),
            None => Err("LlamaParse result "@ + envelope_text(reply@, ""@)),
        }),
{
    match reply.get_str("markdown") {
        Some(t) => Ok(copy_str(t)),
        None => {
            let fault = envelope_err(reply, "");
            Err(concat2("LlamaParse result ", fault.as_str()))
        },
    }
}

/// A service is found that is switched on and, where one is named, has that name: the
/// first such one.
pub proof fn law_services_are_found(providers: Seq<DocProcessorProvider>, id: Option<Seq<char>>, from: int, i: int)
    requires
        0 <= from <= i <= providers.len(),
        forall|j: int| from <= j < i ==> !((#[trigger] providers[j]).enabled && (id is None || id == Some(providers[j].id@))),
    ensures
        i < providers.len() && (providers[i]).enabled && (id is None || id == Some(providers[i].id@)) ==> service_index(providers, id, from) == Some(i),
        i == providers.len() ==> service_index(providers, id, from) == None::<int>,
    decreases i - from,
{
    if from < i {
        assert(!((providers[from]).enabled && (id is None || id == Some(providers[from].id@))));
        law_services_are_found(providers, id, from + 1, i);
    }
}

/// The key of a service is the first that is not blank.
pub proof fn law_the_first_usable_key_counts(keys: Seq<String>, from: int, i: int)
    requires
        0 <= from <= i <= keys.len(),
        forall|j: int| from <= j < i ==> !(!is_blank_text(#[trigger] keys[j]@)),
    ensures
        i < keys.len() && !is_blank_text(keys[i]@) ==> usable_key(keys, from) == Some(keys[i]@),
        i == keys.len() ==> usable_key(keys, from) == None::<Seq<char>>,
    decreases i - from,
{
    if from < i {
        assert(!(!is_blank_text(keys[from]@)));
        law_the_first_usable_key_counts(keys, from + 1, i);
    }
}

/// An entry is found by the end of its name: the first that has it.
pub proof fn law_entries_are_found_by_their_end(names: Seq<Seq<char>>, end: Seq<char>, from: int, i: int)
    requires
        0 <= from <= i <= names.len(),
        forall|j: int| from <= j < i ==> !(has_suffix(#[trigger] names[j], end)),
    ensures
        i < names.len() && has_suffix(names[i], end) ==> ending_in(names, end, from) == Some(names[i]),
        i == names.len() ==> ending_in(names, end, from) == None::<Seq<char>>,
    decreases i - from,
{
    if from < i {
        assert(!(has_suffix(names[from], end)));
        law_entries_are_found_by_their_end(names, end, from + 1, i);
    }
}

/// Images are recognised; other files go to the service that is chosen and switched on;
/// and without one they are read here, except for a document of pages that is to be
/// scanned again.
pub proof fn law_files_take_their_route(cfg: DocumentProcessingConfig, name: Seq<char>)
    ensures
        ({
            let ext = match extension_of(name) {
                Some(e) => e,
                None => Seq::empty(),
            };
            &&& is_one_of(ext, image_exts()) <==> route_of(cfg, name) is Recognition
            &&& route_of(cfg, name) is Service <==> !is_one_of(ext, image_exts()) && chosen_service(
                cfg,
            ) is Some
            &&& route_of(cfg, name) is Rescan <==> !is_one_of(ext, image_exts()) && chosen_service(
                cfg,
            ) is None && ext == "pdf"@ && cfg.pdf_strategy@ == "force_ocr"@
            &&& cfg.active_processor@.len() == 0 ==> chosen_service(cfg) is None
            &&& cfg.active_processor@.len() > 0 ==> chosen_service(cfg) == service_index(
                cfg.providers@,
                Some(cfg.active_processor@),
                0,
            )
        }),
{
}

/// The base of a service is what is set, without white space around it and slashes at its
/// end, or the usual one where nothing is set.
pub proof fn law_bases_are_what_is_set(base_url: Seq<char>, default: Seq<char>)
    ensures
        is_blank_text(base_url) ==> base_of(base_url, default) == default,
        !is_blank_text(base_url) && trimmed(base_url).last() != '/' ==> base_of(base_url, default)
            == trimmed(base_url),
{
    let t = trimmed(base_url);
    if !is_blank_text(base_url) && t.last() != '/' {
        let slash = crate::text::among(seq!['/']);
        if slash(t.last()) {
            let i = choose|i: int| 0 <= i < seq!['/'].len() && seq!['/'][i] == t.last();
            assert(seq!['/'][i] == '/');
        }
        assert(without_slashes(t) == t);
    }
}

/// A job is fetched when it is done, fails when it failed, and is waited for else.
pub proof fn law_jobs_end_as_reported(reply: JsonView, items: Seq<JsonView>, result_url: Seq<char>)
    ensures
        reply.path("data"@, "extract_result"@) == Some(JsonView::Array(items)) && items.len() > 0
            ==> (match items[0].field_text("state"@) {
            Some(state) => {
                &&& state == "done"@ && items[0].field_text("full_zip_url"@) is Some ==> mineru_step(
                    reply,
                ) == StepView::Fetch(items[0].field_text("full_zip_url"@)->0)
                &&& state == "done"@ && items[0].field_text("full_zip_url"@) is None ==> mineru_step(
                    reply,
                ) is Failed
                &&& state == "failed"@ ==> mineru_step(reply) is Failed
                &&& state != "done"@ && state != "failed"@ ==> mineru_step(reply) is Wait
            },
            None => mineru_step(reply) is Wait,
        }),
        match reply.field_text("status"@) {
            Some(t) => {
                &&& upper(t) == "SUCCESS"@ ==> llama_step(reply, result_url) == StepView::Fetch(
                    result_url,
                )
                &&& upper(t) == "ERROR"@ || upper(t) == "CANCELED"@ ==> llama_step(
                    reply,
                    result_url,
                ) is Failed
                &&& upper(t) != "SUCCESS"@ && upper(t) != "ERROR"@ && upper(t) != "CANCELED"@
                    ==> llama_step(reply, result_url) is Wait
            },
            None => llama_step(reply, result_url) is Wait,
        },
{
    reveal_strlit("done");
    reveal_strlit("failed");
    assert("done"@.len() == 4);
    assert("failed"@.len() == 6);
    reveal_strlit("SUCCESS");
    reveal_strlit("ERROR");
    reveal_strlit("CANCELED");
    assert("SUCCESS"@.len() == 7);
    assert("ERROR"@.len() == 5);
    assert("CANCELED"@.len() == 8);
}

/// The markdown of an archive is its entry `full.md`, or else the first that ends in
/// `.md`.
pub proof fn law_the_full_markdown_comes_first(names: Seq<Seq<char>>, i: int)
    requires
        0 <= i < names.len(),
        forall|j: int| 0 <= j < i ==> !has_suffix(#[trigger] names[j], "full.md"@),
    ensures
        has_suffix(names[i], "full.md"@) ==> markdown_entry(names) == Some(names[i]),
        (forall|j: int| 0 <= j < names.len() ==> !has_suffix(#[trigger] names[j], "full.md"@)) && (
        forall|j: int| 0 <= j < i ==> !has_suffix(#[trigger] names[j], ".md"@)) && has_suffix(
            names[i],
            ".md"@,
        ) ==> markdown_entry(names) == Some(names[i]),
{
    law_entries_are_found_by_their_end(names, "full.md"@, 0, i);
    if forall|j: int| 0 <= j < names.len() ==> !has_suffix(#[trigger] names[j], "full.md"@) {
        law_entries_are_found_by_their_end(names, "full.md"@, 0, names.len() as int);
        if forall|j: int| 0 <= j < i ==> !has_suffix(#[trigger] names[j], ".md"@) {
            law_entries_are_found_by_their_end(names, ".md"@, 0, i);
        }
    }
}

/// An upload goes to the first place that is given, under the batch that is given.
pub proof fn law_uploads_go_where_told(reply: JsonView, batch: Seq<char>, url: Seq<char>)
    requires
        reply.path("data"@, "batch_id"@) == Some(JsonView::Str(batch)),
        reply.path("data"@, "file_urls"@) is Some,
        (reply.path("data"@, "file_urls"@)->0).items() is Some,
        ((reply.path("data"@, "file_urls"@)->0).items()->0).len() > 0,
        ((reply.path("data"@, "file_urls"@)->0).items()->0)[0] == JsonView::Str(url),
    ensures
        mineru_place(reply) == Ok::<(Seq<char>, Seq<char>), Seq<char>>((batch, url)),
{
}

/// Where reading here fails, the first service that is switched on takes over, if that is
/// wanted; and else the error is told.
pub proof fn law_services_take_over(
    cfg: DocumentProcessingConfig,
    doc: ParsedView,
    error: Seq<char>,
    r: AfterBuiltIn,
)
    ensures
        after_built_in(cfg, Ok(doc), r) ==> r is Done,
        !cfg.fallback_to_third_party && after_built_in(cfg, Err(error), r) ==> r is Failed,
        cfg.fallback_to_third_party && after_built_in(cfg, Err(error), r) ==> (r is Service
            <==> service_index(cfg.providers@, None, 0) is Some),
{
}

/// The text of an archive is that of its markdown; an archive that cannot be opened, or
/// has none, is an error.
pub proof fn law_archives_give_their_markdown(data: Seq<u8>, name: Seq<char>)
    ensures
        zip_fault(data) is Some ==> archive_markdown(data) is Err,
        zip_fault(data) is None && markdown_entry(entry_names(data, zip_count(data) as int))
            is None ==> archive_markdown(data) is Err,
        zip_fault(data) is None && markdown_entry(entry_names(data, zip_count(data) as int))
            == Some(name) ==> (match zip_text(data, name) {
            Ok(Ok(text)) => archive_markdown(data) == Ok::<Seq<char>, Seq<char>>(text),
            _ => archive_markdown(data) is Err,
        }),
{
}

/// The names of the entries are all the names that there are, in order.
pub proof fn law_entry_names_stay_in_order(data: Seq<u8>, n: int, i: int)
    requires
        0 <= i < n,
        zip_name(data, i) is Some,
    ensures
        entry_names(data, n).contains(zip_name(data, i)->0),
        entry_names(data, i).len() <= entry_names(data, n).len(),
        entry_names(data, n).take(entry_names(data, i).len() as int) == entry_names(data, i),
    decreases n,
{
    let before = entry_names(data, n - 1);
    let all = entry_names(data, n);
    if i < n - 1 {
        law_entry_names_stay_in_order(data, n - 1, i);
        let x = zip_name(data, i)->0;
        let k = choose|k: int| 0 <= k < before.len() && before[k] == x;
        assert(all[k] == x);
        assert(all.take(entry_names(data, i).len() as int) =~= before.take(
            entry_names(data, i).len() as int,
        ));
    } else {
        assert(all.last() == zip_name(data, i)->0);
        assert(all.take(before.len() as int) =~= before);
    }
}

} // verus!
