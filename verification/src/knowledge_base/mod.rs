//! Libraries of documents that are searched by meaning.
//!
//! The records of libraries and documents, and what is done to them. Reading and
//! writing them is the caller's.

use vstd::prelude::*;

use crate::clock::{now_millis, now_timestamp};
use crate::settings::provider_index;
use crate::settings::{find_provider, ModelProvider};
use crate::text::{
    chars_of, concat2, concat3, concat5, copy_opt, copy_str, hexadecimal_of, is_ascii_alphanumeric,
    is_blank, join, list_contains, starts_with, str_eq, trim,
};
use crate::text::{
    ascii_alphanumeric, has_prefix, hex_char, hexadecimal, is_blank_text, joined, opt_text,
    strings, trimmed,
};

pub mod chunking;
pub mod embeddings;
pub mod ingest;
pub mod parse;
pub mod process;
pub mod store;

verus! {

/// A library. `embedding_dim` is 0 until the first chunk is indexed.
#[derive(Debug)]
pub struct KnowledgeLibrary {
    pub id: String,
    pub name: String,
    pub embedding_provider_id: String,
    pub embedding_model: String,
    pub embedding_dim: usize,
    pub created_at: i64,
    pub updated_at: i64,
    pub doc_count: usize,
    pub chunk_count: usize,
}

/// The value of a library.
#[verifier::ext_equal]
pub struct LibraryView {
    pub id: Seq<char>,
    pub name: Seq<char>,
    pub embedding_provider_id: Seq<char>,
    pub embedding_model: Seq<char>,
    pub embedding_dim: usize,
    pub created_at: i64,
    pub updated_at: i64,
    pub doc_count: usize,
    pub chunk_count: usize,
}

impl View for KnowledgeLibrary {
    type V = LibraryView;

    open spec fn view(&self) -> LibraryView {
        LibraryView {
            id: self.id@,
            name: self.name@,
            embedding_provider_id: self.embedding_provider_id@,
            embedding_model: self.embedding_model@,
            embedding_dim: self.embedding_dim,
            created_at: self.created_at,
            updated_at: self.updated_at,
            doc_count: self.doc_count,
            chunk_count: self.chunk_count,
        }
    }
}

impl KnowledgeLibrary {
    /// A copy of the library.
    pub fn copy(&self) -> (r: KnowledgeLibrary)
        ensures
            r@ == self@,
    {
        KnowledgeLibrary {
            id: self.id.clone(),
            name: self.name.clone(),
            embedding_provider_id: self.embedding_provider_id.clone(),
            embedding_model: self.embedding_model.clone(),
            embedding_dim: self.embedding_dim,
            created_at: self.created_at,
            updated_at: self.updated_at,
            doc_count: self.doc_count,
            chunk_count: self.chunk_count,
        }
    }
}

/// The values of the libraries, in order.
pub open spec fn library_views(v: Seq<KnowledgeLibrary>) -> Seq<LibraryView> {
    Seq::new(v.len(), |i: int| v[i]@)
}

/// How far a document has come.
#[derive(Debug, Clone, Copy, PartialEq, Eq, Structural)]
pub enum DocStatus {
    Indexing,
    Ready,
    Error,
}

/// A document of a library.
#[derive(Debug)]
pub struct KnowledgeDocument {
    pub id: String,
    pub name: String,
    pub size_bytes: u64,
    pub hash: String,
    pub chunk_count: usize,
    pub status: DocStatus,
    pub error: Option<String>,
    pub created_at: i64,
}

/// The value of a document.
#[verifier::ext_equal]
pub struct DocumentView {
    pub id: Seq<char>,
    pub name: Seq<char>,
    pub size_bytes: u64,
    pub hash: Seq<char>,
    pub chunk_count: usize,
    pub status: DocStatus,
    pub error: Option<Seq<char>>,
    pub created_at: i64,
}

impl View for KnowledgeDocument {
    type V = DocumentView;

    open spec fn view(&self) -> DocumentView {
        DocumentView {
            id: self.id@,
            name: self.name@,
            size_bytes: self.size_bytes,
            hash: self.hash@,
            chunk_count: self.chunk_count,
            status: self.status,
            error: opt_text(self.error),
            created_at: self.created_at,
        }
    }
}

/// The values of the documents, in order.
pub open spec fn document_views(v: Seq<KnowledgeDocument>) -> Seq<DocumentView> {
    Seq::new(v.len(), |i: int| v[i]@)
}

/// One indexed chunk. The numbers of `embedding` are the bits of the vector's
/// single-precision components.
#[derive(Debug)]
pub struct KnowledgeChunk {
    pub id: String,
    pub doc_id: String,
    pub doc_name: String,
    pub text: String,
    pub heading_path: Option<String>,
    pub page: Option<usize>,
    pub char_start: usize,
    pub char_end: usize,
    pub order_index: usize,
    pub embedding: Vec<u32>,
}

/// The value of a chunk.
#[verifier::ext_equal]
pub struct ChunkView {
    pub id: Seq<char>,
    pub doc_id: Seq<char>,
    pub doc_name: Seq<char>,
    pub text: Seq<char>,
    pub heading_path: Option<Seq<char>>,
    pub page: Option<usize>,
    pub char_start: int,
    pub char_end: int,
    pub order_index: int,
    pub embedding: Seq<u32>,
}

impl View for KnowledgeChunk {
    type V = ChunkView;

    open spec fn view(&self) -> ChunkView {
        ChunkView {
            id: self.id@,
            doc_id: self.doc_id@,
            doc_name: self.doc_name@,
            text: self.text@,
            heading_path: opt_text(self.heading_path),
            page: self.page,
            char_start: self.char_start as int,
            char_end: self.char_end as int,
            order_index: self.order_index as int,
            embedding: self.embedding@,
        }
    }
}

/// The values of the chunks, in order.
pub open spec fn chunk_views(v: Seq<KnowledgeChunk>) -> Seq<ChunkView> {
    Seq::new(v.len(), |i: int| v[i]@)
}

/// A chunk that a search found, and in which library. The greater `score`, the
/// better the chunk fits.
#[derive(Debug)]
pub struct ScoredChunk {
    pub kb_id: String,
    pub score: i64,
    pub chunk: KnowledgeChunk,
}

/// The value of a chunk that a search found.
#[verifier::ext_equal]
pub struct ScoredView {
    pub kb_id: Seq<char>,
    pub score: i64,
    pub chunk: ChunkView,
}

impl View for ScoredChunk {
    type V = ScoredView;

    open spec fn view(&self) -> ScoredView {
        ScoredView { kb_id: self.kb_id@, score: self.score, chunk: self.chunk@ }
    }
}

/// The values of the found chunks, in order.
pub open spec fn scored_views(v: Seq<ScoredChunk>) -> Seq<ScoredView> {
    Seq::new(v.len(), |i: int| v[i]@)
}

// ---------------------------------------------------------------------
// Identifiers
// ---------------------------------------------------------------------

/// The identifier of a prefix, a time and a counter.
pub open spec fn id_of(prefix: Seq<char>, millis: u64, n: u64) -> Seq<char> {
    prefix + "_"@ + hexadecimal(millis as nat) + "_"@ + hexadecimal(n as nat)
}

/// The identifier of a prefix, a time and a counter. A time before 1970 counts as
/// the number that its bits are.
pub fn make_id(prefix: &str, millis: i64, n: u64) -> (r: String)
    ensures
        r@ == id_of(prefix@, millis as u64, n),
{
    let time = hexadecimal_of(millis as u64);
    let count = hexadecimal_of(n);
    concat5(prefix, "_", time.as_str(), "_", count.as_str())
}

/// A new identifier: the prefix, the time and a counter that the caller never
/// uses twice.
pub fn gen_id(prefix: &str, n: u64) -> (r: String)
    ensures
        exists|millis: u64| r@ == #[trigger] id_of(prefix@, millis, n),
{
    make_id(prefix, now_millis(), n)
}

proof fn lemma_hex_digits(n: nat)
    ensures
        hexadecimal(n).len() > 0,
        forall|i: int| 0 <= i < hexadecimal(n).len() ==> #[trigger] hexadecimal(n)[i] != '_',
    decreases n,
{
    if n >= 16 {
        lemma_hex_digits(n / 16);
    }
}

proof fn lemma_hex_injective(a: nat, b: nat)
    requires
        hexadecimal(a) == hexadecimal(b),
    ensures
        a == b,
    decreases a,
{
    lemma_hex_digits(a / 16);
    lemma_hex_digits(b / 16);
    let x = hexadecimal(a);
    assert(x.last() == hex_char(a % 16));
    assert(hexadecimal(b).last() == hex_char(b % 16));
    assert(a % 16 == b % 16);
    if a < 16 {
        assert(x.len() == 1);
        assert(b < 16);
    } else {
        assert(x.len() > 1);
        assert(b >= 16);
        assert(x.drop_last() =~= hexadecimal(a / 16));
        assert(hexadecimal(b).drop_last() =~= hexadecimal(b / 16));
        lemma_hex_injective(a / 16, b / 16);
    }
}

/// Two identifiers of one prefix are the same only where both the time and the
/// counter are: the separator keeps the two numbers apart.
pub proof fn law_ids_differ(prefix: Seq<char>, m1: u64, n1: u64, m2: u64, n2: u64)
    requires
        id_of(prefix, m1, n1) == id_of(prefix, m2, n2),
    ensures
        m1 == m2,
        n1 == n2,
{
    reveal_strlit("_");
    let a1 = hexadecimal(m1 as nat);
    let b1 = hexadecimal(n1 as nat);
    let a2 = hexadecimal(m2 as nat);
    let b2 = hexadecimal(n2 as nat);
    let x = id_of(prefix, m1, n1);
    let y = id_of(prefix, m2, n2);
    let p = prefix.len() as int + 1;
    lemma_hex_digits(m1 as nat);
    lemma_hex_digits(m2 as nat);
    assert(x[p + a1.len()] == '_');
    assert(y[p + a2.len()] == '_');
    assert(forall|i: int| 0 <= i < a1.len() ==> x[p + i] == #[trigger] a1[i]);
    assert(forall|i: int| 0 <= i < a2.len() ==> y[p + i] == #[trigger] a2[i]);
    if a1.len() < a2.len() {
        assert(y[p + a1.len()] == a2[a1.len() as int]);
    }
    if a2.len() < a1.len() {
        assert(x[p + a2.len()] == a1[a2.len() as int]);
    }
    assert(a1 =~= x.subrange(p, p + a1.len()));
    assert(a2 =~= y.subrange(p, p + a2.len()));
    assert(b1 =~= x.skip(p + a1.len() + 1));
    assert(b2 =~= y.skip(p + a2.len() + 1));
    lemma_hex_injective(m1 as nat, m2 as nat);
    lemma_hex_injective(n1 as nat, n2 as nat);
}

/// A character that an identifier may hold.
pub open spec fn id_char(c: char) -> bool {
    ascii_alphanumeric(c) || c == '_' || c == '-'
}

/// An identifier of a library: `kb_` and more, of plain characters.
pub open spec fn valid_kb_id(id: Seq<char>) -> bool {
    &&& has_prefix(id, "kb_"@)
    &&& id.len() > 3
    &&& forall|i: int| 0 <= i < id.len() ==> id_char(#[trigger] id[i])
}

/// What is said of an identifier that is none.
pub open spec fn invalid_id_text(id: Seq<char>) -> Seq<char> {
    "Invalid knowledge base id: "@ + id
}

/// Refuses what is no identifier of a library.
pub fn validate_kb_id(id: &str) -> (r: Result<(), String>)
    ensures
        match r {
            Ok(_) => valid_kb_id(id@),
            Err(e) => !valid_kb_id(id@) && e@ == invalid_id_text(id@),
        },
{
    let v = chars_of(id);
    let mut i: usize = 0;
    let mut plain = true;
    while i < v.len()
        invariant
            i <= v@.len(),
            v@ == id@,
            plain == (forall|j: int| 0 <= j < i ==> id_char(#[trigger] v@[j])),
        decreases v@.len() - i,
    {
        let c = v[i];
        if !(is_ascii_alphanumeric(c) || c == '_' || c == '-') {
            assert(!id_char(v@[i as int]));
            plain = false;
        }
        i += 1;
    }
    if starts_with(id, "kb_") && v.len() > 3 && plain {
        Ok(())
    } else {
        Err(concat2("Invalid knowledge base id: ", id))
    }
}

proof fn lemma_hex_plain(n: nat)
    ensures
        forall|i: int|
            0 <= i < hexadecimal(n).len() ==> id_char(#[trigger] hexadecimal(n)[i]),
    decreases n,
{
    assert(id_char(hex_char(n % 16)));
    if n >= 16 {
        lemma_hex_plain(n / 16);
        let before = hexadecimal(n / 16);
        assert forall|i: int| 0 <= i < hexadecimal(n).len() implies id_char(
            #[trigger] hexadecimal(n)[i],
        ) by {
            if i < before.len() {
                assert(hexadecimal(n)[i] == before[i]);
            }
        }
    }
}

/// Every identifier that is made with the prefix `kb` is one of a library.
pub proof fn law_new_library_ids_are_valid(millis: u64, n: u64)
    ensures
        valid_kb_id(id_of("kb"@, millis, n)),
{
    reveal_strlit("kb");
    reveal_strlit("kb_");
    reveal_strlit("_");
    lemma_hex_digits(millis as nat);
    lemma_hex_plain(millis as nat);
    lemma_hex_plain(n as nat);
    let id = id_of("kb"@, millis, n);
    let h = hexadecimal(millis as nat);
    let g = hexadecimal(n as nat);
    assert(id.take(3) =~= "kb_"@);
    assert forall|i: int| 0 <= i < id.len() implies id_char(#[trigger] id[i]) by {
        if i >= 3 && i < 3 + h.len() {
            assert(id[i] == h[i - 3]);
        } else if i > 3 + h.len() {
            assert(id[i] == g[i - 4 - h.len()]);
        }
    }
}

// ---------------------------------------------------------------------
// The list of libraries
// ---------------------------------------------------------------------

/// The first library with the identifier, from `from` on.
pub open spec fn library_index(libs: Seq<LibraryView>, id: Seq<char>, from: int) -> Option<int>
    decreases libs.len() - from,
{
    if from < 0 || from >= libs.len() {
        None
    } else if libs[from].id == id {
        Some(from)
    } else {
        library_index(libs, id, from + 1)
    }
}

fn find_library(libs: &Vec<KnowledgeLibrary>, id: &str) -> (r: Option<usize>)
    ensures
        match r {
            Some(i) => i < libs@.len() && library_index(library_views(libs@), id@, 0) == Some(
                i as int,
            ),
            None => library_index(library_views(libs@), id@, 0) is None,
        },
{
    let ghost all = library_views(libs@);
    let mut i: usize = 0;
    while i < libs.len()
        invariant
            i <= libs@.len(),
            all == library_views(libs@),
            library_index(all, id@, 0) == library_index(all, id@, i as int),
        decreases libs@.len() - i,
    {
        assert(all[i as int] == libs@[i as int]@);
        if str_eq(libs[i].id.as_str(), id) {
            return Some(i);
        }
        i += 1;
    }
    None
}

/// What is said where there is no library with the identifier.
pub open spec fn not_found_text(id: Seq<char>) -> Seq<char> {
    "Knowledge base not found: "@ + id
}

fn not_found(id: &str) -> (r: String)
    ensures
        r@ == not_found_text(id@),
{
    concat2("Knowledge base not found: ", id)
}

/// A library or an error, as values.
pub open spec fn library_result(r: Result<KnowledgeLibrary, String>) -> Result<LibraryView, Seq<char>> {
    match r {
        Ok(lib) => Ok(lib@),
        Err(e) => Err(e@),
    }
}

/// The library with the identifier.
pub open spec fn library_of(libs: Seq<LibraryView>, id: Seq<char>) -> Result<LibraryView, Seq<char>> {
    match library_index(libs, id, 0) {
        Some(i) => Ok(libs[i]),
        None => Err(not_found_text(id)),
    }
}

/// The library with the identifier.
pub fn get_library_at(libs: &Vec<KnowledgeLibrary>, kb_id: &str) -> (r: Result<
    KnowledgeLibrary,
    String,
>)
    ensures
        library_result(r) == library_of(library_views(libs@), kb_id@),
{
    match find_library(libs, kb_id) {
        Some(i) => Ok(libs[i].copy()),
        None => Err(not_found(kb_id)),
    }
}

/// The library with the identifier, which must be a valid one.
pub fn get_library(libs: &Vec<KnowledgeLibrary>, kb_id: &str) -> (r: Result<KnowledgeLibrary, String>)
    ensures
        library_result(r) == (if valid_kb_id(kb_id@) {
            library_of(library_views(libs@), kb_id@)
        } else {
            Err(invalid_id_text(kb_id@))
        }),
{
    match validate_kb_id(kb_id) {
        Ok(_) => get_library_at(libs, kb_id),
        Err(e) => Err(e),
    }
}

/// A new library, where its name, provider and model are not blank.
pub open spec fn new_library(
    name: Seq<char>,
    provider_id: Seq<char>,
    model: Seq<char>,
    id: Seq<char>,
    now: i64,
) -> Result<LibraryView, Seq<char>> {
    if is_blank_text(name) {
        Err("Knowledge base name is empty"@)
    } else if is_blank_text(provider_id) || is_blank_text(model) {
        Err("Embedding provider and model are required"@)
    } else {
        Ok(
            LibraryView {
                id,
                name: trimmed(name),
                embedding_provider_id: provider_id,
                embedding_model: model,
                embedding_dim: 0,
                created_at: now,
                updated_at: now,
                doc_count: 0,
                chunk_count: 0,
            },
        )
    }
}

/// Puts a new library with the identifier behind the others.
pub fn create_library_with(
    libs: &mut Vec<KnowledgeLibrary>,
    name: &str,
    provider_id: &str,
    model: &str,
    id: String,
    now: i64,
) -> (r: Result<KnowledgeLibrary, String>)
    ensures
        library_result(r) == new_library(name@, provider_id@, model@, id@, now),
        library_views(final(libs)@) == (match r {
            Ok(lib) => library_views(old(libs)@).push(lib@),
            Err(_) => library_views(old(libs)@),
        }),
{
    if is_blank(name) {
        return Err(copy_str("Knowledge base name is empty"));
    }
    if is_blank(provider_id) || is_blank(model) {
        return Err(copy_str("Embedding provider and model are required"));
    }
    let lib = KnowledgeLibrary {
        id,
        name: trim(name),
        embedding_provider_id: copy_str(provider_id),
        embedding_model: copy_str(model),
        embedding_dim: 0,
        created_at: now,
        updated_at: now,
        doc_count: 0,
        chunk_count: 0,
    };
    let kept = lib.copy();
    libs.push(kept);
    assert(library_views(libs@) =~= library_views(old(libs)@).push(lib@));
    Ok(lib)
}

/// Puts a new library behind the others; `n` is a counter that the caller never
/// uses twice.
pub fn create_library(
    libs: &mut Vec<KnowledgeLibrary>,
    name: &str,
    provider_id: &str,
    model: &str,
    n: u64,
) -> (r: Result<KnowledgeLibrary, String>)
    ensures
        exists|millis: u64, now: i64|
            library_result(r) == #[trigger] new_library(
                name@,
                provider_id@,
                model@,
                id_of("kb"@, millis, n),
                now,
            ),
        library_views(final(libs)@) == (match r {
            Ok(lib) => library_views(old(libs)@).push(lib@),
            Err(_) => library_views(old(libs)@),
        }),
{
    let id = gen_id("kb", n);
    let now = now_timestamp();
    let ghost made = id@;
    let r = create_library_with(libs, name, provider_id, model, id, now);
    proof {
        let millis = choose|millis: u64| made == #[trigger] id_of("kb"@, millis, n);
        assert(library_result(r) == new_library(
            name@,
            provider_id@,
            model@,
            id_of("kb"@, millis, n),
            now,
        ));
    }
    r
}

/// What is said of a provider that is not saved.
pub open spec fn unsaved_provider_text(provider_id: Seq<char>) -> Seq<char> {
    "供应商「"@ + provider_id + "」尚未保存或不存在，请先在「设置」中保存该供应商再建库。"@
}

/// Refuses a provider that is not among the saved ones.
pub fn check_provider_saved(providers: &Vec<ModelProvider>, provider_id: &str) -> (r: Result<
    (),
    String,
>)
    ensures
        match r {
            Ok(_) => provider_index(providers@, provider_id@, 0) is Some,
            Err(e) => provider_index(providers@, provider_id@, 0) is None && e@
                == unsaved_provider_text(provider_id@),
        },
{
    match find_provider(providers, provider_id) {
        Some(_) => Ok(()),
        None => Err(
            concat3(
                "供应商「",
                provider_id,
                "」尚未保存或不存在，请先在「设置」中保存该供应商再建库。",
            ),
        ),
    }
}

fn put_library(libs: &mut Vec<KnowledgeLibrary>, i: usize, lib: KnowledgeLibrary)
    requires
        i < old(libs)@.len(),
    ensures
        library_views(final(libs)@) == library_views(old(libs)@).update(i as int, lib@),
{
    libs.set(i, lib);
    assert(library_views(libs@) =~= library_views(old(libs)@).update(i as int, lib@));
}

/// A result without a value, as a value.
pub open spec fn done_result(r: Result<(), String>) -> Result<(), Seq<char>> {
    match r {
        Ok(_) => Ok(()),
        Err(e) => Err(e@),
    }
}

/// The list after a library was renamed.
pub open spec fn renamed(libs: Seq<LibraryView>, id: Seq<char>, name: Seq<char>, now: i64) -> Result<
    Seq<LibraryView>,
    Seq<char>,
> {
    if is_blank_text(name) {
        Err("Knowledge base name is empty"@)
    } else {
        match library_index(libs, id, 0) {
            None => Err(not_found_text(id)),
            Some(i) => Ok(
                libs.update(
                    i,
                    LibraryView { name: trimmed(name), updated_at: now, ..libs[i] },
                ),
            ),
        }
    }
}

/// The list after a change: what the change gives, or the list as it was.
pub open spec fn changed(
    before: Seq<LibraryView>,
    outcome: Result<Seq<LibraryView>, Seq<char>>,
    after: Seq<LibraryView>,
    r: Result<(), String>,
) -> bool {
    match outcome {
        Ok(libs) => r is Ok && after == libs,
        Err(e) => r is Err && r->Err_0@ == e && after == before,
    }
}

/// Renames a library.
pub fn rename_library_at(
    libs: &mut Vec<KnowledgeLibrary>,
    kb_id: &str,
    name: &str,
    now: i64,
) -> (r: Result<(), String>)
    ensures
        changed(
            library_views(old(libs)@),
            renamed(library_views(old(libs)@), kb_id@, name@, now),
            library_views(final(libs)@),
            r,
        ),
{
    if is_blank(name) {
        return Err(copy_str("Knowledge base name is empty"));
    }
    let i = match find_library(libs, kb_id) {
        Some(i) => i,
        None => {
            return Err(not_found(kb_id));
        },
    };
    assert(library_views(libs@)[i as int] == libs@[i as int]@);
    let mut lib = libs[i].copy();
    lib.name = trim(name);
    lib.updated_at = now;
    put_library(libs, i, lib);
    Ok(())
}

/// Renames a library with a valid identifier, now.
pub fn rename_library(libs: &mut Vec<KnowledgeLibrary>, kb_id: &str, name: &str) -> (r: Result<
    (),
    String,
>)
    ensures
        !valid_kb_id(kb_id@) ==> done_result(r) == Err::<(), Seq<char>>(invalid_id_text(kb_id@))
            && library_views(final(libs)@) == library_views(old(libs)@),
        valid_kb_id(kb_id@) ==> exists|now: i64|
            changed(
                library_views(old(libs)@),
                #[trigger] renamed(library_views(old(libs)@), kb_id@, name@, now),
                library_views(final(libs)@),
                r,
            ),
{
    match validate_kb_id(kb_id) {
        Ok(_) => rename_library_at(libs, kb_id, name, now_timestamp()),
        Err(e) => Err(e),
    }
}

/// The libraries without those with the identifier.
pub open spec fn without_library(libs: Seq<LibraryView>, id: Seq<char>) -> Seq<LibraryView>
    decreases libs.len(),
{
    if libs.len() == 0 {
        Seq::empty()
    } else {
        let before = without_library(libs.drop_last(), id);
        if libs.last().id == id {
            before
        } else {
            before.push(libs.last())
        }
    }
}

/// The list after a library was deleted.
pub open spec fn deleted(libs: Seq<LibraryView>, id: Seq<char>) -> Result<
    Seq<LibraryView>,
    Seq<char>,
> {
    match library_index(libs, id, 0) {
        None => Err(not_found_text(id)),
        Some(_) => Ok(without_library(libs, id)),
    }
}

/// Deletes a library.
pub fn delete_library_at(libs: &mut Vec<KnowledgeLibrary>, kb_id: &str) -> (r: Result<(), String>)
    ensures
        changed(
            library_views(old(libs)@),
            deleted(library_views(old(libs)@), kb_id@),
            library_views(final(libs)@),
            r,
        ),
{
    match find_library(libs, kb_id) {
        Some(_) => {},
        None => {
            return Err(not_found(kb_id));
        },
    }
    let ghost all = library_views(libs@);
    let mut kept: Vec<KnowledgeLibrary> = Vec::new();
    let mut i: usize = 0;
    assert(all.take(0) =~= Seq::<LibraryView>::empty());
    assert(library_views(kept@) =~= Seq::<LibraryView>::empty());
    while i < libs.len()
        invariant
            i <= libs@.len(),
            all == library_views(libs@),
            library_views(kept@) == without_library(all.take(i as int), kb_id@),
        decreases libs@.len() - i,
    {
        assert(all.take(i + 1).drop_last() =~= all.take(i as int));
        assert(all.take(i + 1).last() == libs@[i as int]@);
        if !str_eq(libs[i].id.as_str(), kb_id) {
            let ghost before = kept@;
            let lib = libs[i].copy();
            kept.push(lib);
            assert(library_views(kept@) =~= library_views(before).push(lib@));
        }
        i += 1;
    }
    assert(all.take(all.len() as int) =~= all);
    *libs = kept;
    Ok(())
}

/// Deletes a library with a valid identifier.
pub fn delete_library(libs: &mut Vec<KnowledgeLibrary>, kb_id: &str) -> (r: Result<(), String>)
    ensures
        changed(
            library_views(old(libs)@),
            if valid_kb_id(kb_id@) {
                deleted(library_views(old(libs)@), kb_id@)
            } else {
                Err(invalid_id_text(kb_id@))
            },
            library_views(final(libs)@),
            r,
        ),
{
    match validate_kb_id(kb_id) {
        Ok(_) => delete_library_at(libs, kb_id),
        Err(e) => Err(e),
    }
}

/// A deleted library is found no more, and every other one still is.
pub proof fn law_deleted_libraries_are_gone(libs: Seq<LibraryView>, id: Seq<char>, other: Seq<char>)
    ensures
        library_index(without_library(libs, id), id, 0) is None,
        id != other ==> library_of(without_library(libs, id), other) == library_of(libs, other),
{
    lemma_without_library(libs, id, other);
    lemma_library_index(without_library(libs, id), id, 0);
}

proof fn lemma_library_index(libs: Seq<LibraryView>, id: Seq<char>, from: int)
    requires
        0 <= from <= libs.len(),
    ensures
        match library_index(libs, id, from) {
            Some(i) => from <= i < libs.len() && libs[i].id == id && forall|j: int|
                from <= j < i ==> (#[trigger] libs[j]).id != id,
            None => forall|j: int| from <= j < libs.len() ==> (#[trigger] libs[j]).id != id,
        },
    decreases libs.len() - from,
{
    if from < libs.len() && libs[from].id != id {
        lemma_library_index(libs, id, from + 1);
    }
}

proof fn lemma_without_library(libs: Seq<LibraryView>, id: Seq<char>, other: Seq<char>)
    ensures
        forall|j: int|
            0 <= j < without_library(libs, id).len() ==> (#[trigger] without_library(
                libs,
                id,
            )[j]).id != id,
        id != other ==> library_of(without_library(libs, id), other) == library_of(libs, other),
    decreases libs.len(),
{
    if libs.len() > 0 {
        let start = libs.drop_last();
        lemma_without_library(start, id, other);
        let rest = without_library(start, id);
        assert(libs =~= start.push(libs.last()));
        lemma_index_push(start, libs.last(), other, 0);
        lemma_index_push(rest, libs.last(), other, 0);
    }
}

proof fn lemma_index_push(libs: Seq<LibraryView>, lib: LibraryView, id: Seq<char>, from: int)
    requires
        0 <= from <= libs.len(),
    ensures
        library_index(libs.push(lib), id, from) == (match library_index(libs, id, from) {
            Some(i) => Some(i),
            None => if lib.id == id {
                Some(libs.len() as int)
            } else {
                None
            },
        }),
        library_index(libs, id, from) matches Some(i) ==> from <= i < libs.len() && libs.push(lib)[i]
            == libs[i],
    decreases libs.len() - from,
{
    if from < libs.len() {
        assert(libs.push(lib)[from] == libs[from]);
        lemma_index_push(libs, lib, id, from + 1);
    } else {
        assert(libs.push(lib)[from] == lib);
        assert(library_index(libs.push(lib), id, from + 1) is None);
    }
}

/// The list after the counts of a library and the dimension of its vectors were
/// taken from its store. Without chunks there are no vectors to learn it from.
pub open spec fn counted(
    libs: Seq<LibraryView>,
    id: Seq<char>,
    docs: usize,
    chunks: usize,
    dim: usize,
    now: i64,
) -> Seq<LibraryView> {
    match library_index(libs, id, 0) {
        None => libs,
        Some(i) => libs.update(
            i,
            LibraryView {
                doc_count: docs,
                chunk_count: chunks,
                embedding_dim: if chunks == 0 {
                    libs[i].embedding_dim
                } else {
                    dim
                },
                updated_at: now,
                ..libs[i]
            },
        ),
    }
}

/// Recomputes the counts of a library and its dimension from what its store holds:
/// `docs` documents and `chunks` chunks with vectors of dimension `dim`. Says
/// whether there is a record to be saved.
pub fn refresh_library_counts(
    libs: &mut Vec<KnowledgeLibrary>,
    kb_id: &str,
    docs: usize,
    chunks: usize,
    dim: usize,
    now: i64,
) -> (r: bool)
    ensures
        r == (library_index(library_views(old(libs)@), kb_id@, 0) is Some),
        library_views(final(libs)@) == counted(
            library_views(old(libs)@),
            kb_id@,
            docs,
            chunks,
            dim,
            now,
        ),
{
    match find_library(libs, kb_id) {
        None => false,
        Some(i) => {
            assert(library_views(libs@)[i as int] == libs@[i as int]@);
            let mut lib = libs[i].copy();
            lib.doc_count = docs;
            lib.chunk_count = chunks;
            if chunks != 0 {
                lib.embedding_dim = dim;
            }
            lib.updated_at = now;
            put_library(libs, i, lib);
            true
        },
    }
}

/// A library whose dimension would change.
pub open spec fn learns_dim(libs: Seq<LibraryView>, id: Seq<char>, dim: usize) -> bool {
    dim != 0 && match library_index(libs, id, 0) {
        Some(i) => libs[i].embedding_dim != dim,
        None => false,
    }
}

/// The list after the dimension of a library was learned.
pub open spec fn with_dim(libs: Seq<LibraryView>, id: Seq<char>, dim: usize, now: i64) -> Seq<
    LibraryView,
> {
    match library_index(libs, id, 0) {
        Some(i) => if learns_dim(libs, id, dim) {
            libs.update(i, LibraryView { embedding_dim: dim, updated_at: now, ..libs[i] })
        } else {
            libs
        },
        None => libs,
    }
}

/// Keeps the dimension of a library's vectors; says whether anything changed.
pub fn set_library_dim(libs: &mut Vec<KnowledgeLibrary>, kb_id: &str, dim: usize, now: i64) -> (r: bool)
    ensures
        r == learns_dim(library_views(old(libs)@), kb_id@, dim),
        library_views(final(libs)@) == with_dim(library_views(old(libs)@), kb_id@, dim, now),
{
    if dim == 0 {
        return false;
    }
    match find_library(libs, kb_id) {
        None => false,
        Some(i) => {
            assert(library_views(libs@)[i as int] == libs@[i as int]@);
            if libs[i].embedding_dim == dim {
                return false;
            }
            let mut lib = libs[i].copy();
            lib.embedding_dim = dim;
            lib.updated_at = now;
            put_library(libs, i, lib);
            true
        },
    }
}

/// The list after a library got another embedding model.
pub open spec fn with_embedding(
    libs: Seq<LibraryView>,
    id: Seq<char>,
    provider_id: Seq<char>,
    model: Seq<char>,
    now: i64,
) -> Result<Seq<LibraryView>, Seq<char>> {
    if is_blank_text(provider_id) || is_blank_text(model) {
        Err("Embedding provider and model are required"@)
    } else {
        match library_index(libs, id, 0) {
            None => Err(not_found_text(id)),
            Some(i) => Ok(
                libs.update(
                    i,
                    LibraryView {
                        embedding_provider_id: provider_id,
                        embedding_model: model,
                        embedding_dim: 0,
                        updated_at: now,
                        ..libs[i]
                    },
                ),
            ),
        }
    }
}

/// Gives a library another embedding model; its dimension is to be learned anew.
pub fn update_embedding(
    libs: &mut Vec<KnowledgeLibrary>,
    kb_id: &str,
    provider_id: &str,
    model: &str,
    now: i64,
) -> (r: Result<(), String>)
    ensures
        changed(
            library_views(old(libs)@),
            with_embedding(library_views(old(libs)@), kb_id@, provider_id@, model@, now),
            library_views(final(libs)@),
            r,
        ),
{
    if is_blank(provider_id) || is_blank(model) {
        return Err(copy_str("Embedding provider and model are required"));
    }
    let i = match find_library(libs, kb_id) {
        Some(i) => i,
        None => {
            return Err(not_found(kb_id));
        },
    };
    assert(library_views(libs@)[i as int] == libs@[i as int]@);
    let mut lib = libs[i].copy();
    lib.embedding_provider_id = copy_str(provider_id);
    lib.embedding_model = copy_str(model);
    lib.embedding_dim = 0;
    lib.updated_at = now;
    put_library(libs, i, lib);
    Ok(())
}

// ---------------------------------------------------------------------
// Documents
// ---------------------------------------------------------------------

/// What is said of a document whose indexing was cut off.
pub const INTERRUPTED: &'static str = "索引被中断，请重试 / Indexing was interrupted; please retry";

/// A document after the start of the program: what was being indexed was cut off.
pub open spec fn healed(doc: DocumentView) -> DocumentView {
    if doc.status == DocStatus::Indexing {
        DocumentView { status: DocStatus::Error, error: Some(INTERRUPTED@), ..doc }
    } else {
        doc
    }
}

/// How many of the documents are being indexed.
pub open spec fn stale_count(docs: Seq<DocumentView>) -> nat
    decreases docs.len(),
{
    if docs.len() == 0 {
        0
    } else {
        stale_count(docs.drop_last()) + if docs.last().status == DocStatus::Indexing {
            1nat
        } else {
            0nat
        }
    }
}

/// Marks every document that was being indexed as failed; says how many there
/// were.
pub fn heal_stale_indexing(docs: &mut Vec<KnowledgeDocument>) -> (r: usize)
    ensures
        r == stale_count(document_views(old(docs)@)),
        final(docs)@.len() == old(docs)@.len(),
        forall|i: int|
            0 <= i < old(docs)@.len() ==> (#[trigger] final(docs)@[i])@ == healed(old(docs)@[i]@),
{
    let ghost before = docs@;
    let ghost all = document_views(docs@);
    let mut count: usize = 0;
    let mut i: usize = 0;
    assert(all.take(0) =~= Seq::<DocumentView>::empty());
    while i < docs.len()
        invariant
            i <= docs@.len(),
            count <= i,
            before == old(docs)@,
            docs@.len() == before.len(),
            all == document_views(before),
            count == stale_count(all.take(i as int)),
            forall|j: int| 0 <= j < i ==> (#[trigger] docs@[j])@ == healed(before[j]@),
            forall|j: int| i <= j < before.len() ==> #[trigger] docs@[j] == before[j],
        decreases docs@.len() - i,
    {
        assert(all.take(i + 1).drop_last() =~= all.take(i as int));
        assert(all.take(i + 1).last() == before[i as int]@);
        assert(docs@[i as int] == before[i as int]);
        if docs[i].status == DocStatus::Indexing {
            let doc = KnowledgeDocument {
                id: docs[i].id.clone(),
                name: docs[i].name.clone(),
                size_bytes: docs[i].size_bytes,
                hash: docs[i].hash.clone(),
                chunk_count: docs[i].chunk_count,
                status: DocStatus::Error,
                error: Some(copy_str(INTERRUPTED)),
                created_at: docs[i].created_at,
            };
            assert(doc@ == healed(before[i as int]@));
            docs.set(i, doc);
            count += 1;
        }
        i += 1;
    }
    assert(all.take(all.len() as int) =~= all);
    count
}

/// Healing again changes nothing: no document is being indexed any more.
pub proof fn law_healing_is_idempotent(docs: Seq<DocumentView>)
    ensures
        stale_count(Seq::new(docs.len(), |i: int| healed(docs[i]))) == 0,
        forall|i: int| 0 <= i < docs.len() ==> healed(healed(#[trigger] docs[i])) == healed(docs[i]),
    decreases docs.len(),
{
    let all = Seq::new(docs.len(), |i: int| healed(docs[i]));
    if docs.len() > 0 {
        law_healing_is_idempotent(docs.drop_last());
        assert(all.drop_last() =~= Seq::new(
            docs.drop_last().len(),
            |i: int| healed(docs.drop_last()[i]),
        ));
    }
}

/// A file that is a snapshot of a document.
pub open spec fn snapshot_of(file_name: Seq<char>, doc_id: Seq<char>) -> bool {
    has_prefix(file_name, doc_id + "__"@)
}

/// Whether a file is a snapshot of a document.
pub fn is_snapshot_of(file_name: &str, doc_id: &str) -> (r: bool)
    ensures
        r == snapshot_of(file_name@, doc_id@),
{
    let prefix = concat2(doc_id, "__");
    starts_with(file_name, prefix.as_str())
}

/// What becomes of a request to delete a document: an error where there was none.
pub fn delete_document(removed: bool, doc_id: &str) -> (r: Result<(), String>)
    ensures
        done_result(r) == (if removed {
            Ok::<(), Seq<char>>(())
        } else {
            Err("Document not found: "@ + doc_id@)
        }),
{
    if removed {
        Ok(())
    } else {
        Err(concat2("Document not found: ", doc_id))
    }
}

impl KnowledgeChunk {
    /// A copy of the chunk.
    pub fn copy(&self) -> (r: KnowledgeChunk)
        ensures
            r@ == self@,
    {
        let mut embedding: Vec<u32> = Vec::new();
        let mut i: usize = 0;
        while i < self.embedding.len()
            invariant
                i <= self.embedding@.len(),
                embedding@ == self.embedding@.take(i as int),
            decreases self.embedding@.len() - i,
        {
            embedding.push(self.embedding[i]);
            assert(embedding@ =~= self.embedding@.take(i + 1));
            i += 1;
        }
        assert(self.embedding@.take(self.embedding@.len() as int) =~= self.embedding@);
        KnowledgeChunk {
            id: self.id.clone(),
            doc_id: self.doc_id.clone(),
            doc_name: self.doc_name.clone(),
            text: self.text.clone(),
            heading_path: copy_opt(&self.heading_path),
            page: self.page,
            char_start: self.char_start,
            char_end: self.char_end,
            order_index: self.order_index,
            embedding,
        }
    }
}

/// The documents that chunks belong to, each where it comes first.
pub open spec fn documents_of(chunks: Seq<ChunkView>) -> Seq<Seq<char>>
    decreases chunks.len(),
{
    if chunks.len() == 0 {
        Seq::empty()
    } else {
        let before = documents_of(chunks.drop_last());
        if before.contains(chunks.last().doc_id) {
            before
        } else {
            before.push(chunks.last().doc_id)
        }
    }
}

/// The chunks of one document, in order.
pub open spec fn chunks_of(chunks: Seq<ChunkView>, doc_id: Seq<char>) -> Seq<ChunkView>
    decreases chunks.len(),
{
    if chunks.len() == 0 {
        Seq::empty()
    } else {
        let before = chunks_of(chunks.drop_last(), doc_id);
        if chunks.last().doc_id == doc_id {
            before.push(chunks.last())
        } else {
            before
        }
    }
}

fn copy_chunks_of(chunks: &Vec<KnowledgeChunk>, doc_id: &str) -> (r: Vec<KnowledgeChunk>)
    ensures
        chunk_views(r@) == chunks_of(chunk_views(chunks@), doc_id@),
{
    let ghost all = chunk_views(chunks@);
    let mut out: Vec<KnowledgeChunk> = Vec::new();
    let mut i: usize = 0;
    assert(all.take(0) =~= Seq::<ChunkView>::empty());
    assert(chunk_views(out@) =~= Seq::<ChunkView>::empty());
    while i < chunks.len()
        invariant
            i <= chunks@.len(),
            all == chunk_views(chunks@),
            chunk_views(out@) == chunks_of(all.take(i as int), doc_id@),
        decreases chunks@.len() - i,
    {
        assert(all.take(i + 1).drop_last() =~= all.take(i as int));
        assert(all.take(i + 1).last() == chunks@[i as int]@);
        if str_eq(chunks[i].doc_id.as_str(), doc_id) {
            let ghost before = out@;
            let chunk = chunks[i].copy();
            out.push(chunk);
            assert(chunk_views(out@) =~= chunk_views(before).push(chunk@));
        }
        i += 1;
    }
    assert(all.take(all.len() as int) =~= all);
    out
}

/// The chunks by document, as values.
pub open spec fn grouped(groups: Seq<(String, Vec<KnowledgeChunk>)>, chunks: Seq<ChunkView>) -> bool {
    let ids = documents_of(chunks);
    &&& groups.len() == ids.len()
    &&& forall|i: int|
        0 <= i < ids.len() ==> (#[trigger] groups[i]).0@ == ids[i] && chunk_views(groups[i].1@)
            == chunks_of(chunks, ids[i])
}

/// The chunks by document: each document once, where its first chunk comes, with
/// its chunks in order.
pub fn chunks_by_document(chunks: &Vec<KnowledgeChunk>) -> (r: Vec<(String, Vec<KnowledgeChunk>)>)
    ensures
        grouped(r@, chunk_views(chunks@)),
{
    let ghost all = chunk_views(chunks@);
    let mut ids: Vec<String> = Vec::new();
    let mut i: usize = 0;
    assert(all.take(0) =~= Seq::<ChunkView>::empty());
    assert(strings(ids@) =~= Seq::<Seq<char>>::empty());
    while i < chunks.len()
        invariant
            i <= chunks@.len(),
            all == chunk_views(chunks@),
            strings(ids@) == documents_of(all.take(i as int)),
        decreases chunks@.len() - i,
    {
        assert(all.take(i + 1).drop_last() =~= all.take(i as int));
        assert(all.take(i + 1).last() == chunks@[i as int]@);
        if !list_contains(&ids, chunks[i].doc_id.as_str()) {
            let ghost before = ids@;
            let id = chunks[i].doc_id.clone();
            ids.push(id);
            assert(strings(ids@) =~= strings(before).push(id@));
        }
        i += 1;
    }
    assert(all.take(all.len() as int) =~= all);
    let mut groups: Vec<(String, Vec<KnowledgeChunk>)> = Vec::new();
    let mut k: usize = 0;
    assert(strings(ids@).len() == ids@.len());
    while k < ids.len()
        invariant
            k <= ids@.len(),
            all == chunk_views(chunks@),
            strings(ids@) == documents_of(all),
            strings(ids@).len() == ids@.len(),
            groups@.len() == k,
            forall|j: int|
                0 <= j < k ==> (#[trigger] groups@[j]).0@ == documents_of(all)[j] && chunk_views(
                    groups@[j].1@,
                ) == chunks_of(all, documents_of(all)[j]),
        decreases ids@.len() - k,
    {
        let group = copy_chunks_of(chunks, ids[k].as_str());
        assert(strings(ids@)[k as int] == ids@[k as int]@);
        groups.push((ids[k].clone(), group));
        k += 1;
    }
    groups
}

/// How many chunks belong to the documents of a list.
pub open spec fn held(chunks: Seq<ChunkView>, ids: Seq<Seq<char>>) -> nat
    decreases ids.len(),
{
    if ids.len() == 0 {
        0
    } else {
        held(chunks, ids.drop_last()) + chunks_of(chunks, ids.last()).len()
    }
}

/// Grouping loses no chunk and takes none twice.
pub proof fn law_grouping_keeps_every_chunk(chunks: Seq<ChunkView>)
    ensures
        held(chunks, documents_of(chunks)) == chunks.len(),
        forall|i: int|
            0 <= i < chunks.len() ==> documents_of(chunks).contains(
                (#[trigger] chunks[i]).doc_id,
            ),
        documents_of(chunks).no_duplicates(),
    decreases chunks.len(),
{
    if chunks.len() > 0 {
        let start = chunks.drop_last();
        let ids = documents_of(start);
        let d = chunks.last().doc_id;
        law_grouping_keeps_every_chunk(start);
        lemma_held_step(start, chunks.last(), ids);
        assert(chunks =~= start.push(chunks.last()));
        let whole = documents_of(chunks);
        if !ids.contains(d) {
            assert(whole.drop_last() =~= ids);
            lemma_no_chunks(start, d);
            assert(whole[whole.len() - 1] == d);
        }
        assert forall|i: int| 0 <= i < chunks.len() implies whole.contains(
            (#[trigger] chunks[i]).doc_id,
        ) by {
            if i < start.len() {
                assert(chunks[i] == start[i]);
                let j = choose|j: int| 0 <= j < ids.len() && ids[j] == start[i].doc_id;
                assert(whole[j] == ids[j]);
            }
        }
    }
}

proof fn lemma_no_chunks(chunks: Seq<ChunkView>, d: Seq<char>)
    requires
        forall|i: int| 0 <= i < chunks.len() ==> documents_of(chunks).contains((#[trigger] chunks[i]).doc_id),
        !documents_of(chunks).contains(d),
    ensures
        chunks_of(chunks, d).len() == 0,
{
    assert forall|i: int| 0 <= i < chunks.len() implies (#[trigger] chunks[i]).doc_id != d by {}
    lemma_none_of(chunks, d);
}

proof fn lemma_none_of(chunks: Seq<ChunkView>, d: Seq<char>)
    requires
        forall|i: int| 0 <= i < chunks.len() ==> (#[trigger] chunks[i]).doc_id != d,
    ensures
        chunks_of(chunks, d).len() == 0,
    decreases chunks.len(),
{
    if chunks.len() > 0 {
        assert(chunks.last() == chunks[chunks.len() - 1]);
        lemma_none_of(chunks.drop_last(), d);
    }
}

proof fn lemma_held_step(start: Seq<ChunkView>, chunk: ChunkView, ids: Seq<Seq<char>>)
    requires
        ids.no_duplicates(),
    ensures
        held(start.push(chunk), ids) == held(start, ids) + if ids.contains(chunk.doc_id) {
            1nat
        } else {
            0nat
        },
    decreases ids.len(),
{
    if ids.len() > 0 {
        let rest = ids.drop_last();
        assert(rest.no_duplicates());
        lemma_held_step(start, chunk, rest);
        assert(start.push(chunk).drop_last() =~= start);
        if ids.last() == chunk.doc_id {
            if rest.contains(chunk.doc_id) {
                let j = choose|j: int| 0 <= j < rest.len() && rest[j] == chunk.doc_id;
                assert(ids[j] == ids[ids.len() - 1]);
            }
            assert(ids[ids.len() - 1] == chunk.doc_id);
        } else {
            assert(ids.contains(chunk.doc_id) == rest.contains(chunk.doc_id)) by {
                if ids.contains(chunk.doc_id) {
                    let j = choose|j: int| 0 <= j < ids.len() && ids[j] == chunk.doc_id;
                    assert(rest[j] == chunk.doc_id);
                }
                if rest.contains(chunk.doc_id) {
                    let j = choose|j: int| 0 <= j < rest.len() && rest[j] == chunk.doc_id;
                    assert(ids[j] == chunk.doc_id);
                }
            }
        }
    }
}

// ---------------------------------------------------------------------
// In a conversation
// ---------------------------------------------------------------------

/// The names of the libraries with the identifiers, in the order of the
/// identifiers.
pub open spec fn library_names(libs: Seq<LibraryView>, ids: Seq<Seq<char>>) -> Seq<Seq<char>>
    decreases ids.len(),
{
    if ids.len() == 0 {
        Seq::empty()
    } else {
        let before = library_names(libs, ids.drop_last());
        match library_index(libs, ids.last(), 0) {
            Some(i) => before.push(libs[i].name),
            None => before,
        }
    }
}

pub const MOUNT_ZH_HEAD: &'static str = "本会话已挂载知识库：";

pub const MOUNT_ZH_TAIL: &'static str = "。当用户的问题可能涉及这些文档时，**优先调用 knowledge_search 检索**——文档已在知识库里，不要让用户重新上传文件。用到检索到的片段时，必须在正文中用 [n] 行内标注其来源编号（n 为该工具返回片段前的编号），让用户能溯源；只有检索不到相关内容时才如实说明知识库里没有。";

pub const MOUNT_EN_HEAD: &'static str = "This conversation has knowledge bases attached: ";

pub const MOUNT_EN_TAIL: &'static str = ". When the user's question may relate to these documents, prefer calling knowledge_search first — the documents are already indexed, so do not ask the user to re-upload files. When you use a retrieved passage, cite its source number inline as [n] (the number shown before each returned passage) so the user can trace it; only if nothing relevant is found, say the knowledge base doesn't cover it.";

/// What a model is told of the libraries of a conversation, where there are any.
pub open spec fn mount_prompt(libs: Seq<LibraryView>, ids: Seq<Seq<char>>, language: Seq<char>) -> Option<
    Seq<char>,
> {
    let names = library_names(libs, ids);
    if names.len() == 0 {
        None
    } else if has_prefix(language, "zh"@) {
        Some(MOUNT_ZH_HEAD@ + joined(names, "、"@) + MOUNT_ZH_TAIL@)
    } else {
        Some(MOUNT_EN_HEAD@ + joined(names, ", "@) + MOUNT_EN_TAIL@)
    }
}

/// What a model is told of the libraries of a conversation, where there are any.
pub fn mount_system_prompt(libs: &Vec<KnowledgeLibrary>, kb_ids: &Vec<String>, language: &str) -> (r:
    Option<String>)
    ensures
        opt_text(r) == mount_prompt(library_views(libs@), strings(kb_ids@), language@),
{
    let ghost all = strings(kb_ids@);
    let ghost known = library_views(libs@);
    let mut names: Vec<String> = Vec::new();
    let mut i: usize = 0;
    assert(all.take(0) =~= Seq::<Seq<char>>::empty());
    assert(strings(names@) =~= Seq::<Seq<char>>::empty());
    while i < kb_ids.len()
        invariant
            i <= kb_ids@.len(),
            all == strings(kb_ids@),
            known == library_views(libs@),
            strings(names@) == library_names(known, all.take(i as int)),
        decreases kb_ids@.len() - i,
    {
        assert(all.take(i + 1).drop_last() =~= all.take(i as int));
        assert(all.take(i + 1).last() == kb_ids@[i as int]@);
        if let Some(k) = find_library(libs, kb_ids[i].as_str()) {
            let ghost before = names@;
            let name = libs[k].name.clone();
            assert(known[k as int] == libs@[k as int]@);
            names.push(name);
            assert(strings(names@) =~= strings(before).push(name@));
        }
        i += 1;
    }
    assert(all.take(all.len() as int) =~= all);
    assert(strings(names@).len() == names@.len());
    if names.len() == 0 {
        return None;
    }
    if starts_with(language, "zh") {
        let list = join(&names, "、");
        Some(concat3(MOUNT_ZH_HEAD, list.as_str(), MOUNT_ZH_TAIL))
    } else {
        let list = join(&names, ", ");
        Some(concat3(MOUNT_EN_HEAD, list.as_str(), MOUNT_EN_TAIL))
    }
}

/// What the search in one library gave; nothing where it failed.
#[derive(Debug)]
pub struct LibraryHits {
    pub kb_id: String,
    pub hits: Option<Vec<(KnowledgeChunk, i64)>>,
}

impl LibraryHits {
    /// What the search in the library gave, as values.
    pub open spec fn found(&self) -> Seq<ScoredView> {
        match self.hits {
            Some(hits) => Seq::new(
                hits@.len(),
                |i: int|
                    ScoredView { kb_id: self.kb_id@, score: hits@[i].1, chunk: hits@[i].0@ },
            ),
            None => Seq::empty(),
        }
    }
}

/// What the searches gave, one library after the other; a library whose search
/// failed gives nothing.
pub open spec fn all_hits(results: Seq<LibraryHits>) -> Seq<ScoredView>
    decreases results.len(),
{
    if results.len() == 0 {
        Seq::empty()
    } else {
        all_hits(results.drop_last()) + results.last().found()
    }
}

/// `hits` with `x` after everything that scores at least as much.
pub open spec fn ranked_in(hits: Seq<ScoredView>, x: ScoredView) -> Seq<ScoredView>
    decreases hits.len(),
{
    if hits.len() == 0 || hits.last().score >= x.score {
        hits.push(x)
    } else {
        ranked_in(hits.drop_last(), x).push(hits.last())
    }
}

/// The hits, the best first; among equals the earlier one first.
pub open spec fn ranked(hits: Seq<ScoredView>) -> Seq<ScoredView>
    decreases hits.len(),
{
    if hits.len() == 0 {
        Seq::empty()
    } else {
        ranked_in(ranked(hits.drop_last()), hits.last())
    }
}

/// The best `k` hits.
pub open spec fn best_hits(hits: Seq<ScoredView>, k: int) -> Seq<ScoredView> {
    let all = ranked(hits);
    if all.len() <= k {
        all
    } else {
        all.take(k)
    }
}

fn rank_in(out: &mut Vec<ScoredChunk>, x: ScoredChunk)
    ensures
        scored_views(final(out)@) == ranked_in(scored_views(old(out)@), x@),
{
    let ghost all = scored_views(out@);
    let mut i: usize = out.len();
    assert(all.take(all.len() as int) =~= all);
    assert(all.skip(all.len() as int) =~= Seq::<ScoredView>::empty());
    assert(ranked_in(all, x@) + all.skip(all.len() as int) =~= ranked_in(all, x@));
    while i > 0 && out[i - 1].score < x.score
        invariant
            i <= out@.len(),
            out@ == old(out)@,
            all == scored_views(out@),
            ranked_in(all, x@) == ranked_in(all.take(i as int), x@) + all.skip(i as int),
        decreases i,
    {
        proof {
            assert(all[i - 1] == out@[i - 1]@);
            assert(all.take(i as int).drop_last() =~= all.take(i - 1));
            assert(ranked_in(all.take(i - 1), x@).push(all[i - 1]) + all.skip(i as int)
                =~= ranked_in(all.take(i - 1), x@) + all.skip(i - 1));
        }
        i -= 1;
    }
    proof {
        if i > 0 {
            assert(all[i - 1] == out@[i - 1]@);
            assert(all.take(i as int).last() == all[i - 1]);
        }
        assert(ranked_in(all.take(i as int), x@) == all.take(i as int).push(x@));
    }
    out.insert(i, x);
    assert(scored_views(out@) =~= all.take(i as int).push(x@) + all.skip(i as int));
}

fn rank_library(out: &mut Vec<ScoredChunk>, result: &LibraryHits, Ghost(before): Ghost<Seq<ScoredView>>)
    requires
        scored_views(old(out)@) == ranked(before),
    ensures
        scored_views(final(out)@) == ranked(before + result.found()),
{
    let ghost found = result.found();
    assert(before + found.take(0) =~= before);
    match &result.hits {
        None => {
            assert(before + found =~= before);
        },
        Some(hits) => {
            let mut i: usize = 0;
            while i < hits.len()
                invariant
                    i <= hits@.len(),
                    result.hits == Some(*hits),
                    found == result.found(),
                    scored_views(out@) == ranked(before + found.take(i as int)),
                decreases hits@.len() - i,
            {
                let x = ScoredChunk {
                    kb_id: result.kb_id.clone(),
                    score: hits[i].1,
                    chunk: hits[i].0.copy(),
                };
                assert(found[i as int] == x@);
                assert((before + found.take(i + 1)).drop_last() =~= before + found.take(i as int));
                assert((before + found.take(i + 1)).last() == x@);
                rank_in(out, x);
                i += 1;
            }
            assert(found.take(found.len() as int) =~= found);
        },
    }
}

/// The best `top_k` chunks that the searches in the libraries gave.
pub fn search(results: &Vec<LibraryHits>, top_k: usize) -> (r: Vec<ScoredChunk>)
    ensures
        scored_views(r@) == best_hits(all_hits(results@), top_k as int),
{
    let mut out: Vec<ScoredChunk> = Vec::new();
    let mut i: usize = 0;
    assert(results@.take(0) =~= Seq::<LibraryHits>::empty());
    assert(scored_views(out@) =~= Seq::<ScoredView>::empty());
    while i < results.len()
        invariant
            i <= results@.len(),
            scored_views(out@) == ranked(all_hits(results@.take(i as int))),
        decreases results@.len() - i,
    {
        assert(results@.take(i + 1).drop_last() =~= results@.take(i as int));
        rank_library(&mut out, &results[i], Ghost(all_hits(results@.take(i as int))));
        i += 1;
    }
    assert(results@.take(results@.len() as int) =~= results@);
    let ghost all = scored_views(out@);
    assert(all.len() == out@.len());
    if out.len() > top_k {
        out.truncate(top_k);
        assert(scored_views(out@) =~= all.take(top_k as int));
    }
    out
}

/// A search gives its hits best first, and ranking loses none of them.
pub proof fn law_hits_are_ranked(hits: Seq<ScoredView>)
    ensures
        forall|i: int, j: int|
            0 <= i <= j < ranked(hits).len() ==> ranked(hits)[i].score >= ranked(hits)[j].score,
        ranked(hits).to_multiset() == hits.to_multiset(),
    decreases hits.len(),
{
    broadcast use vstd::seq_lib::group_to_multiset_ensures;

    if hits.len() > 0 {
        law_hits_are_ranked(hits.drop_last());
        lemma_ranked_in(ranked(hits.drop_last()), hits.last());
        assert(hits.drop_last().push(hits.last()) =~= hits);
    }
}

proof fn lemma_ranked_in(hits: Seq<ScoredView>, x: ScoredView)
    requires
        forall|i: int, j: int| 0 <= i <= j < hits.len() ==> hits[i].score >= hits[j].score,
    ensures
        forall|i: int, j: int|
            0 <= i <= j < ranked_in(hits, x).len() ==> ranked_in(hits, x)[i].score >= ranked_in(
                hits,
                x,
            )[j].score,
        ranked_in(hits, x).to_multiset() == hits.to_multiset().insert(x),
    decreases hits.len(),
{
    broadcast use vstd::seq_lib::group_to_multiset_ensures;

    if hits.len() == 0 || hits.last().score >= x.score {
    } else {
        lemma_ranked_in(hits.drop_last(), x);
        assert(hits.drop_last().push(hits.last()) =~= hits);
        let p = ranked_in(hits.drop_last(), x);
        assert(p.to_multiset().insert(hits.last()) =~= hits.to_multiset().insert(x));
        assert forall|a: int| 0 <= a < p.len() implies p[a].score >= hits.last().score by {
            assert(p.to_multiset().contains(p[a]));
            if p[a] != x {
                assert(hits.drop_last().to_multiset().contains(p[a]));
                assert(hits.drop_last().contains(p[a]));
            }
        }
    }
}

/// `x` is the `j`th hit of the `i`th library.
pub open spec fn is_hit(x: ScoredView, results: Seq<LibraryHits>, i: int, j: int) -> bool {
    &&& 0 <= i < results.len()
    &&& results[i].hits is Some
    &&& 0 <= j < (results[i].hits->0)@.len()
    &&& x.kb_id == results[i].kb_id@
    &&& x.score == (results[i].hits->0)@[j].1
    &&& x.chunk == (results[i].hits->0)@[j].0@
}

/// `x` is a hit of one of the libraries.
pub open spec fn is_some_hit(x: ScoredView, results: Seq<LibraryHits>) -> bool {
    exists|i: int, j: int| is_hit(x, results, i, j)
}

/// Every hit of every library is among the hits, under its library; and every one of them
/// is such a hit.
pub proof fn law_every_library_is_searched(results: Seq<LibraryHits>)
    ensures
        forall|x: ScoredView, i: int, j: int| #[trigger]
            is_hit(x, results, i, j) ==> all_hits(results).contains(x),
        forall|k: int|
            0 <= k < all_hits(results).len() ==> is_some_hit(
                #[trigger] all_hits(results)[k],
                results,
            ),
    decreases results.len(),
{
    if results.len() > 0 {
        let front = results.drop_last();
        let last = results.last();
        law_every_library_is_searched(front);
        let before = all_hits(front);
        let all = all_hits(results);
        assert forall|x: ScoredView, i: int, j: int| #[trigger]
            is_hit(x, results, i, j) implies all.contains(x) by {
            if i < front.len() {
                assert(front[i] == results[i]);
                assert(is_hit(x, front, i, j));
                let k = choose|k: int| 0 <= k < before.len() && before[k] == x;
                assert(all[k] == x);
            } else {
                assert(last.found()[j] == x);
                assert(all[before.len() + j] == x);
            }
        }
        assert forall|k: int| 0 <= k < all.len() implies is_some_hit(
            #[trigger] all[k],
            results,
        ) by {
            if k < before.len() {
                assert(all[k] == before[k]);
                assert(is_some_hit(before[k], front));
                let (i, j) = choose|i: int, j: int| is_hit(before[k], front, i, j);
                assert(is_hit(before[k], front, i, j));
                assert(results[i] == front[i]);
                assert(is_hit(all[k], results, i, j));
            } else {
                let i = results.len() - 1;
                let j = k - before.len();
                assert(last.found()[j] == all[k]);
                assert(is_hit(all[k], results, i, j));
            }
        }
    }
}

/// How many hits the libraries gave together.
pub open spec fn hit_count(results: Seq<LibraryHits>) -> nat
    decreases results.len(),
{
    if results.len() == 0 {
        0
    } else {
        hit_count(results.drop_last()) + match results.last().hits {
            Some(hits) => hits@.len(),
            None => 0,
        }
    }
}

/// A search gives as many hits as are asked for, or all where there are fewer; each is a
/// hit of a library, none counted twice; the best come first; and no hit that is left out
/// scores higher than one that is given.
pub proof fn law_search_gives_the_best(results: Seq<LibraryHits>, top_k: nat)
    ensures
        ({
            let hits = all_hits(results);
            let given = best_hits(hits, top_k as int);
            let left = hits.to_multiset().sub(given.to_multiset());
            &&& hits.len() == hit_count(results)
            &&& given.len() == if top_k < hit_count(results) {
                top_k
            } else {
                hit_count(results)
            }
            &&& given.to_multiset().subset_of(hits.to_multiset())
            &&& forall|i: int, j: int| 0 <= i <= j < given.len() ==> given[i].score >= given[j].score
            &&& forall|x: ScoredView, i: int|
                #![trigger left.contains(x), given[i]]
                left.contains(x) && 0 <= i < given.len() ==> x.score <= given[i].score
        }),
{
    broadcast use vstd::seq_lib::group_to_multiset_ensures;

    let hits = all_hits(results);
    let all = ranked(hits);
    law_hits_are_ranked(hits);
    lemma_hit_count(results);
    let given = best_hits(hits, top_k as int);
    assert(all.len() == hits.len()) by {
        assert(all.to_multiset().len() == hits.to_multiset().len());
    }
    let rest = all.skip(given.len() as int);
    assert(given =~= all.take(given.len() as int));
    assert(given + rest =~= all);
    vstd::seq_lib::lemma_multiset_commutative(given, rest);
    assert(hits.to_multiset() =~= given.to_multiset().add(rest.to_multiset()));
    let left = hits.to_multiset().sub(given.to_multiset());
    assert(left =~= rest.to_multiset());
    assert forall|x: ScoredView, i: int|
        #![trigger left.contains(x), given[i]]
        left.contains(x) && 0 <= i < given.len() implies x.score <= given[i].score by {
        assert(rest.contains(x));
        let k = choose|k: int| 0 <= k < rest.len() && rest[k] == x;
        assert(all[given.len() + k] == x);
        assert(all[i] == given[i]);
    }
}

proof fn lemma_hit_count(results: Seq<LibraryHits>)
    ensures
        all_hits(results).len() == hit_count(results),
    decreases results.len(),
{
    if results.len() > 0 {
        lemma_hit_count(results.drop_last());
    }
}

/// The hits of one score, in order.
pub open spec fn of_score(hits: Seq<ScoredView>, score: i64) -> Seq<ScoredView>
    decreases hits.len(),
{
    if hits.len() == 0 {
        Seq::empty()
    } else if hits.last().score == score {
        of_score(hits.drop_last(), score).push(hits.last())
    } else {
        of_score(hits.drop_last(), score)
    }
}

/// Hits of one score stay in the order in which the libraries gave them.
pub proof fn law_equal_hits_keep_their_order(hits: Seq<ScoredView>, score: i64)
    ensures
        of_score(ranked(hits), score) == of_score(hits, score),
    decreases hits.len(),
{
    if hits.len() > 0 {
        law_equal_hits_keep_their_order(hits.drop_last(), score);
        law_hits_are_ranked(hits.drop_last());
        lemma_of_score_ranked(ranked(hits.drop_last()), hits.last(), score);
    }
}

proof fn lemma_of_score_ranked(hits: Seq<ScoredView>, x: ScoredView, score: i64)
    ensures
        of_score(ranked_in(hits, x), score) == if x.score == score {
            of_score(hits, score).push(x)
        } else {
            of_score(hits, score)
        },
    decreases hits.len(),
{
    if hits.len() == 0 || hits.last().score >= x.score {
        assert(hits.push(x).drop_last() =~= hits);
    } else {
        let front = hits.drop_last();
        lemma_of_score_ranked(front, x, score);
        let out = ranked_in(hits, x);
        assert(out.drop_last() =~= ranked_in(front, x));
        assert(out.last() == hits.last());
    }
}

/// A library is found by its identifier: the first that has it; and none where none has.
pub proof fn law_libraries_are_found_by_id(libs: Seq<LibraryView>, id: Seq<char>, from: int, i: int)
    requires
        0 <= from <= i <= libs.len(),
        forall|j: int| from <= j < i ==> !((#[trigger] libs[j]).id == id),
    ensures
        i < libs.len() && libs[i].id == id ==> library_index(libs, id, from) == Some(i),
        i == libs.len() ==> library_index(libs, id, from) == None::<int>,
    decreases i - from,
{
    if from < i {
        assert(!(libs[from].id == id));
        law_libraries_are_found_by_id(libs, id, from + 1, i);
    }
}

/// Without one library, the others stay, in order.
pub proof fn law_deleting_keeps_the_others(a: Seq<LibraryView>, b: Seq<LibraryView>, id: Seq<char>)
    ensures
        without_library(a + b, id) == without_library(a, id) + without_library(b, id),
    decreases b.len(),
{
    if b.len() == 0 {
        assert(a + b =~= a);
        assert(without_library(a, id) + without_library(b, id) =~= without_library(a, id));
    } else {
        law_deleting_keeps_the_others(a, b.drop_last(), id);
        assert((a + b).drop_last() =~= a + b.drop_last());
        assert((a + b).last() == b.last());
        assert(without_library(a + b, id) =~= without_library(a, id) + without_library(b, id));
    }
}

/// The chunks of a document are those among the first chunks, and then those among the
/// rest.
pub proof fn law_chunks_of_a_document_stay_in_order(a: Seq<ChunkView>, b: Seq<ChunkView>, doc_id: Seq<char>)
    ensures
        chunks_of(a + b, doc_id) == chunks_of(a, doc_id) + chunks_of(b, doc_id),
    decreases b.len(),
{
    if b.len() == 0 {
        assert(a + b =~= a);
        assert(chunks_of(a, doc_id) + chunks_of(b, doc_id) =~= chunks_of(a, doc_id));
    } else {
        law_chunks_of_a_document_stay_in_order(a, b.drop_last(), doc_id);
        assert((a + b).drop_last() =~= a + b.drop_last());
        assert((a + b).last() == b.last());
        assert(chunks_of(a + b, doc_id) =~= chunks_of(a, doc_id) + chunks_of(b, doc_id));
    }
}

/// The names of libraries are those of the first ones, and then those of the rest.
pub proof fn law_library_names_stay_in_order(
    a: Seq<Seq<char>>,
    b: Seq<Seq<char>>,
    libs: Seq<LibraryView>,
)
    ensures
        library_names(libs, a + b) == library_names(libs, a) + library_names(libs, b),
    decreases b.len(),
{
    if b.len() == 0 {
        assert(a + b =~= a);
        assert(library_names(libs, a) + library_names(libs, b) =~= library_names(libs, a));
    } else {
        law_library_names_stay_in_order(a, b.drop_last(), libs);
        assert((a + b).drop_last() =~= a + b.drop_last());
        assert((a + b).last() == b.last());
        assert(library_names(libs, a + b) =~= library_names(libs, a) + library_names(libs, b));
    }
}

/// One library stays unless it has the identifier, one chunk belongs to its document, and
/// one identifier gives the name of its library.
pub proof fn law_one_library_or_chunk(
    lib: LibraryView,
    chunk: ChunkView,
    libs: Seq<LibraryView>,
    id: Seq<char>,
)
    ensures
        without_library(seq![lib], id) == if lib.id == id {
            Seq::<LibraryView>::empty()
        } else {
            seq![lib]
        },
        chunks_of(seq![chunk], id) == if chunk.doc_id == id {
            seq![chunk]
        } else {
            Seq::<ChunkView>::empty()
        },
        library_names(libs, seq![id]) == match library_index(libs, id, 0) {
            Some(i) => seq![libs[i].name],
            None => Seq::<Seq<char>>::empty(),
        },
{
    reveal_with_fuel(without_library, 2);
    reveal_with_fuel(chunks_of, 2);
    reveal_with_fuel(library_names, 2);
    assert(seq![lib].drop_last() =~= Seq::<LibraryView>::empty());
    assert(seq![chunk].drop_last() =~= Seq::<ChunkView>::empty());
    assert(seq![id].drop_last() =~= Seq::<Seq<char>>::empty());
    assert(seq![lib].last() == lib);
    assert(seq![chunk].last() == chunk);
    assert(seq![id].last() == id);
    assert(without_library(seq![lib], id) =~= if lib.id == id {
        Seq::<LibraryView>::empty()
    } else {
        seq![lib]
    });
    assert(chunks_of(seq![chunk], id) =~= if chunk.doc_id == id {
        seq![chunk]
    } else {
        Seq::<ChunkView>::empty()
    });
}

proof fn lemma_library_found(libs: Seq<LibraryView>, id: Seq<char>, from: int)
    requires
        0 <= from,
    ensures
        match library_index(libs, id, from) {
            Some(i) => from <= i < libs.len() && libs[i].id == id,
            None => forall|j: int| from <= j < libs.len() ==> (#[trigger] libs[j]).id != id,
        },
    decreases libs.len() - from,
{
    if from < libs.len() && libs[from].id != id {
        lemma_library_found(libs, id, from + 1);
    }
}

/// A change to one library changes that library alone, and of it only what it is about:
/// a new name, new counts, a new size of its vectors, or another model.
pub proof fn law_changes_touch_one_library(
    libs: Seq<LibraryView>,
    id: Seq<char>,
    name: Seq<char>,
    provider_id: Seq<char>,
    docs: usize,
    chunks: usize,
    dim: usize,
    now: i64,
    i: int,
    j: int,
)
    requires
        0 <= i < libs.len(),
        0 <= j < libs.len(),
        j != i,
        libs[i].id == id,
        forall|k: int| 0 <= k < i ==> (#[trigger] libs[k]).id != id,
    ensures
        !is_blank_text(name) ==> renamed(libs, id, name, now) is Ok && ({
            let after = renamed(libs, id, name, now)->Ok_0;
            &&& after.len() == libs.len() && after[j] == libs[j]
            &&& after[i] == (LibraryView { name: trimmed(name), updated_at: now, ..libs[i] })
        }),
        is_blank_text(name) ==> renamed(libs, id, name, now) is Err,
        !is_blank_text(name) && !is_blank_text(provider_id) ==> with_embedding(
            libs,
            id,
            provider_id,
            name,
            now,
        ) is Ok && ({
            let after = with_embedding(libs, id, provider_id, name, now)->Ok_0;
            &&& after.len() == libs.len() && after[j] == libs[j]
            &&& after[i].embedding_provider_id == provider_id && after[i].embedding_model == name
            &&& after[i].embedding_dim == 0 && after[i].name == libs[i].name && after[i].id == id
            &&& after[i].doc_count == libs[i].doc_count && after[i].chunk_count
                == libs[i].chunk_count
        }),
        is_blank_text(name) || is_blank_text(provider_id) ==> with_embedding(
            libs,
            id,
            provider_id,
            name,
            now,
        ) is Err,
        ({
            let after = counted(libs, id, docs, chunks, dim, now);
            &&& after.len() == libs.len() && after[j] == libs[j]
            &&& after[i].doc_count == docs && after[i].chunk_count == chunks
            &&& chunks > 0 ==> after[i].embedding_dim == dim
            &&& chunks == 0 ==> after[i].embedding_dim == libs[i].embedding_dim
            &&& after[i].updated_at == now && after[i].created_at == libs[i].created_at
            &&& after[i].name == libs[i].name && after[i].id == id && after[i].embedding_model
                == libs[i].embedding_model
        }),
        ({
            let after = with_dim(libs, id, dim, now);
            &&& after.len() == libs.len() && after[j] == libs[j]
            &&& dim != 0 ==> after[i].embedding_dim == dim
            &&& dim == 0 ==> after == libs
            &&& after[i].name == libs[i].name && after[i].id == id
        }),
        deleted(libs, id) is Ok,
        library_of(libs, id) == Ok::<LibraryView, Seq<char>>(libs[i]),
{
    law_libraries_are_found_by_id(libs, id, 0, i);
}

/// Nothing is changed for an identifier that no library has.
pub proof fn law_unknown_libraries_are_refused(
    libs: Seq<LibraryView>,
    id: Seq<char>,
    name: Seq<char>,
    dim: usize,
    now: i64,
)
    requires
        forall|k: int| 0 <= k < libs.len() ==> (#[trigger] libs[k]).id != id,
    ensures
        renamed(libs, id, name, now) is Err,
        with_embedding(libs, id, name, name, now) is Err,
        counted(libs, id, dim, dim, dim, now) == libs,
        with_dim(libs, id, dim, now) == libs,
        deleted(libs, id) is Err,
        library_of(libs, id) is Err,
{
    law_libraries_are_found_by_id(libs, id, 0, libs.len() as int);
}

/// A library is made where it has a name, a provider and a model: empty, with what was
/// given.
pub proof fn law_new_libraries_are_empty(
    name: Seq<char>,
    provider_id: Seq<char>,
    model: Seq<char>,
    id: Seq<char>,
    now: i64,
)
    ensures
        new_library(name, provider_id, model, id, now) is Ok <==> !is_blank_text(name)
            && !is_blank_text(provider_id) && !is_blank_text(model),
        new_library(name, provider_id, model, id, now) is Ok ==> ({
            let lib = new_library(name, provider_id, model, id, now)->Ok_0;
            &&& lib.id == id && lib.name == trimmed(name)
            &&& lib.embedding_provider_id == provider_id && lib.embedding_model == model
            &&& lib.doc_count == 0 && lib.chunk_count == 0 && lib.embedding_dim == 0
            &&& lib.created_at == now && lib.updated_at == now
        }),
{
}

/// A document whose indexing was cut short is marked as failed and keeps the rest; any
/// other stays as it is.
pub proof fn law_healing_marks_cut_documents(doc: DocumentView)
    ensures
        doc.status != DocStatus::Indexing ==> healed(doc) == doc,
        doc.status == DocStatus::Indexing ==> healed(doc).status == DocStatus::Error && healed(
            doc,
        ).error is Some,
        healed(doc).id == doc.id,
        healed(doc).name == doc.name,
        healed(doc).hash == doc.hash,
        healed(doc).size_bytes == doc.size_bytes,
        healed(doc).chunk_count == doc.chunk_count,
        healed(doc).created_at == doc.created_at,
{
}

/// The prompt names the libraries that are mounted; there is none where none is.
pub proof fn law_the_prompt_names_the_libraries(
    libs: Seq<LibraryView>,
    ids: Seq<Seq<char>>,
    language: Seq<char>,
)
    ensures
        mount_prompt(libs, ids, language) is Some <==> library_names(libs, ids).len() > 0,
        mount_prompt(libs, ids, language) is Some ==> crate::text::has_infix(
            mount_prompt(libs, ids, language)->0,
            joined(
                library_names(libs, ids),
                if has_prefix(language, "zh"@) {
                    "、"@
                } else {
                    ", "@
                },
            ),
        ),
{
    let names = library_names(libs, ids);
    if names.len() > 0 {
        let zh = has_prefix(language, "zh"@);
        let list = joined(
            names,
            if zh {
                "、"@
            } else {
                ", "@
            },
        );
        let head = if zh {
            MOUNT_ZH_HEAD@
        } else {
            MOUNT_EN_HEAD@
        };
        let p = mount_prompt(libs, ids, language)->0;
        assert(p.subrange(head.len() as int, head.len() as int + list.len()) =~= list);
        assert(crate::text::occurs_at(p, list, head.len() as int));
    }
}

/// Libraries keep their identifier and their place when one is deleted: what is left are
/// those with another identifier.
pub proof fn law_deleting_takes_out_one(libs: Seq<LibraryView>, id: Seq<char>, i: int)
    requires
        0 <= i < libs.len(),
        libs[i].id == id,
        forall|k: int| 0 <= k < libs.len() && k != i ==> (#[trigger] libs[k]).id != id,
    ensures
        without_library(libs, id) == libs.take(i) + libs.skip(i + 1),
{
    let a = libs.take(i);
    let b = libs.skip(i + 1);
    assert(libs =~= a + (seq![libs[i]] + b));
    law_deleting_keeps_the_others(a, seq![libs[i]] + b, id);
    law_deleting_keeps_the_others(seq![libs[i]], b, id);
    assert forall|k: int| 0 <= k < a.len() implies (#[trigger] a[k]).id != id by {
        assert(a[k] == libs[k]);
    }
    assert forall|k: int| 0 <= k < b.len() implies (#[trigger] b[k]).id != id by {
        assert(b[k] == libs[i + 1 + k]);
    }
    lemma_without_stranger(a, id);
    lemma_without_stranger(b, id);
    reveal_with_fuel(without_library, 2);
    assert(seq![libs[i]].drop_last() =~= Seq::<LibraryView>::empty());
    assert(without_library(libs, id) =~= a + b);
}

proof fn lemma_without_stranger(libs: Seq<LibraryView>, id: Seq<char>)
    requires
        forall|k: int| 0 <= k < libs.len() ==> (#[trigger] libs[k]).id != id,
    ensures
        without_library(libs, id) == libs,
    decreases libs.len(),
{
    if libs.len() > 0 {
        let front = libs.drop_last();
        assert forall|k: int| 0 <= k < front.len() implies (#[trigger] front[k]).id != id by {
            assert(front[k] == libs[k]);
        }
        lemma_without_stranger(front, id);
        assert(libs[libs.len() - 1] == libs.last());
        assert(front.push(libs.last()) =~= libs);
    }
}

/// Every document that was being indexed is counted, once each, and no other.
pub proof fn law_cut_documents_are_counted(docs: Seq<DocumentView>)
    ensures
        stale_count(docs) == docs.filter(|d: DocumentView| d.status == DocStatus::Indexing).len(),
    decreases docs.len(),
{
    reveal(Seq::filter);
    if docs.len() > 0 {
        law_cut_documents_are_counted(docs.drop_last());
    }
}

} // verus!
