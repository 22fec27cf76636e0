//! Bookkeeping of the retrieval index: which files are indexed, which
//! directories are scanned, what the telemetry reports, which paths may be
//! browsed, and the progress and outcome of an indexing run.

use vstd::prelude::*;
use vstd::relations::sorted_by;
use crate::config::{AppConfig, sandbox_dir_unset};
use crate::errors::AppError;
use crate::lexorder::{lemma_lex_total_ordering, lex_le, lex_leq, str_le};
use crate::size_format::{human_readable_size, size_text};
use crate::strvec::{copy_str, lists, views};
use crate::text::{decimal, lowercase, push_char, push_decimal, str_eq, str_starts_with, to_chars, to_lowercase};

verus! {

/// Index statistics shown to the user.
#[derive(Debug, Clone)]
pub struct RagTelemetryResponse {
    pub total_notes: u64,
    pub indexed_notes: u64,
    pub total_chunks: i64,
    pub db_size: String,
}

/// A folder of the sandbox directory, with how many indexable files it holds.
#[derive(Debug, Clone)]
pub struct DiscoveredFolderResponse {
    pub id: String,
    pub name: String,
    pub count: u64,
    pub excluded: bool,
}

/// A progress message of an indexing run.
#[derive(Debug, Clone)]
pub struct IndexingProgressPayload {
    pub level: String,
    pub message: String,
    pub progress: u8,
}

/// A file found under a RAG directory.
#[derive(Debug, Clone)]
pub struct RagDirEntry {
    pub name: String,
    pub is_dir: bool,
    pub path: String,
    pub size: Option<u64>,
}

/// The extensions of the files the index takes in.
pub open spec fn indexable_extension(ext: Seq<char>) -> bool {
    ext == "txt"@ || ext == "md"@ || ext == "pdf"@
}

/// Whether a file with this extension (none when the file name has no
/// extension or it is not valid Unicode) is indexed.
pub fn is_indexable_extension(ext: Option<&str>) -> (r: bool)
    ensures
        r == (ext matches Some(e) && indexable_extension(e@)),
{
    match ext {
        Some(e) => str_eq(e, "txt") || str_eq(e, "md") || str_eq(e, "pdf"),
        None => false,
    }
}

/// Files larger than this many bytes are not indexed.
pub const MAX_INDEX_FILE_BYTES: u64 = 209715200;

/// Whether a file is too large to index.
pub fn is_oversized(size: u64) -> (r: bool)
    ensures
        r == (size > MAX_INDEX_FILE_BYTES),
{
    size > MAX_INDEX_FILE_BYTES
}

/// A path separator on the target: `/`, and on Windows also `\\`.
pub open spec fn is_separator(c: char, os: TargetOs) -> bool {
    c == '/' || (os == TargetOs::Windows && c == '\\')
}

/// `path` lies at or below `root`, comparing whole path components: the
/// rule of `Path::starts_with` on canonical paths, which have no `.`, `..`,
/// repeated or trailing separators (only a root such as `/` or `C:\\` ends
/// with one).
pub open spec fn under_root(path: Seq<char>, root: Seq<char>, os: TargetOs) -> bool {
    ||| path == root
    ||| (root.len() > 0 && is_separator(root.last(), os) && root.is_prefix_of(path))
    ||| (root.is_prefix_of(path) && path.len() > root.len() && is_separator(path[root.len() as int], os))
}

fn separator_char(c: char, os: TargetOs) -> (r: bool)
    ensures
        r == is_separator(c, os),
{
    c == '/' || (matches!(os, TargetOs::Windows) && c == '\\')
}

/// Whether the canonical `path` lies at or below the canonical `root` on `os`.
pub fn path_is_under(path: &str, root: &str, os: TargetOs) -> (r: bool)
    ensures
        r == under_root(path@, root@, os),
{
    if str_eq(path, root) {
        return true;
    }
    if !str_starts_with(path, root) {
        return false;
    }
    let n = root.unicode_len();
    if n > 0 && separator_char(root.get_char(n - 1), os) {
        return true;
    }
    let m = path.unicode_len();
    m > n && separator_char(path.get_char(n), os)
}

/// Message of the error for a path outside every RAG directory.
pub open spec fn outside_rag_dirs() -> Seq<char> {
    "path is not within a configured RAG directory"@
}

/// Some RAG directory that could be resolved holds the path.
pub open spec fn held_by_some_root(path: Seq<char>, roots: Seq<Option<String>>, os: TargetOs) -> bool {
    exists|i: int| 0 <= i < roots.len() && (#[trigger] roots[i] matches Some(r) && under_root(path, r@, os))
}

/// Lets a canonical path through only if it lies under one of the RAG
/// directories; `roots` holds each directory's canonical form, or nothing for
/// a directory that could not be resolved; `os` is the platform the paths
/// come from.
pub fn assert_within_rag_dirs(canonical: &str, roots: &Vec<Option<String>>, os: TargetOs) -> (r: Result<(), AppError>)
    ensures
        r is Ok <==> held_by_some_root(canonical@, roots@, os),
        r matches Err(e) ==> e is SystemError && e.message() == outside_rag_dirs(),
{
    let mut i: usize = 0;
    while i < roots.len()
        invariant
            i <= roots@.len(),
            forall|k: int| 0 <= k < i ==> !(#[trigger] roots@[k] matches Some(r) && under_root(canonical@, r@, os)),
        decreases roots@.len() - i,
    {
        match &roots[i] {
            Some(root) => {
                if path_is_under(canonical, root.as_str(), os) {
                    return Ok(());
                }
            },
            None => {},
        }
        i += 1;
    }
    Err(AppError::SystemError(String::from_str("path is not within a configured RAG directory")))
}

/// `s` with every backslash turned into a slash.
pub open spec fn with_forward_slashes(s: Seq<char>) -> Seq<char> {
    s.map_values(|c: char| if c == '\\' { '/' } else { c })
}

/// Writes a relative path with forward slashes, as entries are listed.
pub fn forward_slashes(s: &str) -> (r: String)
    ensures
        r@ == with_forward_slashes(s@),
{
    let v = to_chars(s);
    let mut r = String::new();
    let mut i: usize = 0;
    while i < v.len()
        invariant
            v@ == s@,
            i <= v@.len(),
            r@ == with_forward_slashes(s@.take(i as int)),
        decreases v@.len() - i,
    {
        let c = v[i];
        proof {
            assert(with_forward_slashes(s@.take(i + 1)) =~= with_forward_slashes(s@.take(i as int)).push(
                if c == '\\' { '/' } else { c },
            ));
        }
        if c == '\\' {
            push_char(&mut r, '/');
        } else {
            push_char(&mut r, c);
        }
        i += 1;
    }
    assert(s@.take(s@.len() as int) =~= s@);
    r
}

/// The key entries are listed by: the name in lower case.
pub open spec fn entry_key(e: RagDirEntry) -> Seq<char> {
    lowercase(e.name@)
}

/// Entries ordered by key.
pub open spec fn sorted_by_key(es: Seq<RagDirEntry>) -> bool {
    forall|i: int, j: int| 0 <= i < j < es.len() ==> lex_le(entry_key(#[trigger] es[i]), entry_key(#[trigger] es[j]))
}

/// `out` with `e` placed after every leading entry whose key is at most `e`'s.
pub open spec fn insert_by_key(out: Seq<RagDirEntry>, e: RagDirEntry) -> Seq<RagDirEntry>
    decreases out.len(),
{
    if out.len() == 0 {
        seq![e]
    } else if lex_le(entry_key(out[0]), entry_key(e)) {
        seq![out[0]] + insert_by_key(out.drop_first(), e)
    } else {
        seq![e] + out
    }
}

/// The stable ordering of `es` by key: each entry goes after every earlier
/// entry whose key is not greater than its own.
pub open spec fn stable_sorted(es: Seq<RagDirEntry>) -> Seq<RagDirEntry>
    decreases es.len(),
{
    if es.len() == 0 {
        Seq::empty()
    } else {
        insert_by_key(stable_sorted(es.drop_last()), es.last())
    }
}

/// Placing `e` at `pos`, the first position whose key is greater than `e`'s,
/// is what `insert_by_key` does.
proof fn lemma_insert_by_key_at(out: Seq<RagDirEntry>, e: RagDirEntry, pos: int)
    requires
        0 <= pos <= out.len(),
        forall|k: int| 0 <= k < pos ==> lex_le(entry_key(#[trigger] out[k]), entry_key(e)),
        pos < out.len() ==> !lex_le(entry_key(out[pos]), entry_key(e)),
    ensures
        insert_by_key(out, e) == out.insert(pos, e),
    decreases pos,
{
    if pos == 0 {
        assert(seq![e] + out =~= out.insert(0, e));
    } else {
        let rest = out.drop_first();
        assert forall|k: int| 0 <= k < pos - 1 implies lex_le(entry_key(#[trigger] rest[k]), entry_key(e)) by {
            assert(rest[k] == out[k + 1]);
        }
        if pos - 1 < rest.len() {
            assert(rest[pos - 1] == out[pos]);
        }
        assert(lex_le(entry_key(out[0]), entry_key(e)));
        lemma_insert_by_key_at(rest, e, pos - 1);
        assert(seq![out[0]] + rest.insert(pos - 1, e) =~= out.insert(pos, e));
    }
}

/// Orders the entries of a RAG directory by their lower-cased names, keeping
/// the order of entries whose keys are equal.
pub fn sort_entries(entries: Vec<RagDirEntry>) -> (r: Vec<RagDirEntry>)
    ensures
        r@ == stable_sorted(entries@),
        sorted_by_key(r@),
        r@.to_multiset() == entries@.to_multiset(),
{
    proof {
        lemma_lex_total_ordering();
    }
    let ghost orig = entries@;
    let total = entries.len();
    let mut rest = entries;
    let mut out: Vec<RagDirEntry> = Vec::new();
    let mut keys: Vec<String> = Vec::new();
    let mut i: usize = 0;
    assert(out@ =~= orig.take(0));
    while rest.len() > 0
        invariant
            i + rest@.len() == orig.len(),
            orig.len() == total,
            rest@ == orig.skip(i as int),
            keys@.len() == out@.len(),
            forall|k: int| 0 <= k < out@.len() ==> #[trigger] keys@[k]@ == entry_key(out@[k]),
            sorted_by_key(out@),
            out@ == stable_sorted(orig.take(i as int)),
            out@.to_multiset() == orig.take(i as int).to_multiset(),
            vstd::relations::total_ordering(lex_leq()),
        decreases rest@.len(),
    {
        let e = rest.remove(0);
        proof {
            assert(e == orig[i as int]);
            assert(rest@ =~= orig.skip(i + 1));
            assert(orig.take(i + 1) =~= orig.take(i as int).push(e));
        }
        let key = to_lowercase(e.name.as_str());
        let mut pos: usize = 0;
        while pos < out.len() && str_le(keys[pos].as_str(), key.as_str())
            invariant
                pos <= out@.len(),
                keys@.len() == out@.len(),
                forall|k: int| 0 <= k < pos ==> lex_le(#[trigger] keys@[k]@, key@),
            decreases out@.len() - pos,
        {
            pos += 1;
        }
        let ghost before = out@;
        let ghost kb = keys@;
        proof {
            if pos < out@.len() {
                assert(!lex_le(keys@[pos as int]@, key@));
                assert(lex_leq()(key@, keys@[pos as int]@) || lex_leq()(keys@[pos as int]@, key@));
            }
        }
        proof {
            assert forall|k: int| 0 <= k < pos implies lex_le(entry_key(#[trigger] before[k]), entry_key(e)) by {
                assert(kb[k]@ == entry_key(before[k]));
            }
            if pos < before.len() {
                assert(kb[pos as int]@ == entry_key(before[pos as int]));
            }
            lemma_insert_by_key_at(before, e, pos as int);
            assert(orig.take(i + 1).drop_last() =~= orig.take(i as int));
            assert(orig.take(i + 1).last() == e);
        }
        out.insert(pos, e);
        keys.insert(pos, key);
        proof {
            vstd::seq_lib::to_multiset_insert(before, pos as int, e);
            vstd::seq_lib::to_multiset_build(orig.take(i as int), e);
            assert forall|k: int| 0 <= k < out@.len() implies #[trigger] keys@[k]@ == entry_key(out@[k]) by {
                if k < pos {
                    assert(keys@[k] == kb[k]);
                    assert(out@[k] == before[k]);
                } else if k > pos {
                    assert(keys@[k] == kb[k - 1]);
                    assert(out@[k] == before[k - 1]);
                }
            }
            assert forall|a: int, b: int| 0 <= a < b < out@.len() implies lex_le(
                entry_key(#[trigger] out@[a]),
                entry_key(#[trigger] out@[b]),
            ) by {
                let w = out@;
                let ka = entry_key(w[a]);
                let kbb = entry_key(w[b]);
                if b < pos {
                    assert(w[a] == before[a] && w[b] == before[b]);
                } else if a > pos {
                    assert(w[a] == before[a - 1] && w[b] == before[b - 1]);
                } else if a == pos {
                    assert(w[b] == before[b - 1]);
                    assert(lex_leq()(key@, entry_key(before[pos as int])));
                    if b - 1 > pos {
                        assert(lex_leq()(entry_key(before[pos as int]), entry_key(before[b - 1])));
                    }
                } else if b == pos {
                    assert(w[a] == before[a]);
                    assert(lex_le(kb[a]@, key@));
                } else {
                    assert(w[a] == before[a]);
                    assert(w[b] == before[b - 1]);
                    assert(lex_le(kb[a]@, key@));
                    assert(lex_leq()(key@, entry_key(before[pos as int])));
                    if b - 1 > pos {
                        assert(lex_leq()(entry_key(before[pos as int]), entry_key(before[b - 1])));
                    }
                    assert(lex_leq()(entry_key(before[a]), key@));
                }
            }
        }
        i += 1;
    }
    assert(orig.take(orig.len() as int) =~= orig);
    out
}


/// The directories whose indexable files the telemetry counts: the sandbox
/// directory when one is set, then the RAG directories.
pub open spec fn counted_dirs(c: AppConfig) -> Seq<Seq<char>> {
    if sandbox_dir_unset(c.sandbox_dir@) {
        views(c.rag_dirs@)
    } else {
        seq![c.sandbox_dir@] + views(c.rag_dirs@)
    }
}

/// The directories whose indexable files the telemetry counts.
pub fn telemetry_dirs(config: &AppConfig) -> (v: Vec<String>)
    ensures
        views(v@) == counted_dirs(*config),
{
    let mut v: Vec<String> = Vec::new();
    if !crate::config::is_sandbox_dir_unset(config.sandbox_dir.as_str()) {
        v.push(copy_str(config.sandbox_dir.as_str()));
    }
    let ghost start = views(v@);
    let mut i: usize = 0;
    assert(views(v@) =~= start + views(config.rag_dirs@.take(0)));
    while i < config.rag_dirs.len()
        invariant
            i <= config.rag_dirs@.len(),
            views(v@) == start + views(config.rag_dirs@.take(i as int)),
        decreases config.rag_dirs@.len() - i,
    {
        let d = copy_str(config.rag_dirs[i].as_str());
        let ghost before = v@;
        v.push(d);
        proof {
            assert(views(v@) =~= views(before).push(d@));
            assert(views(config.rag_dirs@.take(i + 1)) =~= views(config.rag_dirs@.take(i as int)).push(d@));
        }
        i += 1;
    }
    assert(config.rag_dirs@.take(config.rag_dirs@.len() as int) =~= config.rag_dirs@);
    v
}

/// Sum of counts.
pub open spec fn sum_counts(counts: Seq<u64>) -> int
    decreases counts.len(),
{
    if counts.len() == 0 {
        0
    } else {
        sum_counts(counts.drop_last()) + counts.last()
    }
}

proof fn lemma_sum_prefix(counts: Seq<u64>, k: int)
    requires
        0 <= k <= counts.len(),
    ensures
        sum_counts(counts.take(k)) <= sum_counts(counts),
    decreases counts.len() - k,
{
    if k < counts.len() {
        lemma_sum_prefix(counts, k + 1);
        assert(counts.take(k + 1).drop_last() =~= counts.take(k));
    } else {
        assert(counts.take(k) =~= counts);
    }
}

/// The telemetry: the notes counted in the scanned directories, the notes
/// and chunks in the index, and the size on disk of the database and the
/// vector index together.
pub fn rag_telemetry(
    note_counts: &Vec<u64>,
    indexed_notes: u64,
    total_chunks: i64,
    db_bytes: u64,
    index_bytes: u64,
) -> (t: RagTelemetryResponse)
    requires
        sum_counts(note_counts@) <= u64::MAX,
        db_bytes + index_bytes <= u64::MAX,
    ensures
        t.total_notes == sum_counts(note_counts@),
        t.indexed_notes == indexed_notes,
        t.total_chunks == total_chunks,
        t.db_size@ == size_text((db_bytes + index_bytes) as nat),
{
    let mut total: u64 = 0;
    let mut i: usize = 0;
    while i < note_counts.len()
        invariant
            i <= note_counts@.len(),
            total == sum_counts(note_counts@.take(i as int)),
            sum_counts(note_counts@) <= u64::MAX,
        decreases note_counts@.len() - i,
    {
        proof {
            assert(note_counts@.take(i + 1).drop_last() =~= note_counts@.take(i as int));
            lemma_sum_prefix(note_counts@, i + 1);
        }
        total = total + note_counts[i];
        i += 1;
    }
    assert(note_counts@.take(note_counts@.len() as int) =~= note_counts@);
    RagTelemetryResponse {
        total_notes: total,
        indexed_notes,
        total_chunks,
        db_size: human_readable_size(db_bytes + index_bytes),
    }
}

/// A folder of the sandbox directory as listed to the user: excluded when
/// its name is among the exclusions.
pub fn discovered_folder(id: String, name: String, count: u64, config: &AppConfig) -> (f: DiscoveredFolderResponse)
    ensures
        f.id == id,
        f.name == name,
        f.count == count,
        f.excluded == lists(config.rag_exclusions@, name@),
{
    let excluded = config.is_rag_excluded(name.as_str());
    DiscoveredFolderResponse { id, name, count, excluded }
}

/// Whether a file of the index directory is a vector index file (extension `tvim`).
pub fn is_vector_index_file(ext: Option<&str>) -> (r: bool)
    ensures
        r == (ext matches Some(e) && e@ == "tvim"@),
{
    match ext {
        Some(e) => str_eq(e, "tvim"),
        None => false,
    }
}

/// The operating system the library runs on: it decides the embedding
/// model's accelerators and which characters separate path components.
#[derive(Debug, Clone, Copy, PartialEq, Eq, Structural)]
pub enum TargetOs {
    Windows,
    Linux,
    Other,
}

/// The execution providers the embedding model may run on.
#[derive(Debug, Clone, Copy, PartialEq, Eq, Structural)]
pub enum ExecutionProvider {
    DirectMl,
    Cuda,
    Rocm,
    Cpu,
}

/// The execution providers to try, in order: the GPU ones of the platform
/// when the GPU is to be used, and the CPU last.
pub open spec fn providers_for(use_gpu: bool, os: TargetOs) -> Seq<ExecutionProvider> {
    if use_gpu && os == TargetOs::Windows {
        seq![ExecutionProvider::DirectMl, ExecutionProvider::Cpu]
    } else if use_gpu && os == TargetOs::Linux {
        seq![ExecutionProvider::Cuda, ExecutionProvider::Rocm, ExecutionProvider::Cpu]
    } else {
        seq![ExecutionProvider::Cpu]
    }
}

/// The execution providers to try for the embedding model, in order.
pub fn execution_providers(use_gpu: bool, os: TargetOs) -> (v: Vec<ExecutionProvider>)
    ensures
        v@ == providers_for(use_gpu, os),
{
    let mut v: Vec<ExecutionProvider> = Vec::new();
    if use_gpu {
        match os {
            TargetOs::Windows => {
                v.push(ExecutionProvider::DirectMl);
            },
            TargetOs::Linux => {
                v.push(ExecutionProvider::Cuda);
                v.push(ExecutionProvider::Rocm);
            },
            TargetOs::Other => {},
        }
    }
    v.push(ExecutionProvider::Cpu);
    assert(v@ =~= providers_for(use_gpu, os));
    v
}

/// The cached retrieval pipeline with the fingerprint of the embedding
/// set-up it was built for and the path of its vector index.
pub struct RagCache<T> {
    inner: Option<T>,
    fingerprint: Option<String>,
    index_path: Option<String>,
}

impl<T> RagCache<T> {
    /// The cached pipeline, if any.
    pub closed spec fn pipeline(self) -> Option<T> {
        self.inner
    }

    /// The fingerprint the cached pipeline was built for.
    pub closed spec fn built_for(self) -> Option<Seq<char>> {
        match self.fingerprint {
            Some(f) => Some(f@),
            None => None,
        }
    }

    /// The vector index of the cached pipeline.
    pub closed spec fn index_file(self) -> Option<Seq<char>> {
        match self.index_path {
            Some(p) => Some(p@),
            None => None,
        }
    }

    /// What a lookup with `fingerprint` finds: the cached pipeline when it was built for it.
    pub open spec fn found(self, fingerprint: Seq<char>) -> Option<T> {
        if self.built_for() == Some(fingerprint) {
            self.pipeline()
        } else {
            None
        }
    }

    /// An empty cache.
    pub fn new() -> (c: Self)
        ensures
            c.pipeline() is None,
            c.built_for() is None,
            c.index_file() is None,
    {
        RagCache { inner: None, fingerprint: None, index_path: None }
    }

    /// The cached pipeline when it was built for `fingerprint`.
    pub fn lookup(&self, fingerprint: &str) -> (r: Option<&T>)
        ensures
            match r {
                Some(t) => self.found(fingerprint@) == Some(*t),
                None => self.found(fingerprint@) is None,
            },
    {
        match (&self.inner, &self.fingerprint) {
            (Some(t), Some(f)) => {
                if str_eq(f.as_str(), fingerprint) {
                    Some(t)
                } else {
                    None
                }
            },
            _ => None,
        }
    }

    /// The cached pipeline, whatever it was built for.
    pub fn get(&self) -> (r: Option<&T>)
        ensures
            match r {
                Some(t) => self.pipeline() == Some(*t),
                None => self.pipeline() is None,
            },
    {
        match &self.inner {
            Some(t) => Some(t),
            None => None,
        }
    }

    /// Caches a pipeline built for `fingerprint`, with its vector index at `index_path`.
    pub fn store(&mut self, fingerprint: String, value: T, index_path: String)
        ensures
            final(self).pipeline() == Some(value),
            final(self).built_for() == Some(fingerprint@),
            final(self).index_file() == Some(index_path@),
    {
        self.inner = Some(value);
        self.fingerprint = Some(fingerprint);
        self.index_path = Some(index_path);
    }

    /// Forgets the cached pipeline.
    pub fn clear(&mut self)
        ensures
            final(self).pipeline() is None,
            final(self).built_for() is None,
            final(self).index_file() is None,
    {
        self.inner = None;
        self.fingerprint = None;
        self.index_path = None;
    }
}

/// A pipeline stored for a fingerprint is what a lookup with that fingerprint
/// finds, and no other fingerprint finds it.
pub proof fn law_cached_pipeline_found<T>(c: RagCache<T>, fingerprint: Seq<char>, other: Seq<char>, value: T)
    requires
        c.pipeline() == Some(value),
        c.built_for() == Some(fingerprint),
        other != fingerprint,
    ensures
        c.found(fingerprint) == Some(value),
        c.found(other) is None,
{
}

/// After a clear no fingerprint finds a pipeline.
pub proof fn law_cleared_cache_misses<T>(c: RagCache<T>, fingerprint: Seq<char>)
    requires
        c.pipeline() is None,
    ensures
        c.found(fingerprint) is None,
{
}
} // verus!
