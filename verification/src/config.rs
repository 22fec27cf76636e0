//! Application configuration: defaults, the sandbox roots it lists and the
//! RAG directories and exclusions it tracks.

use vstd::prelude::*;
use crate::errors::AppError;
use crate::providers::{provider_name, Providers};
use crate::text::lowercase;
use crate::strvec::{contains_str, copy_str, lemma_without_empty, lemma_without_push, lists, remove_str, views, without};
use crate::text::str_eq;

verus! {

/// The settings the assistant runs with.
///
/// The extension lists stand for sets: their order and repeats carry no meaning.
#[derive(Debug, Clone)]
pub struct AppConfig {
    pub provider: Providers,
    pub api_key: String,
    pub chat_model: String,
    pub chat_base_url: String,
    pub mcp_config_path: String,
    pub transcription_model_path: String,
    pub database_name: String,
    pub system_prompt: String,
    pub compaction_prompt: String,
    pub compaction_threshold: usize,
    pub sandbox_dir: String,
    pub sandbox_roots: Vec<String>,
    pub silence_duration_ms: u64,
    pub read_extensions: Vec<String>,
    pub write_extensions: Vec<String>,
    pub rag_dirs: Vec<String>,
    pub rag_exclusions: Vec<String>,
    pub rag_use_gpu: bool,
    pub embedding_model: String,
}

/// Default speech model.
pub fn default_transcription_model_path() -> (s: String)
    ensures
        s@ == "parakeet-tdt-0.6b-v3-int8"@,
{
    String::from_str("parakeet-tdt-0.6b-v3-int8")
}

/// Default database file name.
pub fn default_database_name() -> (s: String)
    ensures
        s@ == "jarvis.db"@,
{
    String::from_str("jarvis.db")
}

/// Default instruction given to the model that summarises long histories.
pub fn default_compaction_prompt() -> (s: String)
    ensures
        s@ == "Summarize this context briefly, capturing key points."@,
{
    String::from_str("Summarize this context briefly, capturing key points.")
}

/// Default token budget above which a history is compacted.
pub fn default_compaction_threshold() -> (n: usize)
    ensures
        n == 32000,
{
    32000
}

/// Default sandbox directory: the working directory, resolved at start-up.
pub fn default_sandbox_dir() -> (s: String)
    ensures
        s@ == "."@,
{
    String::from_str(".")
}

/// The extensions that may be read by default.
pub open spec fn default_read_extension_names() -> Seq<Seq<char>> {
    seq!["txt"@, "md"@, "pdf"@, "json"@, "toml"@, "rs"@, "js"@, "ts"@, "tsx"@, "html"@, "css"@]
}

/// The extensions that may be written by default (those read, but `pdf`).
pub open spec fn default_write_extension_names() -> Seq<Seq<char>> {
    seq!["txt"@, "md"@, "json"@, "toml"@, "rs"@, "js"@, "ts"@, "tsx"@, "html"@, "css"@]
}

/// The extensions that may be read by default.
pub fn default_read_extensions() -> (v: Vec<String>)
    ensures
        views(v@) == default_read_extension_names(),
{
    let v = vec![
        String::from_str("txt"),
        String::from_str("md"),
        String::from_str("pdf"),
        String::from_str("json"),
        String::from_str("toml"),
        String::from_str("rs"),
        String::from_str("js"),
        String::from_str("ts"),
        String::from_str("tsx"),
        String::from_str("html"),
        String::from_str("css"),
    ];
    assert(views(v@) =~= default_read_extension_names());
    v
}

/// The extensions that may be written by default.
pub fn default_write_extensions() -> (v: Vec<String>)
    ensures
        views(v@) == default_write_extension_names(),
{
    let v = vec![
        String::from_str("txt"),
        String::from_str("md"),
        String::from_str("json"),
        String::from_str("toml"),
        String::from_str("rs"),
        String::from_str("js"),
        String::from_str("ts"),
        String::from_str("tsx"),
        String::from_str("html"),
        String::from_str("css"),
    ];
    assert(views(v@) =~= default_write_extension_names());
    v
}

/// A sandbox directory that is still to be resolved: empty or `"."`.
pub open spec fn sandbox_dir_unset(dir: Seq<char>) -> bool {
    dir.len() == 0 || dir == "."@
}

/// The roots the sandbox is made of: the sandbox directory, then the extra roots.
pub open spec fn sandbox_root_list(c: AppConfig) -> Seq<Seq<char>> {
    seq![c.sandbox_dir@] + views(c.sandbox_roots@)
}

/// The fingerprint of the embedding set-up: the model name, `:`, and whether the GPU is used.
pub open spec fn rag_fingerprint_of(model: Seq<char>, use_gpu: bool) -> Seq<char> {
    model + ":"@ + if use_gpu {
        "true"@
    } else {
        "false"@
    }
}

/// Message of the error given when exclusions are toggled without a sandbox directory.
pub open spec fn sandbox_not_configured() -> Seq<char> {
    "sandbox_dir is not configured"@
}

/// Message of the error given for a directory that is not a RAG directory.
pub open spec fn not_a_rag_dir() -> Seq<char> {
    "directory is not a configured RAG directory"@
}

/// Whether a sandbox directory still has to be resolved (empty or `"."`).
pub fn is_sandbox_dir_unset(dir: &str) -> (r: bool)
    ensures
        r == sandbox_dir_unset(dir@),
{
    dir.unicode_len() == 0 || str_eq(dir, ".")
}

/// `c` with its provider switched to `p`, every other setting kept.
pub open spec fn with_provider(c: AppConfig, p: Providers) -> AppConfig {
    AppConfig { provider: p, ..c }
}

impl AppConfig {
    /// Whether `root` is one of the extra sandbox roots.
    pub fn has_sandbox_root(&self, root: &str) -> (r: bool)
        ensures
            r == lists(self.sandbox_roots@, root@),
    {
        contains_str(&self.sandbox_roots, root)
    }

    /// Adds `root` to the extra sandbox roots unless it is listed already.
    pub fn add_sandbox_root(&mut self, root: String)
        ensures
            lists(old(self).sandbox_roots@, root@) ==> final(self).sandbox_roots@ == old(self).sandbox_roots@,
            !lists(old(self).sandbox_roots@, root@) ==> final(self).sandbox_roots@ == old(self).sandbox_roots@.push(root),
            final(self).sandbox_dir == old(self).sandbox_dir,
            final(self).rag_dirs == old(self).rag_dirs,
            final(self).rag_exclusions == old(self).rag_exclusions,
    {
        if !contains_str(&self.sandbox_roots, root.as_str()) {
            self.sandbox_roots.push(root);
        }
    }

    /// Removes every occurrence of `root` from the extra sandbox roots.
    pub fn remove_sandbox_root(&mut self, root: &str)
        ensures
            final(self).sandbox_roots@ == without(old(self).sandbox_roots@, root@),
            final(self).sandbox_dir == old(self).sandbox_dir,
            final(self).rag_dirs == old(self).rag_dirs,
            final(self).rag_exclusions == old(self).rag_exclusions,
    {
        remove_str(&mut self.sandbox_roots, root);
    }

    /// The sandbox directory followed by the extra roots.
    pub fn list_sandbox_roots(&self) -> (v: Vec<String>)
        ensures
            views(v@) == sandbox_root_list(*self),
    {
        let mut v: Vec<String> = Vec::new();
        v.push(copy_str(self.sandbox_dir.as_str()));
        let mut i: usize = 0;
        assert(views(v@) =~= seq![self.sandbox_dir@] + views(self.sandbox_roots@.take(0)));
        while i < self.sandbox_roots.len()
            invariant
                i <= self.sandbox_roots@.len(),
                views(v@) == seq![self.sandbox_dir@] + views(self.sandbox_roots@.take(i as int)),
            decreases self.sandbox_roots@.len() - i,
        {
            let r = copy_str(self.sandbox_roots[i].as_str());
            proof {
                assert(views(self.sandbox_roots@.take(i + 1)) =~= views(self.sandbox_roots@.take(i as int)).push(
                    r@,
                ));
            }
            let ghost before = v@;
            v.push(r);
            assert(views(v@) =~= views(before).push(r@));
            i += 1;
        }
        assert(self.sandbox_roots@.take(self.sandbox_roots@.len() as int) =~= self.sandbox_roots@);
        v
    }

    /// Whether `dir` is a configured RAG directory.
    pub fn has_rag_dir(&self, dir: &str) -> (r: bool)
        ensures
            r == lists(self.rag_dirs@, dir@),
    {
        contains_str(&self.rag_dirs, dir)
    }

    /// Fails unless `dir` is a configured RAG directory.
    pub fn check_rag_dir(&self, dir: &str) -> (r: Result<(), AppError>)
        ensures
            r is Ok <==> lists(self.rag_dirs@, dir@),
            r matches Err(e) ==> e is SystemError && e.message() == not_a_rag_dir(),
    {
        if contains_str(&self.rag_dirs, dir) {
            Ok(())
        } else {
            Err(AppError::SystemError(String::from_str("directory is not a configured RAG directory")))
        }
    }

    /// Forgets the RAG directory `dir`; fails, changing nothing, when it is not configured.
    pub fn remove_rag_dir(&mut self, dir: &str) -> (r: Result<(), AppError>)
        ensures
            r is Ok <==> lists(old(self).rag_dirs@, dir@),
            r matches Err(e) ==> e is SystemError && e.message() == not_a_rag_dir(),
            r is Ok ==> final(self).rag_dirs@ == without(old(self).rag_dirs@, dir@),
            r is Err ==> final(self).rag_dirs@ == old(self).rag_dirs@,
            final(self).rag_exclusions == old(self).rag_exclusions,
            final(self).sandbox_roots == old(self).sandbox_roots,
            final(self).sandbox_dir == old(self).sandbox_dir,
    {
        self.check_rag_dir(dir)?;
        remove_str(&mut self.rag_dirs, dir);
        Ok(())
    }

    /// Whether the sandbox folder `name` is excluded from indexing.
    pub fn is_rag_excluded(&self, name: &str) -> (r: bool)
        ensures
            r == lists(self.rag_exclusions@, name@),
    {
        contains_str(&self.rag_exclusions, name)
    }

    /// Flips the exclusion of the sandbox folder `dir_name` and returns whether
    /// it is excluded now; fails, changing nothing, when no sandbox directory is set.
    pub fn toggle_rag_exclusion(&mut self, dir_name: &str) -> (r: Result<bool, AppError>)
        ensures
            r is Err <==> sandbox_dir_unset(old(self).sandbox_dir@),
            r matches Err(e) ==> e is SystemError && e.message() == sandbox_not_configured(),
            r is Err ==> final(self).rag_exclusions@ == old(self).rag_exclusions@,
            r matches Ok(now) ==> now == !lists(old(self).rag_exclusions@, dir_name@),
            r matches Ok(now) && now ==> views(final(self).rag_exclusions@) == views(
                old(self).rag_exclusions@,
            ).push(dir_name@),
            r matches Ok(now) && !now ==> final(self).rag_exclusions@ == without(
                old(self).rag_exclusions@,
                dir_name@,
            ),
            final(self).rag_dirs == old(self).rag_dirs,
            final(self).sandbox_roots == old(self).sandbox_roots,
            final(self).sandbox_dir == old(self).sandbox_dir,
    {
        if is_sandbox_dir_unset(self.sandbox_dir.as_str()) {
            return Err(AppError::SystemError(String::from_str("sandbox_dir is not configured")));
        }
        let was_excluded = contains_str(&self.rag_exclusions, dir_name);
        if was_excluded {
            remove_str(&mut self.rag_exclusions, dir_name);
        } else {
            let ghost before = self.rag_exclusions@;
            let name = copy_str(dir_name);
            self.rag_exclusions.push(name);
            assert(views(self.rag_exclusions@) =~= views(before).push(dir_name@));
        }
        Ok(!was_excluded)
    }

    /// Switches to the provider named `name` (case-insensitively); an unknown
    /// name fails and changes nothing.
    pub fn set_provider_named(&mut self, name: &str) -> (r: Result<(), AppError>)
        ensures
            match r {
                Ok(()) => lowercase(name@) == provider_name(final(self).provider)
                    && *final(self) == with_provider(*old(self), final(self).provider),
                Err(e) => (forall|p: Providers| lowercase(name@) != provider_name(p)) && e is SystemError
                    && e.message() == "Unknown provider: "@ + name@ && *final(self) == *old(self),
            },
    {
        match Providers::parse_name(name) {
            Ok(p) => {
                self.provider = p;
                Ok(())
            },
            Err(e) => Err(AppError::SystemError(e)),
        }
    }

    /// The fingerprint of the embedding set-up (`"{model}:{use_gpu}"`); a cached
    /// RAG pipeline is reused only while it is unchanged.
    pub fn rag_fingerprint(&self) -> (s: String)
        ensures
            s@ == rag_fingerprint_of(self.embedding_model@, self.rag_use_gpu),
    {
        let mut s = copy_str(self.embedding_model.as_str());
        s.append(":");
        if self.rag_use_gpu {
            s.append("true");
        } else {
            s.append("false");
        }
        s
    }
}

/// Keeping the strings not equal to `x` keeps a list that holds none.
proof fn lemma_without_absent(v: Seq<String>, x: Seq<char>)
    requires
        !lists(v, x),
    ensures
        without(v, x) == v,
    decreases v.len(),
{
    if v.len() > 0 {
        let init = v.drop_last();
        assert(!lists(init, x)) by {
            if lists(init, x) {
                let i = choose|i: int| 0 <= i < init.len() && #[trigger] init[i]@ == x;
                assert(v[i]@ == x);
            }
        }
        lemma_without_absent(init, x);
        assert(v[v.len() - 1]@ != x);
        lemma_without_push(init, v.last(), x);
        assert(init.push(v.last()) =~= v);
    } else {
        assert(v =~= Seq::<String>::empty());
        lemma_without_empty(x);
    }
}

/// A string removed from a list is no longer listed.
pub proof fn law_removed_is_not_listed(v: Seq<String>, x: Seq<char>)
    ensures
        !lists(without(v, x), x),
    decreases v.len(),
{
    if v.len() > 0 {
        let init = v.drop_last();
        law_removed_is_not_listed(init, x);
        lemma_without_push(init, v.last(), x);
        assert(init.push(v.last()) =~= v);
        let w = without(v, x);
        if lists(w, x) {
            let i = choose|i: int| 0 <= i < w.len() && #[trigger] w[i]@ == x;
            if v.last()@ != x && i == w.len() - 1 {
                assert(w[i] == v.last());
            } else {
                assert(w[i] == without(init, x)[i]);
            }
        }
    } else {
        assert(v =~= Seq::<String>::empty());
        lemma_without_empty(x);
    }
}

/// Adding a string that was not listed and removing it again restores the
/// list: adding a sandbox root and removing it, or excluding a folder and
/// including it again, leaves the configuration as it was.
pub proof fn law_add_then_remove_restores(v: Seq<String>, w: Seq<String>, x: Seq<char>)
    requires
        !lists(v, x),
        views(w) == views(v).push(x),
    ensures
        views(without(w, x)) == views(v),
{
    let init = w.drop_last();
    assert(views(w).len() == w.len());
    assert(views(v).len() == v.len());
    assert(w.len() == v.len() + 1);
    assert forall|i: int| 0 <= i < init.len() implies #[trigger] init[i]@ == v[i]@ by {
        assert(views(w)[i] == w[i]@);
        assert(views(v)[i] == v[i]@);
    }
    assert(views(init) =~= views(v));
    assert(views(w)[v.len() as int] == w[v.len() as int]@);
    assert(w.last()@ == x);
    assert(!lists(init, x)) by {
        if lists(init, x) {
            let i = choose|i: int| 0 <= i < init.len() && #[trigger] init[i]@ == x;
            assert(v[i]@ == x);
        }
    }
    lemma_without_absent(init, x);
    lemma_without_push(init, w.last(), x);
    assert(init.push(w.last()) =~= w);
}

} // verus!
