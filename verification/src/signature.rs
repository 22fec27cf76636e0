//! The configuration signature that decides when the cached agent is rebuilt,
//! and the slot that holds the agent together with the signature it was built for.

use vstd::prelude::*;
use vstd::relations::sorted_by;
use crate::config::AppConfig;
use crate::errors::AppError;
use crate::lexorder::{lemma_sorted_views_unique, lex_leq, sort_strings};
use crate::providers::Providers;
use crate::strvec::{contains_str, copy_str, views};
use crate::text::{join_push, join_with, lemma_join_push, str_eq};

verus! {

/// Snapshot of the configuration fields whose change requires a new agent.
#[derive(Debug, Clone, PartialEq, Eq)]
pub struct ConfigSignature {
    pub provider: Providers,
    pub api_key: String,
    pub chat_model: String,
    pub chat_base_url: String,
    pub system_prompt: String,
    pub compaction_prompt: String,
    pub compaction_threshold: usize,
    pub mcp_config_path: String,
    pub read_extensions: String,
    pub write_extensions: String,
}

/// `x` lists the names of `names` once each, in the order of `str`.
pub open spec fn is_key_order(x: Seq<Seq<char>>, names: Set<Seq<char>>) -> bool {
    &&& sorted_by(x, lex_leq())
    &&& x.no_duplicates()
    &&& x.to_set() == names
}

/// The listed extension names, each once, in the order of `str` (as a set of
/// extensions iterated and sorted gives them).
pub open spec fn sorted_names(exts: Seq<String>) -> Seq<Seq<char>> {
    choose|x: Seq<Seq<char>>| is_key_order(x, views(exts).to_set())
}

/// Extension names, each once, sorted and joined with commas.
pub open spec fn extension_key(exts: Seq<String>) -> Seq<char> {
    join_with(sorted_names(exts), ","@)
}

/// Two sorted lists without repeats that hold the same names are equal.
proof fn lemma_key_order_unique(x: Seq<Seq<char>>, y: Seq<Seq<char>>, names: Set<Seq<char>>)
    requires
        is_key_order(x, names),
        is_key_order(y, names),
    ensures
        x == y,
{
    broadcast use vstd::seq_lib::to_multiset_contains;
    x.lemma_multiset_has_no_duplicates();
    y.lemma_multiset_has_no_duplicates();
    assert forall|a: Seq<char>| x.to_multiset().count(a) == y.to_multiset().count(a) by {
        assert(x.to_set().contains(a) == x.contains(a));
        assert(y.to_set().contains(a) == y.contains(a));
    }
    assert(x.to_multiset() =~= y.to_multiset());
    lemma_sorted_views_unique(x, y);
}

/// Two signatures hold the same values.
pub open spec fn same_signature(a: ConfigSignature, b: ConfigSignature) -> bool {
    &&& a.provider == b.provider
    &&& a.api_key@ == b.api_key@
    &&& a.chat_model@ == b.chat_model@
    &&& a.chat_base_url@ == b.chat_base_url@
    &&& a.system_prompt@ == b.system_prompt@
    &&& a.compaction_prompt@ == b.compaction_prompt@
    &&& a.compaction_threshold == b.compaction_threshold
    &&& a.mcp_config_path@ == b.mcp_config_path@
    &&& a.read_extensions@ == b.read_extensions@
    &&& a.write_extensions@ == b.write_extensions@
}

/// The signature of a configuration.
pub open spec fn signature_of(c: AppConfig, s: ConfigSignature) -> bool {
    &&& s.provider == c.provider
    &&& s.api_key@ == c.api_key@
    &&& s.chat_model@ == c.chat_model@
    &&& s.chat_base_url@ == c.chat_base_url@
    &&& s.system_prompt@ == c.system_prompt@
    &&& s.compaction_prompt@ == c.compaction_prompt@
    &&& s.compaction_threshold == c.compaction_threshold
    &&& s.mcp_config_path@ == c.mcp_config_path@
    &&& s.read_extensions@ == extension_key(c.read_extensions@)
    &&& s.write_extensions@ == extension_key(c.write_extensions@)
}

/// The signature that no agent was built for.
pub open spec fn is_empty_signature(s: ConfigSignature) -> bool {
    &&& s.provider == Providers::OpenAI
    &&& s.api_key@.len() == 0
    &&& s.chat_model@.len() == 0
    &&& s.chat_base_url@.len() == 0
    &&& s.system_prompt@.len() == 0
    &&& s.compaction_prompt@.len() == 0
    &&& s.compaction_threshold == 0
    &&& s.mcp_config_path@.len() == 0
    &&& s.read_extensions@.len() == 0
    &&& s.write_extensions@.len() == 0
}

/// Joins strings with `sep`.
fn join_strings(parts: &Vec<String>, sep: &str) -> (s: String)
    ensures
        s@ == join_with(views(parts@), sep@),
{
    let mut s = String::new();
    let mut i: usize = 0;
    while i < parts.len()
        invariant
            i <= parts@.len(),
            s@ == join_with(views(parts@.take(i as int)), sep@),
        decreases parts@.len() - i,
    {
        proof {
            assert(views(parts@.take(i + 1)) =~= views(parts@.take(i as int)).push(parts@[i as int]@));
            lemma_join_push(views(parts@.take(i as int)), sep@, parts@[i as int]@);
        }
        join_push(&mut s, i, sep, parts[i].as_str());
        i += 1;
    }
    assert(parts@.take(parts@.len() as int) =~= parts@);
    s
}

proof fn lemma_push_contains(s: Seq<Seq<char>>, e: Seq<char>, x: Seq<char>)
    ensures
        s.push(e).contains(x) <==> (s.contains(x) || x == e),
{
    if s.push(e).contains(x) {
        let k = choose|k: int| 0 <= k < s.push(e).len() && #[trigger] s.push(e)[k] == x;
        if k < s.len() {
            assert(s[k] == x);
        }
    }
    if s.contains(x) {
        let k = choose|k: int| 0 <= k < s.len() && #[trigger] s[k] == x;
        assert(s.push(e)[k] == x);
    }
    if x == e {
        assert(s.push(e)[s.len() as int] == x);
    }
}

/// The distinct strings of `v`, in the order they first occur.
fn distinct_strs(v: &Vec<String>) -> (r: Vec<String>)
    ensures
        views(r@).no_duplicates(),
        views(r@).to_set() == views(v@).to_set(),
{
    let mut out: Vec<String> = Vec::new();
    let mut i: usize = 0;
    while i < v.len()
        invariant
            i <= v@.len(),
            views(out@).no_duplicates(),
            forall|x: Seq<char>| views(out@).contains(x) <==> views(v@.take(i as int)).contains(x),
        decreases v@.len() - i,
    {
        let ghost before = views(out@);
        let ghost e = v@[i as int]@;
        let ghost t = views(v@.take(i as int));
        proof {
            assert(views(v@.take(i + 1)) =~= t.push(e));
        }
        if !contains_str(&out, v[i].as_str()) {
            out.push(copy_str(v[i].as_str()));
            proof {
                assert(views(out@) =~= before.push(e));
                assert forall|k: int| 0 <= k < before.len() implies before[k] != e by {
                    assert(out@[k]@ == before[k]);
                }
                assert forall|x: Seq<char>| views(out@).contains(x) <==> views(v@.take(i + 1)).contains(x) by {
                    lemma_push_contains(before, e, x);
                    lemma_push_contains(t, e, x);
                }
            }
        } else {
            proof {
                let k = choose|k: int| 0 <= k < out@.len() && #[trigger] out@[k]@ == e;
                assert(before[k] == e);
                assert(before.contains(e));
                assert forall|x: Seq<char>| views(out@).contains(x) <==> views(v@.take(i + 1)).contains(x) by {
                    lemma_push_contains(t, e, x);
                }
            }
        }
        i += 1;
    }
    assert(v@.take(v@.len() as int) =~= v@);
    assert(views(out@).to_set() =~= views(v@).to_set());
    out
}

/// The extension key of a list: its distinct names sorted in the order of
/// `str`, joined with commas.
fn extension_key_of(exts: &Vec<String>) -> (s: String)
    ensures
        s@ == extension_key(exts@),
{
    let distinct = distinct_strs(exts);
    let sorted = sort_strings(distinct);
    proof {
        broadcast use vstd::seq_lib::to_multiset_contains;
        let x = views(sorted@);
        let d = views(distinct@);
        d.lemma_multiset_has_no_duplicates();
        assert forall|a: Seq<char>| x.to_multiset().contains(a) implies x.to_multiset().count(a) == 1 by {
            assert(d.to_multiset().contains(a));
        }
        x.lemma_multiset_has_no_duplicates_conv();
        assert forall|a: Seq<char>| x.to_set().contains(a) == views(exts@).to_set().contains(a) by {
            assert(x.contains(a) == (x.to_multiset().count(a) > 0));
            assert(d.contains(a) == (d.to_multiset().count(a) > 0));
            assert(d.to_set().contains(a) == d.contains(a));
        }
        assert(x.to_set() =~= views(exts@).to_set());
        assert(is_key_order(x, views(exts@).to_set()));
        lemma_key_order_unique(x, sorted_names(exts@), views(exts@).to_set());
    }
    join_strings(&sorted, ",")
}

impl ConfigSignature {
    /// The signature of `config`; the extension lists are sorted first, so their order does not matter.
    pub fn from_config(config: &AppConfig) -> (s: Self)
        ensures
            signature_of(*config, s),
    {
        ConfigSignature {
            provider: config.provider,
            api_key: copy_str(config.api_key.as_str()),
            chat_model: copy_str(config.chat_model.as_str()),
            chat_base_url: copy_str(config.chat_base_url.as_str()),
            system_prompt: copy_str(config.system_prompt.as_str()),
            compaction_prompt: copy_str(config.compaction_prompt.as_str()),
            compaction_threshold: config.compaction_threshold,
            mcp_config_path: copy_str(config.mcp_config_path.as_str()),
            read_extensions: extension_key_of(&config.read_extensions),
            write_extensions: extension_key_of(&config.write_extensions),
        }
    }

    /// The signature held before any agent is built: OpenAI and empty fields.
    pub fn empty() -> (s: Self)
        ensures
            is_empty_signature(s),
    {
        ConfigSignature {
            provider: Providers::OpenAI,
            api_key: String::new(),
            chat_model: String::new(),
            chat_base_url: String::new(),
            system_prompt: String::new(),
            compaction_prompt: String::new(),
            compaction_threshold: 0,
            mcp_config_path: String::new(),
            read_extensions: String::new(),
            write_extensions: String::new(),
        }
    }

    /// Whether two signatures hold the same values.
    pub fn same_as(&self, other: &ConfigSignature) -> (r: bool)
        ensures
            r == same_signature(*self, *other),
    {
        self.provider == other.provider && str_eq(self.api_key.as_str(), other.api_key.as_str())
            && str_eq(self.chat_model.as_str(), other.chat_model.as_str()) && str_eq(
            self.chat_base_url.as_str(),
            other.chat_base_url.as_str(),
        ) && str_eq(self.system_prompt.as_str(), other.system_prompt.as_str()) && str_eq(
            self.compaction_prompt.as_str(),
            other.compaction_prompt.as_str(),
        ) && self.compaction_threshold == other.compaction_threshold && str_eq(
            self.mcp_config_path.as_str(),
            other.mcp_config_path.as_str(),
        ) && str_eq(self.read_extensions.as_str(), other.read_extensions.as_str()) && str_eq(
            self.write_extensions.as_str(),
            other.write_extensions.as_str(),
        )
    }

    /// A copy of the signature.
    pub fn snapshot(&self) -> (s: Self)
        ensures
            same_signature(s, *self),
    {
        ConfigSignature {
            provider: self.provider,
            api_key: copy_str(self.api_key.as_str()),
            chat_model: copy_str(self.chat_model.as_str()),
            chat_base_url: copy_str(self.chat_base_url.as_str()),
            system_prompt: copy_str(self.system_prompt.as_str()),
            compaction_prompt: copy_str(self.compaction_prompt.as_str()),
            compaction_threshold: self.compaction_threshold,
            mcp_config_path: copy_str(self.mcp_config_path.as_str()),
            read_extensions: copy_str(self.read_extensions.as_str()),
            write_extensions: copy_str(self.write_extensions.as_str()),
        }
    }
}

/// The cached agent and the signature of the configuration it was built from.
pub struct AgentSlot<A> {
    agent: Option<A>,
    signature: ConfigSignature,
}

/// Message of the error given when no agent could be obtained.
pub open spec fn agent_failed() -> Seq<char> {
    "Agent failed to initialize"@
}

impl<A> AgentSlot<A> {
    /// The cached agent, if any.
    pub closed spec fn cached(self) -> Option<A> {
        self.agent
    }

    /// The signature the cached agent was built for.
    pub closed spec fn built_for(self) -> ConfigSignature {
        self.signature
    }

    /// Whether a request under `config` must first build a new agent.
    pub open spec fn must_rebuild(self, config: AppConfig) -> bool {
        self.cached() is None || !signature_of(config, self.built_for())
    }

    /// A slot without an agent.
    pub fn new() -> (slot: Self)
        ensures
            slot.cached() is None,
            is_empty_signature(slot.built_for()),
    {
        AgentSlot { agent: None, signature: ConfigSignature::empty() }
    }

    /// Whether a request under `config` must first build a new agent: no agent
    /// is cached, or the configuration's signature differs from the cached one.
    pub fn needs_rebuild(&self, config: &AppConfig) -> (r: bool)
        ensures
            r == self.must_rebuild(*config),
    {
        let fresh = ConfigSignature::from_config(config);
        !self.signature.same_as(&fresh) || self.agent.is_none()
    }

    /// Stores an agent built for `config`, unless, checked again, the slot
    /// already holds one for the same signature; returns whether it was stored.
    pub fn store(&mut self, config: &AppConfig, agent: A) -> (stored: bool)
        ensures
            stored == old(self).must_rebuild(*config),
            stored ==> final(self).cached() == Some(agent) && signature_of(*config, final(self).built_for()),
            !stored ==> final(self).cached() == old(self).cached() && final(self).built_for()
                == old(self).built_for(),
    {
        let fresh = ConfigSignature::from_config(config);
        if !self.signature.same_as(&fresh) || self.agent.is_none() {
            self.agent = Some(agent);
            self.signature = fresh;
            true
        } else {
            false
        }
    }

    /// Drops the cached agent and resets the signature, so that the next request rebuilds.
    pub fn restart(&mut self)
        ensures
            final(self).cached() is None,
            is_empty_signature(final(self).built_for()),
    {
        self.agent = None;
        self.signature = ConfigSignature::empty();
    }

    /// A copy of the cached signature.
    pub fn signature_snapshot(&self) -> (s: ConfigSignature)
        ensures
            same_signature(s, self.built_for()),
    {
        self.signature.snapshot()
    }

    /// The cached agent, or the error given when there is none.
    pub fn current(&self) -> (r: Result<&A, AppError>)
        ensures
            match r {
                Ok(a) => self.cached() == Some(*a),
                Err(e) => self.cached() is None && e is SystemError && e.message() == agent_failed(),
            },
    {
        match &self.agent {
            Some(a) => Ok(a),
            None => Err(AppError::SystemError(String::from_str("Agent failed to initialize"))),
        }
    }
}

/// The extension key depends only on which extensions are listed, not on
/// their order or on how often each is listed.
pub proof fn lemma_extension_key_order_insensitive(a: Seq<String>, b: Seq<String>)
    requires
        views(a).to_set() == views(b).to_set(),
    ensures
        extension_key(a) == extension_key(b),
{
}

/// The signature of a configuration is determined by it: two signatures of the
/// same configuration hold the same values.
pub proof fn law_signature_deterministic(c: AppConfig, s1: ConfigSignature, s2: ConfigSignature)
    requires
        signature_of(c, s1),
        signature_of(c, s2),
    ensures
        same_signature(s1, s2),
{
}

/// Listing the same extensions in another order, or one of them twice, gives
/// the same signature.
pub proof fn law_extension_order_insensitive(
    c1: AppConfig,
    c2: AppConfig,
    s1: ConfigSignature,
    s2: ConfigSignature,
)
    requires
        signature_of(c1, s1),
        signature_of(c2, s2),
        c1.provider == c2.provider,
        c1.api_key@ == c2.api_key@,
        c1.chat_model@ == c2.chat_model@,
        c1.chat_base_url@ == c2.chat_base_url@,
        c1.system_prompt@ == c2.system_prompt@,
        c1.compaction_prompt@ == c2.compaction_prompt@,
        c1.compaction_threshold == c2.compaction_threshold,
        c1.mcp_config_path@ == c2.mcp_config_path@,
        views(c1.read_extensions@).to_set() == views(c2.read_extensions@).to_set(),
        views(c1.write_extensions@).to_set() == views(c2.write_extensions@).to_set(),
    ensures
        same_signature(s1, s2),
{
    lemma_extension_key_order_insensitive(c1.read_extensions@, c2.read_extensions@);
    lemma_extension_key_order_insensitive(c1.write_extensions@, c2.write_extensions@);
}

/// Configurations that differ in provider, API key, model, base URL, prompts,
/// threshold or MCP path have different signatures.
pub proof fn law_signature_tracks_fields(
    c1: AppConfig,
    c2: AppConfig,
    s1: ConfigSignature,
    s2: ConfigSignature,
)
    requires
        signature_of(c1, s1),
        signature_of(c2, s2),
        c1.provider != c2.provider || c1.api_key@ != c2.api_key@ || c1.chat_model@ != c2.chat_model@
            || c1.chat_base_url@ != c2.chat_base_url@ || c1.system_prompt@ != c2.system_prompt@
            || c1.compaction_prompt@ != c2.compaction_prompt@ || c1.compaction_threshold
            != c2.compaction_threshold || c1.mcp_config_path@ != c2.mcp_config_path@,
    ensures
        !same_signature(s1, s2),
{
}

/// A configuration with a model, an API key or a prompt set does not have the empty signature.
pub proof fn law_configured_differs_from_empty(c: AppConfig, s: ConfigSignature, e: ConfigSignature)
    requires
        signature_of(c, s),
        is_empty_signature(e),
        c.chat_model@.len() > 0 || c.api_key@.len() > 0 || c.system_prompt@.len() > 0,
    ensures
        !same_signature(s, e),
{
}

/// An agent stored for a configuration is reused for it: no rebuild follows.
pub proof fn law_stored_agent_reused<A>(slot: AgentSlot<A>, c: AppConfig)
    requires
        slot.cached() is Some,
        signature_of(c, slot.built_for()),
    ensures
        !slot.must_rebuild(c),
{
}

/// After a restart every configuration rebuilds the agent.
pub proof fn law_restart_forces_rebuild<A>(slot: AgentSlot<A>, c: AppConfig)
    requires
        slot.cached() is None,
    ensures
        slot.must_rebuild(c),
{
}

/// A configuration whose signature differs from the cached one rebuilds the agent.
pub proof fn law_changed_config_rebuilds<A>(slot: AgentSlot<A>, c: AppConfig, s: ConfigSignature)
    requires
        signature_of(c, s),
        !same_signature(s, slot.built_for()),
    ensures
        slot.must_rebuild(c),
{
}

} // verus!
