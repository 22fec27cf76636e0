use vstd::prelude::*;
use crate::errors::AppError;
use crate::text::{all_ascii, ascii_lower, concat, lowercase, str_eq, to_lowercase};

verus! {

/// Supported LLM providers.
#[derive(Debug, Clone, Copy, PartialEq, Eq, Structural)]
pub enum Providers {
    /// Anthropic (models served by `api.anthropic.com`).
    Anthropic,
    /// OpenAI-compatible API (also local servers such as llama.cpp).
    OpenAI,
    /// Google Gemini API.
    Gemini,
}

/// The lower-case name of a provider.
pub open spec fn provider_name(p: Providers) -> Seq<char> {
    match p {
        Providers::OpenAI => "openai"@,
        Providers::Gemini => "gemini"@,
        Providers::Anthropic => "anthropic"@,
    }
}

/// The provider names in the fixed order `openai`, `gemini`, `anthropic`.
pub open spec fn all_provider_names() -> Seq<Seq<char>> {
    seq!["openai"@, "gemini"@, "anthropic"@]
}

impl Providers {
    /// Returns the lower-case name of this provider.
    pub fn as_str(&self) -> (s: &'static str)
        ensures
            s@ == provider_name(*self),
    {
        match self {
            Providers::OpenAI => "openai",
            Providers::Gemini => "gemini",
            Providers::Anthropic => "anthropic",
        }
    }

    /// Returns all provider variants in a fixed order.
    pub fn all() -> (v: Vec<Providers>)
        ensures
            v@ == seq![Providers::OpenAI, Providers::Gemini, Providers::Anthropic],
    {
        vec![Providers::OpenAI, Providers::Gemini, Providers::Anthropic]
    }

    /// The display form of a provider: its lower-case name.
    pub fn to_string(&self) -> (s: String)
        ensures
            s@ == provider_name(*self),
    {
        String::from_str(self.as_str())
    }

    /// Parses a provider name case-insensitively (by Unicode lower-casing).
    pub fn parse_name(s: &str) -> (r: Result<Providers, String>)
        ensures
            all_ascii(s@) ==> lowercase(s@) == ascii_lower(s@),
            match r {
                Ok(p) => lowercase(s@) == provider_name(p),
                Err(e) => (forall|p: Providers| lowercase(s@) != provider_name(p))
                    && e@ == "Unknown provider: "@ + s@,
            },
    {
        let lower = to_lowercase(s);
        if str_eq(lower.as_str(), "openai") {
            Ok(Providers::OpenAI)
        } else if str_eq(lower.as_str(), "gemini") {
            Ok(Providers::Gemini)
        } else if str_eq(lower.as_str(), "anthropic") {
            Ok(Providers::Anthropic)
        } else {
            Err(concat("Unknown provider: ", s))
        }
    }
}

impl std::str::FromStr for Providers {
    type Err = String;

    fn from_str(s: &str) -> (r: Result<Providers, String>)
        ensures
            all_ascii(s@) ==> lowercase(s@) == ascii_lower(s@),
            match r {
                Ok(p) => lowercase(s@) == provider_name(p),
                Err(e) => (forall|p: Providers| lowercase(s@) != provider_name(p))
                    && e@ == "Unknown provider: "@ + s@,
            },
    {
        Providers::parse_name(s)
    }
}

/// Lists the names of all supported providers, in the order of
/// [`Providers::all`].
pub fn get_providers() -> (r: Result<Vec<String>, AppError>)
    ensures
        r is Ok,
        r matches Ok(v) ==> v@.map_values(|s: String| s@) == all_provider_names(),
{
    let all = Providers::all();
    let mut out: Vec<String> = Vec::new();
    let mut i: usize = 0;
    while i < all.len()
        invariant
            all@ == seq![Providers::OpenAI, Providers::Gemini, Providers::Anthropic],
            i <= all@.len(),
            out@.len() == i,
            forall|j: int| 0 <= j < i ==> #[trigger] out@[j]@ == provider_name(all@[j]),
        decreases all@.len() - i,
    {
        out.push(all[i].to_string());
        i += 1;
    }
    assert(out@.map_values(|s: String| s@) =~= all_provider_names());
    Ok(out)
}

/// Each provider's name is plain lower-case ASCII, so parsing it (or any
/// other spelling of its letters in upper or lower case) gives the provider back.
pub proof fn law_provider_name_parses_back(p: Providers)
    ensures
        all_ascii(provider_name(p)),
        ascii_lower(provider_name(p)) == provider_name(p),
        forall|q: Providers| q != p ==> provider_name(q) != provider_name(p),
{
    reveal_strlit("openai");
    reveal_strlit("gemini");
    reveal_strlit("anthropic");
    assert(ascii_lower(provider_name(p)) =~= provider_name(p));
    assert("openai"@[0] != "gemini"@[0]);
    assert("openai"@.len() != "anthropic"@.len());
    assert("gemini"@.len() != "anthropic"@.len());
}

} // verus!
