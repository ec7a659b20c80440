//! The configuration the agent runs with, once read from its file.
use vstd::prelude::*;
use crate::registry::str_eq;

verus! {

pub const DEFAULT_BASE_URL: &'static str = "https://api.openai.com/v1";

pub const DEFAULT_MODEL: &'static str = "gpt-5-nano";

/// Settings of an OpenAI-compatible provider, a `[llm.<name>]` table.
pub struct LLMOpenAIConfig {
    pub api_key: Option<String>,
    pub api_key_env: Option<String>,
    pub base_url: Option<String>,
    pub base_url_env: Option<String>,
    pub model: Option<String>,
    pub reasoning_effort: Option<String>,
    pub system_prompt: Option<String>,
    pub stream: Option<bool>,
}

/// Settings of one provider, by its `type`.
pub enum LLMConfig {
    OpenAI(LLMOpenAIConfig),
}

/// The whole configuration.
pub struct Config {
    /// The file it was read from.
    pub config_path: Option<String>,
    /// The workspace directory given on the command line.
    pub path: Option<String>,
    /// Name of the provider to use.
    pub default_llm: String,
    /// Providers by name; names are unique (`names_unique`).
    pub llm: Vec<(String, LLMConfig)>,
}

#[derive(PartialEq, Eq, Structural, Clone, Copy, Debug)]
pub enum ConfigError {
    /// `default_llm` names no `[llm.<name>]` table.
    UnknownDefaultLlm,
    /// Two providers have the same name.
    DuplicateLlmName,
}

pub open spec fn opt_str(o: Option<String>) -> Option<Seq<char>> {
    match o {
        Some(s) => Some(s@),
        None => None,
    }
}

/// A setting given directly wins; else the one read from the named environment
/// variable (`from_env`); else none.
pub open spec fn direct_or_env(
    direct: Option<Seq<char>>,
    env_name: Option<Seq<char>>,
    from_env: Option<Seq<char>>,
) -> Option<Seq<char>> {
    if direct is Some {
        direct
    } else if env_name is Some {
        from_env
    } else {
        None
    }
}

fn clone_opt(o: &Option<String>) -> (r: Option<String>)
    ensures
        opt_str(r) == opt_str(*o),
{
    match o {
        Some(s) => Some(s.clone()),
        None => None,
    }
}

/// No two providers share a name.
pub open spec fn names_unique(llm: Seq<(String, LLMConfig)>) -> bool {
    forall|i: int, j: int| 0 <= i < j < llm.len() ==> llm[i].0@ != llm[j].0@
}

pub open spec fn names_provider(llm: Seq<(String, LLMConfig)>, name: Seq<char>) -> bool {
    exists|i: int| 0 <= i < llm.len() && llm[i].0@ == name
}

impl Config {
    /// Provider names must be unique and the default provider configured.
    pub fn validate(&self) -> (r: Result<(), ConfigError>)
        ensures
            r is Ok <==> names_unique(self.llm@) && names_provider(self.llm@, self.default_llm@),
            !names_unique(self.llm@) ==> r == Err::<(), ConfigError>(ConfigError::DuplicateLlmName),
            names_unique(self.llm@) && !names_provider(self.llm@, self.default_llm@) ==> r == Err::<
                (),
                ConfigError,
            >(ConfigError::UnknownDefaultLlm),
    {
        if !self.names_are_unique() {
            return Err(ConfigError::DuplicateLlmName);
        }
        match self.provider_index() {
            Some(_) => Ok(()),
            None => Err(ConfigError::UnknownDefaultLlm),
        }
    }

    /// Whether no two providers share a name.
    pub fn names_are_unique(&self) -> (r: bool)
        ensures
            r == names_unique(self.llm@),
    {
        let n = self.llm.len();
        let mut j: usize = 0;
        while j < n
            invariant
                n == self.llm@.len(),
                j <= n,
                forall|a: int, b: int| 0 <= a < b < j ==> self.llm@[a].0@ != self.llm@[b].0@,
            decreases n - j,
        {
            let mut i: usize = 0;
            while i < j
                invariant
                    n == self.llm@.len(),
                    i <= j < n,
                    forall|a: int, b: int| 0 <= a < b < j ==> self.llm@[a].0@ != self.llm@[b].0@,
                    forall|a: int| 0 <= a < i ==> self.llm@[a].0@ != self.llm@[j as int].0@,
                decreases j - i,
            {
                if str_eq(self.llm[i].0.as_str(), self.llm[j].0.as_str()) {
                    return false;
                }
                i = i + 1;
            }
            j = j + 1;
        }
        true
    }

    /// Position of the first provider named `default_llm`.
    pub fn provider_index(&self) -> (r: Option<usize>)
        ensures
            r is Some <==> names_provider(self.llm@, self.default_llm@),
            r is Some ==> r->0 < self.llm@.len() && self.llm@[r->0 as int].0@ == self.default_llm@
                && forall|j: int| 0 <= j < r->0 ==> self.llm@[j].0@ != self.default_llm@,
    {
        let mut i: usize = 0;
        while i < self.llm.len()
            invariant
                i <= self.llm@.len(),
                forall|j: int| 0 <= j < i ==> #[trigger] self.llm@[j].0@ != self.default_llm@,
            decreases self.llm@.len() - i,
        {
            if str_eq(self.llm[i].0.as_str(), self.default_llm.as_str()) {
                return Some(i);
            }
            i = i + 1;
        }
        None
    }
}

impl LLMOpenAIConfig {
    /// The API key: `api_key`, else the value of the variable named by `api_key_env`,
    /// which the caller looked up as `from_env`.
    pub fn get_api_key(&self, from_env: Option<String>) -> (r: Option<String>)
        ensures
            opt_str(r) == direct_or_env(opt_str(self.api_key), opt_str(self.api_key_env), opt_str(from_env)),
    {
        if self.api_key.is_some() {
            clone_opt(&self.api_key)
        } else if self.api_key_env.is_some() {
            from_env
        } else {
            None
        }
    }

    /// The base URL: `base_url`, else the value of the variable named by `base_url_env`,
    /// which the caller looked up as `from_env`.
    pub fn get_base_url(&self, from_env: Option<String>) -> (r: Option<String>)
        ensures
            opt_str(r) == direct_or_env(opt_str(self.base_url), opt_str(self.base_url_env), opt_str(from_env)),
    {
        if self.base_url.is_some() {
            clone_opt(&self.base_url)
        } else if self.base_url_env.is_some() {
            from_env
        } else {
            None
        }
    }

    /// The model, or the default one.
    pub fn model_or_default(&self) -> (r: String)
        ensures
            r@ == match self.model {
                Some(m) => m@,
                None => DEFAULT_MODEL@,
            },
    {
        match &self.model {
            Some(m) => m.clone(),
            None => DEFAULT_MODEL.to_owned(),
        }
    }

    /// Whether responses are streamed; they are unless `stream = false`.
    pub fn stream_enabled(&self) -> (r: bool)
        ensures
            r == match self.stream {
                Some(b) => b,
                None => true,
            },
    {
        match self.stream {
            Some(b) => b,
            None => true,
        }
    }
}

} // verus!
