//! The LLM provider registry: which hosts and paths belong to which
//! provider, and where each provider's responses carry token usage.

use vstd::prelude::*;
use vstd::string::*;
use crate::text::{contains_str, has_infix};

verus! {

/// How the text of a request is found in its JSON body.
pub enum RequestExtractorType {
    /// `messages[].content`, a string or a list of blocks with `text`.
    Messages,
    /// `contents[].parts[].text`.
    Contents,
    /// A top-level `prompt` string.
    Prompt,
    /// No request text.
    Skip,
}

/// Where a provider's response carries usage and model name.
pub struct ResponseConfig {
    /// Dot-separated path to the usage object.
    pub usage_path: String,
    /// Field of the usage object holding prompt tokens.
    pub prompt_tokens: String,
    /// Field of the usage object holding completion tokens.
    pub completion_tokens: String,
    /// Field of the usage object holding reasoning tokens, if any.
    pub thoughts_tokens: Option<String>,
    /// Dot-separated path from the root to the model name.
    pub model_path: String,
}

/// One provider's configuration.
pub struct ProviderConfig {
    pub name: String,
    /// Substrings of the `Host` header that select this provider.
    pub hosts: Vec<String>,
    /// Substrings of the request path that select this provider.
    pub paths: Vec<String>,
    pub response: ResponseConfig,
    pub request_extractor: RequestExtractorType,
}

/// The configured providers, in order of precedence.
pub struct ProviderRegistry {
    pub providers: Vec<ProviderConfig>,
}

/// The characters of each string.
pub open spec fn strs(v: Seq<String>) -> Seq<Seq<char>> {
    v.map_values(|s: String| s@)
}

/// What a `ResponseConfig` holds.
pub struct ResponseView {
    pub usage_path: Seq<char>,
    pub prompt_tokens: Seq<char>,
    pub completion_tokens: Seq<char>,
    pub thoughts_tokens: Option<Seq<char>>,
    pub model_path: Seq<char>,
}

/// What a `ProviderConfig` holds.
pub struct ProviderView {
    pub name: Seq<char>,
    pub hosts: Seq<Seq<char>>,
    pub paths: Seq<Seq<char>>,
    pub response: ResponseView,
    pub request_extractor: RequestExtractorType,
}

impl View for ResponseConfig {
    type V = ResponseView;

    open spec fn view(&self) -> ResponseView {
        ResponseView {
            usage_path: self.usage_path@,
            prompt_tokens: self.prompt_tokens@,
            completion_tokens: self.completion_tokens@,
            thoughts_tokens: match self.thoughts_tokens {
                Some(t) => Some(t@),
                None => None,
            },
            model_path: self.model_path@,
        }
    }
}

impl View for ProviderConfig {
    type V = ProviderView;

    open spec fn view(&self) -> ProviderView {
        ProviderView {
            name: self.name@,
            hosts: strs(self.hosts@),
            paths: strs(self.paths@),
            response: self.response@,
            request_extractor: self.request_extractor,
        }
    }
}

impl View for ProviderRegistry {
    type V = Seq<ProviderView>;

    open spec fn view(&self) -> Seq<ProviderView> {
        self.providers@.map_values(|p: ProviderConfig| p@)
    }
}

/// Some pattern of `pats` occurs in `s`, or there is no pattern.
pub open spec fn any_infix(s: Seq<char>, pats: Seq<Seq<char>>) -> bool {
    pats.len() == 0 || exists|i: int| 0 <= i < pats.len() && has_infix(s, #[trigger] pats[i])
}

/// A provider matches a host and a path when one of its host patterns
/// occurs in the host and one of its path patterns occurs in the path; an
/// empty pattern list matches anything.
pub open spec fn provider_matches(p: ProviderView, host: Seq<char>, path: Seq<char>) -> bool {
    any_infix(host, p.hosts) && any_infix(path, p.paths)
}

/// The first provider at or after `i` that matches.
pub open spec fn first_provider(ps: Seq<ProviderView>, host: Seq<char>, path: Seq<char>, i: int) -> Option<int>
    decreases ps.len() - i,
{
    if i < 0 || i >= ps.len() {
        None
    } else if provider_matches(ps[i], host, path) {
        Some(i)
    } else {
        first_provider(ps, host, path, i + 1)
    }
}

/// The usage fields that most providers use.
pub open spec fn default_response() -> ResponseView {
    ResponseView {
        usage_path: "usage"@,
        prompt_tokens: "prompt_tokens"@,
        completion_tokens: "completion_tokens"@,
        thoughts_tokens: None,
        model_path: "model"@,
    }
}

impl Default for ResponseConfig {
    fn default() -> (r: ResponseConfig)
        ensures
            r@ == default_response(),
    {
        ResponseConfig {
            usage_path: String::from_str("usage"),
            prompt_tokens: String::from_str("prompt_tokens"),
            completion_tokens: String::from_str("completion_tokens"),
            thoughts_tokens: None,
            model_path: String::from_str("model"),
        }
    }
}

/// The built-in providers: OpenAI, Anthropic and Gemini.
pub open spec fn default_providers() -> Seq<ProviderView> {
    seq![
        ProviderView {
            name: "openai"@,
            hosts: seq!["api.openai.com"@],
            paths: seq!["/chat/completions"@, "/v1/completions"@],
            response: ResponseView {
                usage_path: "usage"@,
                prompt_tokens: "prompt_tokens"@,
                completion_tokens: "completion_tokens"@,
                thoughts_tokens: Some("completion_tokens_details.reasoning_tokens"@),
                model_path: "model"@,
            },
            request_extractor: RequestExtractorType::Messages,
        },
        ProviderView {
            name: "anthropic"@,
            hosts: seq!["api.anthropic.com"@],
            paths: seq!["/v1/messages"@],
            response: ResponseView {
                usage_path: "usage"@,
                prompt_tokens: "input_tokens"@,
                completion_tokens: "output_tokens"@,
                thoughts_tokens: None,
                model_path: "model"@,
            },
            request_extractor: RequestExtractorType::Messages,
        },
        ProviderView {
            name: "gemini"@,
            hosts: seq!["generativelanguage.googleapis.com"@],
            paths: seq!["generateContent"@],
            response: ResponseView {
                usage_path: "usageMetadata"@,
                prompt_tokens: "promptTokenCount"@,
                completion_tokens: "candidatesTokenCount"@,
                thoughts_tokens: Some("thoughtsTokenCount"@),
                model_path: "modelVersion"@,
            },
            request_extractor: RequestExtractorType::Contents,
        },
    ]
}

fn one_str(a: &str) -> (r: Vec<String>)
    ensures
        strs(r@) == seq![a@],
{
    let mut v: Vec<String> = Vec::new();
    v.push(String::from_str(a));
    assert(strs(v@) =~= seq![a@]);
    v
}

fn two_strs(a: &str, b: &str) -> (r: Vec<String>)
    ensures
        strs(r@) == seq![a@, b@],
{
    let mut v: Vec<String> = Vec::new();
    v.push(String::from_str(a));
    v.push(String::from_str(b));
    assert(strs(v@) =~= seq![a@, b@]);
    v
}

impl ProviderConfig {
    /// Whether this provider matches a host and a request path.
    pub fn matches(&self, host: &str, path: &str) -> (r: bool)
        ensures
            r == provider_matches(self@, host@, path@),
    {
        any_contained(host, &self.hosts) && any_contained(path, &self.paths)
    }
}

/// Whether some pattern of `pats` occurs in `s`, or `pats` is empty.
fn any_contained(s: &str, pats: &Vec<String>) -> (r: bool)
    ensures
        r == any_infix(s@, strs(pats@)),
{
    if pats.len() == 0 {
        return true;
    }
    let mut i: usize = 0;
    while i < pats.len()
        invariant
            i <= pats@.len(),
            forall|j: int| 0 <= j < i ==> !has_infix(s@, #[trigger] strs(pats@)[j]),
        decreases pats@.len() - i,
    {
        if contains_str(s, pats[i].as_str()) {
            assert(has_infix(s@, strs(pats@)[i as int]));
            return true;
        }
        i += 1;
    }
    false
}

impl ProviderRegistry {
    /// The built-in registry.
    pub fn with_defaults() -> (r: ProviderRegistry)
        ensures
            r@ == default_providers(),
    {
        let openai = ProviderConfig {
            name: String::from_str("openai"),
            hosts: one_str("api.openai.com"),
            paths: two_strs("/chat/completions", "/v1/completions"),
            response: ResponseConfig {
                usage_path: String::from_str("usage"),
                prompt_tokens: String::from_str("prompt_tokens"),
                completion_tokens: String::from_str("completion_tokens"),
                thoughts_tokens: Some(String::from_str("completion_tokens_details.reasoning_tokens")),
                model_path: String::from_str("model"),
            },
            request_extractor: RequestExtractorType::Messages,
        };
        let anthropic = ProviderConfig {
            name: String::from_str("anthropic"),
            hosts: one_str("api.anthropic.com"),
            paths: one_str("/v1/messages"),
            response: ResponseConfig {
                usage_path: String::from_str("usage"),
                prompt_tokens: String::from_str("input_tokens"),
                completion_tokens: String::from_str("output_tokens"),
                thoughts_tokens: None,
                model_path: String::from_str("model"),
            },
            request_extractor: RequestExtractorType::Messages,
        };
        let gemini = ProviderConfig {
            name: String::from_str("gemini"),
            hosts: one_str("generativelanguage.googleapis.com"),
            paths: one_str("generateContent"),
            response: ResponseConfig {
                usage_path: String::from_str("usageMetadata"),
                prompt_tokens: String::from_str("promptTokenCount"),
                completion_tokens: String::from_str("candidatesTokenCount"),
                thoughts_tokens: Some(String::from_str("thoughtsTokenCount")),
                model_path: String::from_str("modelVersion"),
            },
            request_extractor: RequestExtractorType::Contents,
        };
        let mut providers: Vec<ProviderConfig> = Vec::new();
        providers.push(openai);
        providers.push(anthropic);
        providers.push(gemini);
        let r = ProviderRegistry { providers };
        assert(r@ =~= default_providers());
        r
    }

    /// The first provider that matches a host and a request path.
    pub fn find_provider(&self, host: &str, path: &str) -> (r: Option<&ProviderConfig>)
        ensures
            match r {
                Some(p) => exists|i: int|
                    first_provider(self@, host@, path@, 0) == Some(i) && *p == self.providers@[i],
                None => first_provider(self@, host@, path@, 0).is_none(),
            },
    {
        let mut i: usize = 0;
        while i < self.providers.len()
            invariant
                i <= self.providers@.len(),
                self@.len() == self.providers@.len(),
                first_provider(self@, host@, path@, 0) == first_provider(self@, host@, path@, i as int),
            decreases self.providers@.len() - i,
        {
            assert(self@[i as int] == self.providers@[i as int]@);
            if self.providers[i].matches(host, path) {
                return Some(&self.providers[i]);
            }
            i += 1;
        }
        None
    }

    /// Whether some path pattern of some provider occurs in `text`.
    pub fn is_llm_path(&self, text: &str) -> (r: bool)
        ensures
            r == exists|i: int, j: int|
                0 <= i < self@.len() && 0 <= j < self@[i].paths.len() && has_infix(
                    text@,
                    #[trigger] self@[i].paths[j],
                ),
    {
        let mut i: usize = 0;
        while i < self.providers.len()
            invariant
                i <= self.providers@.len(),
                self@.len() == self.providers@.len(),
                forall|a: int, j: int|
                    0 <= a < i && 0 <= j < self@[a].paths.len() ==> !has_infix(
                        text@,
                        #[trigger] self@[a].paths[j],
                    ),
            decreases self.providers@.len() - i,
        {
            assert(self@[i as int] == self.providers@[i as int]@);
            let pats = &self.providers[i].paths;
            if pats.len() > 0 && any_contained(text, pats) {
                proof {
                    let j = choose|j: int|
                        0 <= j < strs(pats@).len() && has_infix(text@, #[trigger] strs(pats@)[j]);
                    assert(has_infix(text@, self@[i as int].paths[j]));
                }
                return true;
            }
            i += 1;
        }
        false
    }
}

} // verus!
