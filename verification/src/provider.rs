//! Provider helpers: image references for model requests, and the model entries
//! of a provider's configuration.
use vstd::prelude::*;

use crate::json::JsonValue;
use crate::text::{append_chars, chars_of, eq_chars, starts_with, starts_with_exec, strip_prefix, strip_prefix_exec, string_of};

verus! {

/// What [`image_data_url`] returns: URLs (and data URLs) pass through; raw
/// base64 data becomes a `data:` URL of the given type.
pub open spec fn spec_image_data_url(mime_type: Seq<char>, data: Seq<char>) -> Seq<char> {
    if starts_with(data, "http://"@) || starts_with(data, "https://"@) || starts_with(data, "data:"@) {
        data
    } else {
        "data:"@ + mime_type + ";base64,"@ + data
    }
}

/// The URL under which an image is sent to a model.
pub fn image_data_url(mime_type: &str, data: &str) -> (s: String)
    ensures
        s@ == spec_image_data_url(mime_type@, data@),
{
    let d = chars_of(data);
    let http = chars_of("http://");
    let https = chars_of("https://");
    let scheme = chars_of("data:");
    if starts_with_exec(d.as_slice(), http.as_slice()) || starts_with_exec(d.as_slice(), https.as_slice())
        || starts_with_exec(d.as_slice(), scheme.as_slice()) {
        return string_of(d.as_slice());
    }
    let mut v = chars_of("data:");
    let m = chars_of(mime_type);
    append_chars(&mut v, m.as_slice());
    let tag = chars_of(";base64,");
    append_chars(&mut v, tag.as_slice());
    append_chars(&mut v, d.as_slice());
    string_of(v.as_slice())
}

/// One model of a provider's configured model list.
#[derive(Debug, Clone)]
pub struct ModelEntry {
    pub id: String,
    pub name: String,
    pub context_len: usize,
    pub supports_vision: bool,
    pub supports_thinking: bool,
    /// The largest output in tokens; `None` leaves each protocol's default.
    pub max_output: Option<usize>,
    /// Reasoning level to the provider's own value, one entry per level in
    /// key order; a level without an entry is sent as its own name.
    pub reasoning_map: Vec<(String, String)>,
    /// The accepted input kinds: text, image, video.
    pub input_types: Vec<String>,
}

/// The name of a model entry that gives none: empty.
pub fn model_entry_default_name() -> (s: String)
    ensures
        s@ == Seq::<char>::empty(),
{
    String::new()
}

/// The context length of a model entry that gives none.
pub fn model_entry_default_context() -> (n: usize)
    ensures
        n == 128_000,
{
    128_000
}

/// Vision and thinking are assumed supported unless an entry says otherwise.
pub fn model_entry_default_true() -> (b: bool)
    ensures
        b,
{
    true
}

/// A provider of the configuration: its protocol, endpoint and key, extra
/// headers and a body preset for every request, and its models.
#[derive(Debug)]
pub struct ProviderConfig {
    /// `anthropic`, `completion`, `response` or `google`.
    pub api_type: String,
    pub base_url: String,
    /// The key itself, or `env:NAME` for the value of an environment variable.
    pub api_key: String,
    /// Extra request headers, one entry per name in key order.
    pub headers: Vec<(String, String)>,
    /// A request body preset, merged into each request before the model's.
    pub body: JsonValue,
    /// The configured models; without any, a model is made up for the id asked for.
    pub models: Vec<ModelEntry>,
}

impl ProviderConfig {
    /// The environment variable that holds the key, for a key written
    /// `env:NAME`; `None` when the key is given as it is.
    pub fn api_key_env(&self) -> (r: Option<String>)
        ensures
            match r {
                Some(v) => strip_prefix(self.api_key@, "env:"@) == Some(v@),
                None => strip_prefix(self.api_key@, "env:"@) is None,
            },
    {
        let k = chars_of(self.api_key.as_str());
        let p = chars_of("env:");
        match strip_prefix_exec(k.as_slice(), p.as_slice()) {
            Some(rest) => Some(string_of(rest.as_slice())),
            None => None,
        }
    }
}

/// A model as a request is made for it.
#[derive(Debug)]
pub struct ModelConfig {
    pub id: String,
    pub name: String,
    pub context_len: usize,
    pub supports_vision: bool,
    pub supports_thinking: bool,
    /// The largest output in tokens; `None` leaves each protocol's default.
    pub max_output: Option<usize>,
    /// The reasoning value actually sent, resolved from the session's level
    /// through `reasoning_map`.
    pub reasoning_effort: String,
    /// Reasoning level to the provider's own value, one entry per level in
    /// key order; a level without an entry is sent as its own name.
    pub reasoning_map: Vec<(String, String)>,
    /// Extra request headers, one entry per name in key order.
    pub headers: Vec<(String, String)>,
    /// A request body preset, merged into each request.
    pub body: JsonValue,
}

/// The value of the first entry with this key.
pub open spec fn pairs_get(m: Seq<(String, String)>, key: Seq<char>) -> Option<Seq<char>>
    decreases m.len(),
{
    if m.len() == 0 {
        None
    } else if m[0].0@ == key {
        Some(m[0].1@)
    } else {
        pairs_get(m.drop_first(), key)
    }
}

/// What [`ModelConfig::resolve_reasoning_effort`] gives for a level: without
/// a map the level itself; a level mapped to the empty string is switched
/// off; a mapped level gives its value; an unmapped one its own name.
pub open spec fn spec_resolve_effort(map: Seq<(String, String)>, level: Seq<char>) -> Option<Seq<char>> {
    if map.len() == 0 {
        Some(level)
    } else {
        match pairs_get(map, level) {
            Some(v) => if v.len() == 0 {
                None
            } else {
                Some(v)
            },
            None => Some(level),
        }
    }
}

/// The value of the first entry with this key.
pub fn pairs_get_exec(m: &Vec<(String, String)>, key: &str) -> (r: Option<String>)
    ensures
        match r {
            Some(v) => pairs_get(m@, key@) == Some(v@),
            None => pairs_get(m@, key@) is None,
        },
{
    let k = chars_of(key);
    let mut i: usize = 0;
    assert(m@.skip(0) =~= m@);
    while i < m.len()
        invariant
            i <= m@.len(),
            k@ == key@,
            pairs_get(m@, key@) == pairs_get(m@.skip(i as int), key@),
        decreases m@.len() - i,
    {
        assert(m@.skip(i as int).drop_first() =~= m@.skip(i + 1));
        let e = chars_of(m[i].0.as_str());
        if eq_chars(e.as_slice(), k.as_slice()) {
            return Some(m[i].1.clone());
        }
        i = i + 1;
    }
    None
}

impl ModelConfig {
    /// The reasoning value sent for a session's level, as
    /// [`spec_resolve_effort`] says; `None` means the field is left out.
    pub fn resolve_reasoning_effort(&self, level: &str) -> (r: Option<String>)
        requires
            level@.len() > 0,
        ensures
            match r {
                Some(v) => spec_resolve_effort(self.reasoning_map@, level@) == Some(v@),
                None => spec_resolve_effort(self.reasoning_map@, level@) is None,
            },
    {
        if self.reasoning_map.len() == 0 {
            return Some(level.to_owned());
        }
        match pairs_get_exec(&self.reasoning_map, level) {
            Some(mapped) => {
                if mapped.as_str().is_empty() {
                    None
                } else {
                    Some(mapped)
                }
            },
            None => Some(level.to_owned()),
        }
    }
}

} // verus!
