//! The HTTP request for one model turn: which protocol a provider speaks,
//! where the request goes, its headers and its body, and the text of an
//! error that the provider answers with.
use vstd::prelude::*;

use crate::json::{json_view, Json, JsonValue};
use crate::message::{messages_view, ChatMessage};
use crate::provider::{ModelConfig, ProviderConfig};
use crate::request::{
    anthropic_base, build_anthropic_body, build_completion_body, build_gemini_body, build_responses_body,
    completion_base, responses_base, spec_gemini_body, with_presets,
};
use crate::text::{append_chars, chars_of, eq_chars, string_of};
use crate::json::deep_merge_json;

verus! {

/// The protocol a provider speaks.
#[derive(Debug, Clone, Copy, PartialEq, Eq)]
pub enum ApiKind {
    /// Anthropic messages (`anthropic`).
    Anthropic,
    /// OpenAI chat completions (`completion`).
    Completion,
    /// OpenAI responses (`response`).
    Responses,
    /// Gemini generateContent (`google`).
    Google,
}

/// The protocol named by a provider's `api_type`.
pub open spec fn spec_api_kind(t: Seq<char>) -> Option<ApiKind> {
    if t == "anthropic"@ {
        Some(ApiKind::Anthropic)
    } else if t == "completion"@ {
        Some(ApiKind::Completion)
    } else if t == "response"@ {
        Some(ApiKind::Responses)
    } else if t == "google"@ {
        Some(ApiKind::Google)
    } else {
        None
    }
}

/// What a provider with an unknown `api_type` is answered with.
pub open spec fn unsupported_api(t: Seq<char>) -> Seq<char> {
    "Unsupported api_type: "@ + t
}

fn is_word(s: &[char], w: &str) -> (b: bool)
    ensures
        b == (s@ == w@),
{
    let wc = chars_of(w);
    eq_chars(s, wc.as_slice())
}

/// The protocol of a provider, as [`spec_api_kind`] says; an unknown one is
/// the error [`unsupported_api`].
pub fn api_kind(api_type: &str) -> (r: Result<ApiKind, String>)
    ensures
        match r {
            Ok(k) => spec_api_kind(api_type@) == Some(k),
            Err(e) => spec_api_kind(api_type@) is None && e@ == unsupported_api(api_type@),
        },
{
    let t = chars_of(api_type);
    if is_word(t.as_slice(), "anthropic") {
        Ok(ApiKind::Anthropic)
    } else if is_word(t.as_slice(), "completion") {
        Ok(ApiKind::Completion)
    } else if is_word(t.as_slice(), "response") {
        Ok(ApiKind::Responses)
    } else if is_word(t.as_slice(), "google") {
        Ok(ApiKind::Google)
    } else {
        let mut e = chars_of("Unsupported api_type: ");
        append_chars(&mut e, t.as_slice());
        Err(string_of(e.as_slice()))
    }
}

/// `str::trim_end_matches` with one character.
pub open spec fn trim_trailing(s: Seq<char>, c: char) -> Seq<char>
    decreases s.len(),
{
    if s.len() > 0 && s.last() == c {
        trim_trailing(s.drop_last(), c)
    } else {
        s
    }
}

fn trim_trailing_exec(s: &[char], c: char) -> (r: Vec<char>)
    ensures
        r@ == trim_trailing(s@, c),
{
    let mut n = s.len();
    assert(s@.take(n as int) =~= s@);
    while n > 0 && s[n - 1] == c
        invariant
            n <= s@.len(),
            trim_trailing(s@, c) == trim_trailing(s@.take(n as int), c),
        decreases n,
    {
        assert(s@.take(n as int).drop_last() =~= s@.take(n - 1));
        n = n - 1;
    }
    vstd::slice::slice_to_vec(&s[0..n])
}

/// Where a request goes: the base URL without trailing slashes, then the
/// protocol's path; Gemini's carries the model and the key in the URL.
pub open spec fn spec_url(kind: ApiKind, base_url: Seq<char>, model_id: Seq<char>, key: Seq<char>) -> Seq<char> {
    let b = trim_trailing(base_url, '/');
    match kind {
        ApiKind::Anthropic => b + "/v1/messages"@,
        ApiKind::Completion => b + "/chat/completions"@,
        ApiKind::Responses => b + "/responses"@,
        ApiKind::Google => b + "/v1beta/models/"@ + model_id + ":streamGenerateContent?alt=sse&key="@ + key,
    }
}

/// Name and value pairs as text.
pub open spec fn pairs_view(v: Seq<(String, String)>) -> Seq<(Seq<char>, Seq<char>)> {
    Seq::new(v.len(), |i: int| (v[i].0@, v[i].1@))
}

/// The headers of a request: the key and content type the protocol wants,
/// then the provider's headers, then the model's; a Gemini request sends
/// none (its key is in the URL).
pub open spec fn spec_headers(
    kind: ApiKind,
    key: Seq<char>,
    provider_headers: Seq<(Seq<char>, Seq<char>)>,
    model_headers: Seq<(Seq<char>, Seq<char>)>,
) -> Seq<(Seq<char>, Seq<char>)> {
    match kind {
        ApiKind::Anthropic => seq![
            ("x-api-key"@, key),
            ("anthropic-version"@, "2023-06-01"@),
            ("content-type"@, "application/json"@),
        ] + provider_headers + model_headers,
        ApiKind::Google => Seq::empty(),
        _ => seq![("Authorization"@, "Bearer "@ + key), ("content-type"@, "application/json"@)] + provider_headers
            + model_headers,
    }
}

/// The body of a request in the protocol's shape, with the provider's
/// preset and then the model's merged in.
pub open spec fn spec_body(
    kind: ApiKind,
    messages: Seq<ChatMessage>,
    system: Option<Seq<char>>,
    tools: Seq<JsonValue>,
    model: ModelConfig,
    provider_body: JsonValue,
) -> Json {
    let ms = messages_view(messages);
    let base = match kind {
        ApiKind::Anthropic => anthropic_base(ms, system, tools, model.id@, model.max_output),
        ApiKind::Completion => completion_base(ms, system, tools, model.id@, model.max_output, model.reasoning_effort@),
        ApiKind::Responses => responses_base(ms, system, tools, model.id@, model.max_output, model.reasoning_effort@),
        ApiKind::Google => spec_gemini_body(ms, system, tools, model.max_output),
    };
    with_presets(base, provider_body, model.body)
}

/// An HTTP POST to make: URL, headers in the order they are added, JSON body.
#[derive(Debug)]
pub struct HttpRequest {
    pub url: String,
    pub headers: Vec<(String, String)>,
    pub body: JsonValue,
}

fn push_pair(v: &mut Vec<(String, String)>, k: &str, x: &[char])
    ensures
        pairs_view(final(v)@) == pairs_view(old(v)@).push((k@, x@)),
{
    let ghost before = pairs_view(v@);
    v.push((k.to_owned(), string_of(x)));
    assert(pairs_view(v@) =~= before.push((k@, x@)));
}

fn push_pairs(v: &mut Vec<(String, String)>, extra: &Vec<(String, String)>)
    ensures
        pairs_view(final(v)@) == pairs_view(old(v)@) + pairs_view(extra@),
{
    let ghost start = pairs_view(v@);
    let mut i: usize = 0;
    while i < extra.len()
        invariant
            i <= extra@.len(),
            pairs_view(v@) == start + pairs_view(extra@.take(i as int)),
        decreases extra@.len() - i,
    {
        let ghost before = pairs_view(v@);
        v.push((extra[i].0.clone(), extra[i].1.clone()));
        assert(pairs_view(v@) =~= before.push((extra@[i as int].0@, extra@[i as int].1@)));
        assert(pairs_view(extra@.take(i + 1)) =~= pairs_view(extra@.take(i as int)).push(
            (extra@[i as int].0@, extra@[i as int].1@),
        ));
        i = i + 1;
    }
    assert(extra@.take(i as int) =~= extra@);
}

/// The request for one model turn with a provider, the key resolved by the
/// caller: for a known protocol its URL, headers and body as [`spec_url`],
/// [`spec_headers`] and [`spec_body`] say; for an unknown one the error
/// [`unsupported_api`].
pub fn build_request(
    config: &ProviderConfig,
    api_key: &str,
    messages: &[ChatMessage],
    system_prompt: Option<&str>,
    tools: &[JsonValue],
    model: &ModelConfig,
) -> (r: Result<HttpRequest, String>)
    ensures
        match r {
            Ok(req) => spec_api_kind(config.api_type@) matches Some(kind) && req.url@ == spec_url(
                kind,
                config.base_url@,
                model.id@,
                api_key@,
            ) && pairs_view(req.headers@) == spec_headers(
                kind,
                api_key@,
                pairs_view(config.headers@),
                pairs_view(model.headers@),
            ) && json_view(req.body) == spec_body(
                kind,
                messages@,
                match system_prompt {
                    Some(s) => Some(s@),
                    None => None,
                },
                tools@,
                *model,
                config.body,
            ),
            Err(e) => spec_api_kind(config.api_type@) is None && e@ == unsupported_api(config.api_type@),
        },
{
    let kind = match api_kind(config.api_type.as_str()) {
        Ok(k) => k,
        Err(e) => {
            return Err(e);
        },
    };
    let base_chars = chars_of(config.base_url.as_str());
    let mut url = trim_trailing_exec(base_chars.as_slice(), '/');
    let key = chars_of(api_key);
    let mut headers: Vec<(String, String)> = Vec::new();
    assert(pairs_view(headers@) =~= Seq::<(Seq<char>, Seq<char>)>::empty());
    let json = chars_of("application/json");
    let body = match kind {
        ApiKind::Anthropic => {
            let p = chars_of("/v1/messages");
            append_chars(&mut url, p.as_slice());
            push_pair(&mut headers, "x-api-key", key.as_slice());
            let v = chars_of("2023-06-01");
            push_pair(&mut headers, "anthropic-version", v.as_slice());
            push_pair(&mut headers, "content-type", json.as_slice());
            push_pairs(&mut headers, &config.headers);
            push_pairs(&mut headers, &model.headers);
            build_anthropic_body(messages, system_prompt, tools, model, &config.body)
        },
        ApiKind::Completion | ApiKind::Responses => {
            let p = match kind {
                ApiKind::Completion => chars_of("/chat/completions"),
                _ => chars_of("/responses"),
            };
            append_chars(&mut url, p.as_slice());
            let mut bearer = chars_of("Bearer ");
            append_chars(&mut bearer, key.as_slice());
            push_pair(&mut headers, "Authorization", bearer.as_slice());
            push_pair(&mut headers, "content-type", json.as_slice());
            push_pairs(&mut headers, &config.headers);
            push_pairs(&mut headers, &model.headers);
            match kind {
                ApiKind::Completion => build_completion_body(messages, system_prompt, tools, model, &config.body),
                _ => build_responses_body(messages, system_prompt, tools, model, &config.body),
            }
        },
        ApiKind::Google => {
            let p = chars_of("/v1beta/models/");
            append_chars(&mut url, p.as_slice());
            let id = chars_of(model.id.as_str());
            append_chars(&mut url, id.as_slice());
            let q = chars_of(":streamGenerateContent?alt=sse&key=");
            append_chars(&mut url, q.as_slice());
            append_chars(&mut url, key.as_slice());
            let mut b = build_gemini_body(messages, system_prompt, tools, model);
            deep_merge_json(&mut b, &config.body);
            deep_merge_json(&mut b, &model.body);
            b
        },
    };
    Ok(HttpRequest { url: string_of(url.as_slice()), headers, body })
}

/// The first words of the error a provider's failed answer is reported with.
pub open spec fn error_prefix(kind: ApiKind) -> Seq<char> {
    match kind {
        ApiKind::Anthropic => "Anthropic API error "@,
        ApiKind::Completion => "API error "@,
        ApiKind::Responses => "Responses API error "@,
        ApiKind::Google => "Gemini API error "@,
    }
}

/// The error reported for an answer that is not a success: the protocol's
/// words, the HTTP status as shown, then the answer's text.
pub fn api_error_text(kind: ApiKind, status: &str, text: &str) -> (r: String)
    ensures
        r@ == error_prefix(kind) + status@ + ": "@ + text@,
{
    let mut v = match kind {
        ApiKind::Anthropic => chars_of("Anthropic API error "),
        ApiKind::Completion => chars_of("API error "),
        ApiKind::Responses => chars_of("Responses API error "),
        ApiKind::Google => chars_of("Gemini API error "),
    };
    let s = chars_of(status);
    append_chars(&mut v, s.as_slice());
    let sep = chars_of(": ");
    append_chars(&mut v, sep.as_slice());
    let t = chars_of(text);
    append_chars(&mut v, t.as_slice());
    string_of(v.as_slice())
}

} // verus!
