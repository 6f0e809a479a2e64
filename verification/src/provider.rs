//! Chat providers: where a chat completion request goes and with which headers, how a reply
//! becomes a chat response, and the registry of providers by name.
//!
//! The request itself travels over the network outside this library; what is sent and
//! what comes back are decided here.

use vstd::prelude::*;
use crate::json::{json_element, json_member, json_str_of, json_u64_of};
use crate::table::{
    has_key, insert_entry, key_seq, keys_unique, lemma_keys_no_duplicates, lemma_lookup_at,
    lemma_lookup_insert, lookup, Table,
};
use crate::text::{join2, option_text, same_text};

verus! {

/// Represents a chat message in the conversation
#[derive(Debug, Clone)]
pub struct ChatMessage {
    pub role: String,
    pub content: String,
}

/// Token usage information
#[derive(Debug, Clone, Copy, PartialEq, Eq)]
pub struct UsageInfo {
    pub prompt_tokens: Option<u32>,
    pub completion_tokens: Option<u32>,
    pub total_tokens: Option<u32>,
}

/// Represents a response from the LLM provider
#[derive(Debug, Clone)]
pub struct ChatResponse {
    pub content: String,
    pub model: String,
    pub usage: Option<UsageInfo>,
}

/// A chat response with its texts taken as their characters.
pub struct ChatResponseView {
    pub content: Seq<char>,
    pub model: Seq<char>,
    pub usage: Option<UsageInfo>,
}

impl View for ChatResponse {
    type V = ChatResponseView;

    open spec fn view(&self) -> ChatResponseView {
        ChatResponseView { content: self.content@, model: self.model@, usage: self.usage }
    }
}

/// A token count as reported, cut to its low 32 bits.
pub open spec fn token_count(n: Option<u64>) -> Option<u32> {
    match n {
        Some(v) => Some(v as u32),
        None => None,
    }
}

/// The response made of a reply's fields: its content or else the empty text, its model or
/// else the model that was asked for, and its token counts.
pub open spec fn chat_response_of(
    content: Option<Seq<char>>,
    model: Option<Seq<char>>,
    requested_model: Seq<char>,
    prompt_tokens: Option<u64>,
    completion_tokens: Option<u64>,
    total_tokens: Option<u64>,
) -> ChatResponseView {
    ChatResponseView {
        content: match content {
            Some(c) => c,
            None => Seq::empty(),
        },
        model: match model {
            Some(m) => m,
            None => requested_model,
        },
        usage: Some(
            UsageInfo {
                prompt_tokens: token_count(prompt_tokens),
                completion_tokens: token_count(completion_tokens),
                total_tokens: token_count(total_tokens),
            },
        ),
    }
}

/// The text of the first choice's message in a reply.
pub open spec fn reply_content(reply: serde_json::Value) -> Option<Seq<char>> {
    json_str_of(
        json_member(
            json_member(json_element(json_member(reply, "choices"@), 0), "message"@),
            "content"@,
        ),
    )
}

/// The model named in a reply.
pub open spec fn reply_model(reply: serde_json::Value) -> Option<Seq<char>> {
    json_str_of(json_member(reply, "model"@))
}

/// A count in the usage section of a reply.
pub open spec fn reply_usage(reply: serde_json::Value, field: Seq<char>) -> Option<u64> {
    json_u64_of(json_member(json_member(reply, "usage"@), field))
}

/// The response that a reply gives.
pub open spec fn reply_response(reply: serde_json::Value, requested_model: Seq<char>) -> ChatResponseView {
    chat_response_of(
        reply_content(reply),
        reply_model(reply),
        requested_model,
        reply_usage(reply, "prompt_tokens"@),
        reply_usage(reply, "completion_tokens"@),
        reply_usage(reply, "total_tokens"@),
    )
}

fn token_u32(n: Option<u64>) -> (r: Option<u32>)
    ensures
        r == token_count(n),
{
    match n {
        Some(v) => Some(
            #[verifier::truncate]
            (v as u32),
        ),
        None => None,
    }
}

impl ChatResponse {
    /// The response made of a reply's fields; a missing content is empty and a missing
    /// model is the one that was asked for.
    pub fn from_parts(
        content: Option<String>,
        model: Option<String>,
        requested_model: &str,
        prompt_tokens: Option<u64>,
        completion_tokens: Option<u64>,
        total_tokens: Option<u64>,
    ) -> (r: ChatResponse)
        ensures
            r@ == chat_response_of(
                option_text(content),
                option_text(model),
                requested_model@,
                prompt_tokens,
                completion_tokens,
                total_tokens,
            ),
    {
        let content = match content {
            Some(c) => c,
            None => String::new(),
        };
        let model = match model {
            Some(m) => m,
            None => String::from_str(requested_model),
        };
        ChatResponse {
            content,
            model,
            usage: Some(
                UsageInfo {
                    prompt_tokens: token_u32(prompt_tokens),
                    completion_tokens: token_u32(completion_tokens),
                    total_tokens: token_u32(total_tokens),
                },
            ),
        }
    }

    /// The response that a chat completion reply gives: the first choice's message, the
    /// model that answered and the token usage.
    pub fn from_reply(reply: &serde_json::Value, requested_model: &str) -> (r: ChatResponse)
        ensures
            r@ == reply_response(*reply, requested_model@),
    {
        let choices = json_get(reply, "choices");
        let first = json_at(choices, 0);
        let message = json_get(first, "message");
        let content = json_text_of(json_get(message, "content"));
        let model = json_text_of(json_get(reply, "model"));
        let usage = json_get(reply, "usage");
        let prompt_tokens = json_count_of(json_get(usage, "prompt_tokens"));
        let completion_tokens = json_count_of(json_get(usage, "completion_tokens"));
        let total_tokens = json_count_of(json_get(usage, "total_tokens"));
        proof {
            reveal_strlit("choices");
            reveal_strlit("message");
            reveal_strlit("content");
            reveal_strlit("model");
            reveal_strlit("usage");
            reveal_strlit("prompt_tokens");
            reveal_strlit("completion_tokens");
            reveal_strlit("total_tokens");
        }
        ChatResponse::from_parts(
            content,
            model,
            requested_model,
            prompt_tokens,
            completion_tokens,
            total_tokens,
        )
    }
}

/// `Index<&str>` of `serde_json::Value`: the member under `key`, or `Null` where there is
/// none; the member is named by `json_member`.
#[verifier::external_body]
fn json_get<'a>(v: &'a serde_json::Value, key: &str) -> (r: &'a serde_json::Value)
    ensures
        *r == json_member(*v, key@),
{
    &v[key]
}

/// `Index<usize>` of `serde_json::Value`: the element at `i`, or `Null` where there is none;
/// the element is named by `json_element`.
#[verifier::external_body]
fn json_at<'a>(v: &'a serde_json::Value, i: usize) -> (r: &'a serde_json::Value)
    ensures
        *r == json_element(*v, i as nat),
{
    &v[i]
}

/// `serde_json::Value::as_str`, copied into a `String`; the text is named by `json_str_of`.
#[verifier::external_body]
fn json_text_of(v: &serde_json::Value) -> (r: Option<String>)
    ensures
        option_text(r) == json_str_of(*v),
{
    v.as_str().map(String::from)
}

/// `serde_json::Value::as_u64`; the count is named by `json_u64_of`.
#[verifier::external_body]
fn json_count_of(v: &serde_json::Value) -> (r: Option<u64>)
    ensures
        r == json_u64_of(*v),
{
    v.as_u64()
}

/// Where a chat completion request goes and the headers it carries.
pub struct ChatRequest {
    pub url: String,
    pub headers: Vec<(String, String)>,
}

/// A request with its texts taken as their characters.
pub struct ChatRequestView {
    pub url: Seq<char>,
    pub headers: Seq<(Seq<char>, Seq<char>)>,
}

impl View for ChatRequest {
    type V = ChatRequestView;

    open spec fn view(&self) -> ChatRequestView {
        ChatRequestView {
            url: self.url@,
            headers: self.headers@.map_values(|h: (String, String)| (h.0@, h.1@)),
        }
    }
}

/// An optional text slice taken as its characters.
pub open spec fn option_str(s: Option<&str>) -> Option<Seq<char>> {
    match s {
        Some(t) => Some(t@),
        None => None,
    }
}

/// The completions endpoint under the given base URL, or under the provider's own one.
pub open spec fn completions_url(base_url: Option<Seq<char>>, default_base: Seq<char>) -> Seq<char> {
    let base = match base_url {
        Some(b) => b,
        None => default_base,
    };
    base + "/chat/completions"@
}

/// The authorization header's value for an API key.
pub open spec fn bearer(api_key: Seq<char>) -> Seq<char> {
    "Bearer "@ + api_key
}

/// The OpenRouter API's base URL.
pub open spec fn openrouter_base() -> Seq<char> {
    "https://openrouter.ai/api/v1"@
}

/// The NVIDIA NIM API's base URL.
pub open spec fn nim_base() -> Seq<char> {
    "https://ai.api.nvidia.com/v1"@
}

/// An OpenRouter request: bearer authorization, the referer and the title of the app.
pub open spec fn openrouter_request(api_key: Seq<char>, base_url: Option<Seq<char>>) -> ChatRequestView {
    ChatRequestView {
        url: completions_url(base_url, openrouter_base()),
        headers: seq![
            ("Authorization"@, bearer(api_key)),
            ("HTTP-Referer"@, "https://agent-os.local"@),
            ("X-Title"@, "Agent OS"@),
        ],
    }
}

/// A NIM request: bearer authorization, asking for JSON.
pub open spec fn nim_request(api_key: Seq<char>, base_url: Option<Seq<char>>) -> ChatRequestView {
    ChatRequestView {
        url: completions_url(base_url, nim_base()),
        headers: seq![("Authorization"@, bearer(api_key)), ("Accept"@, "application/json"@)],
    }
}

fn completions_endpoint(base_url: Option<&str>, default_base: &str) -> (r: String)
    ensures
        r@ == completions_url(option_str(base_url), default_base@),
{
    proof {
        reveal_strlit("/chat/completions");
    }
    match base_url {
        Some(b) => join2(b, "/chat/completions"),
        None => join2(default_base, "/chat/completions"),
    }
}

fn header(name: &str, value: String) -> (r: (String, String))
    ensures
        r.0@ == name@,
        r.1@ == value@,
{
    (String::from_str(name), value)
}

/// Abstract trait for LLM providers
pub trait LLMProvider: Send + Sync {
    /// The provider's name.
    spec fn provider_name(&self) -> Seq<char>;

    /// The request this provider sends with the given key, to the given base URL if any.
    spec fn request_for(&self, api_key: Seq<char>, base_url: Option<Seq<char>>) -> ChatRequestView;

    /// Where a chat completion request goes and with which headers
    fn chat_request(&self, api_key: &str, base_url: Option<&str>) -> (r: ChatRequest)
        ensures
            r@ == self.request_for(api_key@, option_str(base_url)),
    ;

    /// Get the provider name
    fn name(&self) -> (r: &'static str)
        ensures
            r@ == self.provider_name(),
    ;
}

/// The response a reply gives carries the text of the first choice's message (empty when
/// there is none), the model the reply names (else the one asked for), and each usage count
/// the reply reports, unchanged when it fits in 32 bits, absent when the reply has none.
pub proof fn lemma_reply_fields(reply: serde_json::Value, requested_model: Seq<char>)
    ensures
        ({
            let text = json_str_of(
                json_member(
                    json_member(json_element(json_member(reply, "choices"@), 0), "message"@),
                    "content"@,
                ),
            );
            &&& text matches Some(c) ==> reply_response(reply, requested_model).content == c
            &&& text is None ==> reply_response(reply, requested_model).content.len() == 0
        }),
        json_str_of(json_member(reply, "model"@)) matches Some(m) ==> reply_response(
            reply,
            requested_model,
        ).model == m,
        json_str_of(json_member(reply, "model"@)) is None ==> reply_response(
            reply,
            requested_model,
        ).model == requested_model,
        reply_response(reply, requested_model).usage is Some,
        ({
            let usage = reply_response(reply, requested_model).usage->0;
            let counts = json_member(reply, "usage"@);
            &&& (json_u64_of(json_member(counts, "prompt_tokens"@)) is None <==> usage.prompt_tokens
                is None)
            &&& (json_u64_of(json_member(counts, "completion_tokens"@)) is None
                <==> usage.completion_tokens is None)
            &&& (json_u64_of(json_member(counts, "total_tokens"@)) is None <==> usage.total_tokens
                is None)
            &&& ({
                let n = json_u64_of(json_member(counts, "prompt_tokens"@));
                n is Some && n->0 < 0x1_0000_0000 ==> usage.prompt_tokens->0 == n->0
            })
            &&& ({
                let n = json_u64_of(json_member(counts, "completion_tokens"@));
                n is Some && n->0 < 0x1_0000_0000 ==> usage.completion_tokens->0 == n->0
            })
            &&& ({
                let n = json_u64_of(json_member(counts, "total_tokens"@));
                n is Some && n->0 < 0x1_0000_0000 ==> usage.total_tokens->0 == n->0
            })
        }),
{
}

/// A provider type selects OpenRouter when it is "openrouter" and NIM when it is "nim",
/// "nvidia" or "nvidia-nim", once lower-cased; every other type selects nothing.
pub proof fn lemma_provider_kinds(lowered: Seq<char>)
    ensures
        provider_kind("openrouter"@) == Some("openrouter"@),
        provider_kind("nim"@) == Some("nim"@),
        provider_kind("nvidia"@) == Some("nim"@),
        provider_kind("nvidia-nim"@) == Some("nim"@),
        lowered != "openrouter"@ && lowered != "nim"@ && lowered != "nvidia"@ && lowered
            != "nvidia-nim"@ ==> provider_kind(lowered) is None,
{
    reveal_strlit("openrouter");
    reveal_strlit("nim");
    reveal_strlit("nvidia");
    reveal_strlit("nvidia-nim");
    assert("openrouter"@.len() != "nim"@.len());
    assert("openrouter"@.len() != "nvidia"@.len());
    assert("openrouter"@[0] != "nvidia-nim"@[0]);
}

/// A given base URL decides where either provider sends its requests: the completions
/// endpoint under that base. Only without one does a provider fall back to its own base.
/// Either way the request is authorized with the key as a bearer token.
pub proof fn lemma_base_url_decides_endpoint(api_key: Seq<char>, base: Seq<char>)
    ensures
        OpenRouterProvider.request_for(api_key, Some(base)).url == base + "/chat/completions"@,
        NIMProvider.request_for(api_key, Some(base)).url == base + "/chat/completions"@,
        OpenRouterProvider.request_for(api_key, None).url
            == "https://openrouter.ai/api/v1"@ + "/chat/completions"@,
        NIMProvider.request_for(api_key, None).url
            == "https://ai.api.nvidia.com/v1"@ + "/chat/completions"@,
        OpenRouterProvider.request_for(api_key, Some(base)).headers[0] == (
            "Authorization"@,
            "Bearer "@ + api_key,
        ),
        NIMProvider.request_for(api_key, Some(base)).headers[0] == (
            "Authorization"@,
            "Bearer "@ + api_key,
        ),
{
}

/// OpenRouter provider implementation
pub struct OpenRouterProvider;

impl LLMProvider for OpenRouterProvider {
    open spec fn provider_name(&self) -> Seq<char> {
        "openrouter"@
    }

    open spec fn request_for(&self, api_key: Seq<char>, base_url: Option<Seq<char>>) -> ChatRequestView {
        openrouter_request(api_key, base_url)
    }

    fn chat_request(&self, api_key: &str, base_url: Option<&str>) -> (r: ChatRequest) {
        let url = completions_endpoint(base_url, "https://openrouter.ai/api/v1");
        let mut headers: Vec<(String, String)> = Vec::new();
        headers.push(header("Authorization", join2("Bearer ", api_key)));
        headers.push(header("HTTP-Referer", String::from_str("https://agent-os.local")));
        headers.push(header("X-Title", String::from_str("Agent OS")));
        proof {
            reveal_strlit("https://openrouter.ai/api/v1");
            reveal_strlit("Bearer ");
        }
        let r = ChatRequest { url, headers };
        assert(r@.headers =~= openrouter_request(api_key@, option_str(base_url)).headers);
        r
    }

    fn name(&self) -> (r: &'static str) {
        proof {
            reveal_strlit("openrouter");
        }
        "openrouter"
    }
}

/// NVIDIA NIM provider implementation
pub struct NIMProvider;

impl LLMProvider for NIMProvider {
    open spec fn provider_name(&self) -> Seq<char> {
        "nim"@
    }

    open spec fn request_for(&self, api_key: Seq<char>, base_url: Option<Seq<char>>) -> ChatRequestView {
        nim_request(api_key, base_url)
    }

    fn chat_request(&self, api_key: &str, base_url: Option<&str>) -> (r: ChatRequest) {
        let url = completions_endpoint(base_url, "https://ai.api.nvidia.com/v1");
        let mut headers: Vec<(String, String)> = Vec::new();
        headers.push(header("Authorization", join2("Bearer ", api_key)));
        headers.push(header("Accept", String::from_str("application/json")));
        proof {
            reveal_strlit("https://ai.api.nvidia.com/v1");
            reveal_strlit("Bearer ");
        }
        let r = ChatRequest { url, headers };
        assert(r@.headers =~= nim_request(api_key@, option_str(base_url)).headers);
        r
    }

    fn name(&self) -> (r: &'static str) {
        proof {
            reveal_strlit("nim");
        }
        "nim"
    }
}

/// A registered provider. The box is held as it was given (of the provider type the
/// parameter names), so storing it never re-types it.
pub struct ProviderEntry<P: ?Sized = dyn LLMProvider>(pub Box<P>);

impl ProviderEntry {
    /// A boxed OpenRouter provider.
    fn openrouter() -> (e: ProviderEntry)
        ensures
            e.0.provider_name() == "openrouter"@,
    {
        ProviderEntry::<dyn LLMProvider>(Box::new(OpenRouterProvider))
    }

    /// A boxed NIM provider.
    fn nim() -> (e: ProviderEntry)
        ensures
            e.0.provider_name() == "nim"@,
    {
        ProviderEntry::<dyn LLMProvider>(Box::new(NIMProvider))
    }
}

/// The name of the built-in provider that a provider type, lower-cased, selects.
pub open spec fn provider_kind(lowered: Seq<char>) -> Option<Seq<char>> {
    if lowered == "openrouter"@ {
        Some("openrouter"@)
    } else if lowered == "nim"@ || lowered == "nvidia"@ || lowered == "nvidia-nim"@ {
        Some("nim"@)
    } else {
        None
    }
}

/// `str::to_lowercase`, which maps every character to its Unicode lowercase; the result is
/// named by `lowercase`.
pub uninterp spec fn lowercase(s: Seq<char>) -> Seq<char>;

/// `str::to_lowercase`; the lowered text is named by `lowercase`.
#[verifier::external_body]
fn to_lowercase(s: &str) -> (r: String)
    ensures
        r@ == lowercase(s@),
{
    s.to_lowercase()
}

/// Factory to create provider instances
pub struct ProviderFactory;

impl ProviderFactory {
    /// The provider that a provider type selects once lower-cased: "openrouter" selects
    /// OpenRouter; "nim", "nvidia" and "nvidia-nim" select NIM; any other is refused.
    pub fn provider_for(lowered: &str, provider_type: &str) -> (r: Result<Box<dyn LLMProvider>, String>)
        ensures
            r is Ok <==> provider_kind(lowered@) is Some,
            r matches Ok(p) ==> Some(p.provider_name()) == provider_kind(lowered@),
            r matches Err(e) ==> e@ == "Unknown provider type: "@ + provider_type@,
    {
        proof {
            reveal_strlit("openrouter");
            reveal_strlit("nim");
            reveal_strlit("nvidia");
            reveal_strlit("nvidia-nim");
        }
        if same_text(lowered, "openrouter") {
            // Bound before it is wrapped, so that the box is not coerced on the way in.
            let chosen = ProviderEntry::openrouter().0;
            let r = Ok(chosen);
            r
        } else if same_text(lowered, "nim") || same_text(lowered, "nvidia") || same_text(
            lowered,
            "nvidia-nim",
        ) {
            let chosen = ProviderEntry::nim().0;
            let r = Ok(chosen);
            r
        } else {
            Err(join2("Unknown provider type: ", provider_type))
        }
    }

    /// The provider that a provider type names, letters compared without case.
    pub fn create_provider(provider_type: &str) -> (r: Result<Box<dyn LLMProvider>, String>)
        ensures
            r is Ok <==> provider_kind(lowercase(provider_type@)) is Some,
            r matches Ok(p) ==> Some(p.provider_name()) == provider_kind(
                lowercase(provider_type@),
            ),
            r matches Err(e) ==> e@ == "Unknown provider type: "@ + provider_type@,
    {
        let lowered = to_lowercase(provider_type);
        Self::provider_for(lowered.as_str(), provider_type)
    }
}

/// Providers by name, in the order they were first registered.
pub type RegisteredProviders = Seq<(Seq<char>, ProviderEntry)>;

/// Provider manager that handles provider selection and fallback
pub struct ProviderManager {
    providers: Table<String, ProviderEntry>,
}

impl View for ProviderManager {
    type V = RegisteredProviders;

    closed spec fn view(&self) -> RegisteredProviders {
        self.providers@
    }
}

/// The provider registered under `name`, if any.
pub open spec fn registered_provider(s: RegisteredProviders, name: Seq<char>) -> Option<
    Box<dyn LLMProvider>,
> {
    match lookup(s, name) {
        Some(e) => Some(e.0),
        None => None,
    }
}

/// The names under which a new manager holds the built-in providers.
pub open spec fn builtin_names() -> Seq<Seq<char>> {
    seq!["openrouter"@, "nim"@, "nvidia"@, "nvidia-nim"@]
}

/// A provider that `register_provider` stored under a name is what a read of the name
/// gives back; reads of other names are unchanged.
pub proof fn lemma_registered_provider_found(
    before: RegisteredProviders,
    name: Seq<char>,
    entry: ProviderEntry,
    q: Seq<char>,
)
    requires
        keys_unique(before),
    ensures
        registered_provider(insert_entry(before, name, entry), q) === if q == name {
            Some(entry.0)
        } else {
            registered_provider(before, q)
        },
{
    lemma_lookup_insert(before, name, entry, q);
}

/// A new manager holds under each built-in name the provider that the factory selects for
/// that name.
pub proof fn lemma_builtins_match_factory(m: RegisteredProviders)
    requires
        key_seq(m) == builtin_names(),
        m[0].1.0.provider_name() == "openrouter"@,
        m[1].1.0.provider_name() == "nim"@,
        m[2].1.0.provider_name() == "nim"@,
        m[3].1.0.provider_name() == "nim"@,
    ensures
        forall|i: int| 0 <= i < m.len() ==> Some((#[trigger] m[i]).1.0.provider_name()) == provider_kind(m[i].0),
{
    reveal_strlit("openrouter");
    reveal_strlit("nim");
    reveal_strlit("nvidia");
    reveal_strlit("nvidia-nim");
    assert(m.len() == 4) by {
        assert(key_seq(m).len() == m.len());
    }
    assert forall|i: int| 0 <= i < m.len() implies Some((#[trigger] m[i]).1.0.provider_name())
        == provider_kind(m[i].0) by {
        assert(m[i].0 == key_seq(m)[i]);
        assert("openrouter"@.len() != "nim"@.len());
        assert("openrouter"@.len() != "nvidia"@.len());
        assert("openrouter"@[0] != "nvidia-nim"@[0]);
    }
}

impl ProviderManager {
    /// A manager holding OpenRouter under "openrouter" and NIM under "nim", "nvidia" and
    /// "nvidia-nim".
    pub fn new() -> (m: Self)
        ensures
            key_seq(m@) == builtin_names(),
            m@[0].1.0.provider_name() == "openrouter"@,
            m@[1].1.0.provider_name() == "nim"@,
            m@[2].1.0.provider_name() == "nim"@,
            m@[3].1.0.provider_name() == "nim"@,
            keys_unique(m@),
    {
        let mut providers: Table<String, ProviderEntry> = Table::new();
        proof {
            reveal_strlit("openrouter");
            reveal_strlit("nim");
            reveal_strlit("nvidia");
            reveal_strlit("nvidia-nim");
        }
        let e1 = ProviderEntry::openrouter();
        let e2 = ProviderEntry::nim();
        let e3 = ProviderEntry::nim();
        let e4 = ProviderEntry::nim();
        let ghost (g1, g2, g3, g4) = (e1, e2, e3, e4);
        providers.insert(String::from_str("openrouter"), e1);
        assert(providers@ =~= seq![("openrouter"@, g1)]);
        assert(!has_key(providers@, "nim"@)) by {
            assert("openrouter"@.len() != "nim"@.len());
        }
        providers.insert(String::from_str("nim"), e2);
        assert(providers@ =~= seq![("openrouter"@, g1), ("nim"@, g2)]);
        assert(!has_key(providers@, "nvidia"@)) by {
            assert("openrouter"@.len() != "nvidia"@.len());
            assert("nim"@.len() != "nvidia"@.len());
        }
        providers.insert(String::from_str("nvidia"), e3);
        assert(providers@ =~= seq![("openrouter"@, g1), ("nim"@, g2), ("nvidia"@, g3)]);
        assert(!has_key(providers@, "nvidia-nim"@)) by {
            assert("openrouter"@[0] != "nvidia-nim"@[0]);
            assert("nim"@.len() != "nvidia-nim"@.len());
            assert("nvidia"@.len() != "nvidia-nim"@.len());
        }
        providers.insert(String::from_str("nvidia-nim"), e4);
        assert(providers@ =~= seq![
            ("openrouter"@, g1),
            ("nim"@, g2),
            ("nvidia"@, g3),
            ("nvidia-nim"@, g4),
        ]);
        let m = ProviderManager { providers };
        assert(key_seq(m@) =~= builtin_names());
        m.check_invariants();
        m
    }

    /// Confirms what every manager keeps: no name is registered twice.
    pub fn check_invariants(&self)
        ensures
            keys_unique(self@),
    {
        self.providers.check_keys();
    }

    /// Register a provider under a name; one already there is replaced
    pub fn register_provider(&mut self, name: &str, provider: Box<dyn LLMProvider>)
        ensures
            keys_unique(final(self)@),
            has_key(old(self)@, name@) ==> key_seq(final(self)@) == key_seq(old(self)@),
            !has_key(old(self)@, name@) ==> key_seq(final(self)@) == key_seq(old(self)@).push(name@),
            registered_provider(final(self)@, name@) === Some(provider),
            forall|q: Seq<char>| q != name@ ==> registered_provider(final(self)@, q)
                === registered_provider(old(self)@, q),
    {
        self.providers.check_keys();
        let ghost before = self@;
        let entry = ProviderEntry(provider);
        self.providers.insert(String::from_str(name), entry);
        proof {
            if has_key(before, name@) {
                assert(key_seq(self@) =~= key_seq(before));
            } else {
                assert(key_seq(self@) =~= key_seq(before).push(name@));
            }
            assert forall|q: Seq<char>| true implies registered_provider(self@, q) === if q == name@ {
                Some(entry.0)
            } else {
                registered_provider(before, q)
            } by {
                lemma_registered_provider_found(before, name@, entry, q);
            }
        }
    }

    /// The provider registered under a name
    pub fn get_provider(&self, name: &str) -> (r: Option<&Box<dyn LLMProvider>>)
        ensures
            match r {
                Some(p) => registered_provider(self@, name@) === Some(*p),
                None => registered_provider(self@, name@).is_none(),
            },
    {
        let key = String::from_str(name);
        self.providers.check_keys();
        match self.providers.find(&key) {
            Some(i) => {
                proof {
                    lemma_lookup_at(self.providers@, i as int);
                }
                Some(&self.providers.value_at(i).0)
            },
            None => None,
        }
    }

    /// The names of the registered providers, in the order they were first registered
    pub fn list_providers(&self) -> (r: Vec<String>)
        ensures
            r@.map_values(|s: String| s@) == key_seq(self@),
            r@.map_values(|s: String| s@).no_duplicates(),
    {
        self.providers.check_keys();
        proof {
            lemma_keys_no_duplicates(self@);
        }
        self.providers.keys()
    }
}

} // verus!
