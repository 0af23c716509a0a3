//! Providers, credentials, errors and the normalisation of the model lists
//! that each provider's API returns.
use vstd::prelude::*;

use crate::reasoning::{ReasoningEffort, effort_name};
use crate::text::{chars_of, owned, push_str, trim, trim_chars};
use crate::usage::Usage;

verus! {

/// Supported LLM providers.
#[derive(Debug, Clone, Copy, PartialEq, Eq, Structural)]
pub enum ModeloLLM {
    Gemini,
    DeepSeek,
    OpenAI,
    ChatGPT,
}

/// The name under which a provider is shown to the user.
pub open spec fn provider_label(p: ModeloLLM) -> Seq<char> {
    match p {
        ModeloLLM::Gemini => "Gemini"@,
        ModeloLLM::DeepSeek => "DeepSeek"@,
        ModeloLLM::OpenAI => "OpenAI API"@,
        ModeloLLM::ChatGPT => "ChatGPT Subscription"@,
    }
}

/// The providers in the order in which menus list them.
pub open spec fn provider_order() -> Seq<ModeloLLM> {
    seq![ModeloLLM::Gemini, ModeloLLM::DeepSeek, ModeloLLM::OpenAI, ModeloLLM::ChatGPT]
}

/// Whether the provider accepts a reasoning level.
pub open spec fn takes_reasoning(p: ModeloLLM) -> bool {
    p == ModeloLLM::OpenAI || p == ModeloLLM::ChatGPT
}

impl ModeloLLM {
    /// The name under which the provider is shown to the user.
    pub fn display_name(self) -> (r: &'static str)
        ensures
            r@ == provider_label(self),
    {
        match self {
            ModeloLLM::Gemini => "Gemini",
            ModeloLLM::DeepSeek => "DeepSeek",
            ModeloLLM::OpenAI => "OpenAI API",
            ModeloLLM::ChatGPT => "ChatGPT Subscription",
        }
    }
}

/// The supported providers: Gemini, DeepSeek, OpenAI, ChatGPT, in that order.
pub fn listar_provedores() -> (r: Vec<ModeloLLM>)
    ensures
        r@ == provider_order(),
{
    let mut v = Vec::new();
    v.push(ModeloLLM::Gemini);
    v.push(ModeloLLM::DeepSeek);
    v.push(ModeloLLM::OpenAI);
    v.push(ModeloLLM::ChatGPT);
    assert(v@ =~= provider_order());
    v
}

/// The position of a provider in [`listar_provedores`].
pub fn provider_index(p: ModeloLLM) -> (r: usize)
    ensures
        r < provider_order().len(),
        provider_order()[r as int] == p,
{
    match p {
        ModeloLLM::Gemini => 0,
        ModeloLLM::DeepSeek => 1,
        ModeloLLM::OpenAI => 2,
        ModeloLLM::ChatGPT => 3,
    }
}

/// Whether the provider accepts a reasoning level (only OpenAI and ChatGPT do).
pub fn proveedor_admite_razonamiento(provider: ModeloLLM) -> (r: bool)
    ensures
        r == takes_reasoning(provider),
{
    match provider {
        ModeloLLM::OpenAI | ModeloLLM::ChatGPT => true,
        _ => false,
    }
}

/// The label of the reasoning level in the configuration menu.
pub open spec fn reasoning_setting_label(p: ModeloLLM, e: Option<ReasoningEffort>) -> Seq<char> {
    if !takes_reasoning(p) {
        "no aplica"@
    } else {
        match e {
            Some(level) => effort_name(level),
            None => "automático"@,
        }
    }
}

/// The label of the reasoning level in the configuration menu: `"no aplica"`
/// for providers without reasoning, else the level or `"automático"`.
pub fn formato_nivel_razonamiento(
    provider: ModeloLLM,
    reasoning_effort: Option<ReasoningEffort>,
) -> (r: String)
    ensures
        r@ == reasoning_setting_label(provider, reasoning_effort),
{
    let mut s = String::new();
    if !proveedor_admite_razonamiento(provider) {
        push_str(&mut s, "no aplica");
        return s;
    }
    match reasoning_effort {
        Some(level) => push_str(&mut s, level.as_str()),
        None => push_str(&mut s, "automático"),
    }
    s
}

/// Errors of the provider layer.
#[derive(Debug)]
pub enum BrainError {
    /// Streaming a response failed.
    Stream(String),
    /// Listing the available models failed.
    ListModels(String),
    /// Changing the conversation memory failed.
    Memory(String),
    /// Setting up a provider failed.
    Provider(String),
}

/// The message of an error.
pub open spec fn brain_error_text(e: BrainError) -> Seq<char> {
    match e {
        BrainError::Stream(m) => "Error de streaming del proveedor: "@ + m@,
        BrainError::ListModels(m) => "Error al listar modelos: "@ + m@,
        BrainError::Memory(m) => "Error de memoria: "@ + m@,
        BrainError::Provider(m) => "Error de configuración del proveedor: "@ + m@,
    }
}

impl BrainError {
    /// The message shown for the error.
    pub fn message(&self) -> (r: String)
        ensures
            r@ == brain_error_text(*self),
    {
        let mut s = String::new();
        match self {
            BrainError::Stream(m) => {
                push_str(&mut s, "Error de streaming del proveedor: ");
                push_str(&mut s, m.as_str());
            },
            BrainError::ListModels(m) => {
                push_str(&mut s, "Error al listar modelos: ");
                push_str(&mut s, m.as_str());
            },
            BrainError::Memory(m) => {
                push_str(&mut s, "Error de memoria: ");
                push_str(&mut s, m.as_str());
            },
            BrainError::Provider(m) => {
                push_str(&mut s, "Error de configuración del proveedor: ");
                push_str(&mut s, m.as_str());
            },
        }
        s
    }
}

/// The credential with which a provider is set up: an API key held in memory
/// only, or the file in which the ChatGPT OAuth session is kept.
#[derive(Clone)]
pub enum ProviderCredential {
    ApiKey(String),
    ChatGptOAuth { auth_file: String },
}

/// How a credential is shown in diagnostics: an API key never shows its
/// value; the OAuth form shows its session file between quotes (as it is,
/// without escaping).
pub open spec fn credential_text(c: ProviderCredential) -> Seq<char> {
    match c {
        ProviderCredential::ApiKey(_) => "ApiKey(<redacted>)"@,
        ProviderCredential::ChatGptOAuth { auth_file } => "ChatGptOAuth { auth_file: \""@
            + auth_file@ + "\" }"@,
    }
}

impl ProviderCredential {
    /// The credential as shown in diagnostics, with any API key hidden.
    pub fn redacted(&self) -> (r: String)
        ensures
            r@ == credential_text(*self),
    {
        match self {
            ProviderCredential::ApiKey(_) => owned("ApiKey(<redacted>)"),
            ProviderCredential::ChatGptOAuth { auth_file } => {
                let mut s = owned("ChatGptOAuth { auth_file: \"");
                push_str(&mut s, auth_file.as_str());
                push_str(&mut s, "\" }");
                s
            },
        }
    }
}

/// Whether the credential is an API key that is not blank.
pub open spec fn usable_api_key(c: ProviderCredential) -> bool {
    c matches ProviderCredential::ApiKey(k) && trim(k@).len() > 0
}

/// Whether a key is blank once trimmed.
fn is_blank(key: &String) -> (r: bool)
    ensures
        r == (trim(key@).len() == 0),
{
    let cs = chars_of(key.as_str());
    let t = trim_chars(&cs);
    t.len() == 0
}

/// The API key of the credential for listing models; an error where the
/// credential is not a non-blank API key.
pub fn require_api_key(credential: &ProviderCredential) -> (r: Result<&str, BrainError>)
    ensures
        usable_api_key(*credential) ==> (r matches Ok(k) && k@ == credential->ApiKey_0@),
        !usable_api_key(*credential) ==> (r matches Err(BrainError::ListModels(m)) && m@
            == "El proveedor requiere una API key"@),
{
    match credential {
        ProviderCredential::ApiKey(key) => {
            if !is_blank(key) {
                return Ok(key.as_str());
            }
        },
        _ => {},
    }
    Err(BrainError::ListModels(owned("El proveedor requiere una API key")))
}

/// Checks that a credential suits a provider before the provider is set up:
/// API-key providers need a non-blank key, ChatGPT needs an OAuth session.
pub fn check_agent_credential(provider: ModeloLLM, credential: &ProviderCredential) -> (r: Result<
    (),
    BrainError,
>)
    ensures
        provider != ModeloLLM::ChatGPT ==> (r is Ok <==> usable_api_key(*credential)),
        provider == ModeloLLM::ChatGPT ==> (r is Ok <==> credential is ChatGptOAuth),
        provider != ModeloLLM::ChatGPT && r is Err ==> (r matches Err(BrainError::Provider(m))
            && m@ == "El proveedor requiere una API key"@),
        provider == ModeloLLM::ChatGPT && r is Err ==> (r matches Err(BrainError::Provider(m))
            && m@ == "ChatGPT Subscription requiere una sesión OAuth"@),
{
    match provider {
        ModeloLLM::ChatGPT => match credential {
            ProviderCredential::ChatGptOAuth { .. } => Ok(()),
            _ => Err(
                BrainError::Provider(owned("ChatGPT Subscription requiere una sesión OAuth")),
            ),
        },
        _ => match credential {
            ProviderCredential::ApiKey(key) => {
                if is_blank(key) {
                    Err(BrainError::Provider(owned("El proveedor requiere una API key")))
                } else {
                    Ok(())
                }
            },
            _ => Err(BrainError::Provider(owned("El proveedor requiere una API key"))),
        },
    }
}

/// How a provider's model listing is reached.
pub enum ListingAuth {
    /// With this API key.
    ApiKey(String),
    /// With the OAuth session stored in this file.
    OAuthSession(String),
}

/// How the listing of `provider` is reached with `credential`: API-key
/// providers need a non-blank key, the ChatGPT subscription its OAuth session;
/// anything else is a listing error.
pub open spec fn listing_access(p: ModeloLLM, c: ProviderCredential, r: Result<ListingAuth, BrainError>) -> bool {
    if p == ModeloLLM::ChatGPT {
        match c {
            ProviderCredential::ChatGptOAuth { auth_file } => r matches Ok(
                ListingAuth::OAuthSession(f),
            ) && f@ == auth_file@,
            _ => r matches Err(BrainError::ListModels(m)) && m@
                == "ChatGPT Subscription requiere una sesión OAuth"@,
        }
    } else if usable_api_key(c) {
        r matches Ok(ListingAuth::ApiKey(k)) && k@ == c->ApiKey_0@
    } else {
        r matches Err(BrainError::ListModels(m)) && m@ == "El proveedor requiere una API key"@
    }
}

/// How the listing of `provider` is reached with `credential`.
pub fn listing_auth(provider: ModeloLLM, credential: &ProviderCredential) -> (r: Result<
    ListingAuth,
    BrainError,
>)
    ensures
        listing_access(provider, *credential, r),
{
    if provider == ModeloLLM::ChatGPT {
        match credential {
            ProviderCredential::ChatGptOAuth { auth_file } => Ok(
                ListingAuth::OAuthSession(owned(auth_file.as_str())),
            ),
            _ => Err(
                BrainError::ListModels(owned("ChatGPT Subscription requiere una sesión OAuth")),
            ),
        }
    } else {
        match require_api_key(credential) {
            Ok(k) => Ok(ListingAuth::ApiKey(owned(k))),
            Err(e) => Err(e),
        }
    }
}

/// Whether the agent is sent the temperature: always for Gemini and
/// DeepSeek; for OpenAI only without a reasoning level (reasoning models may
/// refuse it); never for the ChatGPT subscription.
pub open spec fn sends_temperature(p: ModeloLLM, e: Option<ReasoningEffort>) -> bool {
    match p {
        ModeloLLM::Gemini | ModeloLLM::DeepSeek => true,
        ModeloLLM::OpenAI => e is None,
        ModeloLLM::ChatGPT => false,
    }
}

/// Whether the agent of `provider` is sent the temperature.
pub fn uses_temperature(provider: ModeloLLM, effort: Option<ReasoningEffort>) -> (r: bool)
    ensures
        r == sends_temperature(provider, effort),
{
    match provider {
        ModeloLLM::Gemini | ModeloLLM::DeepSeek => true,
        ModeloLLM::OpenAI => effort.is_none(),
        ModeloLLM::ChatGPT => false,
    }
}

/// The reasoning level sent to the agent: the configured one for providers
/// that take reasoning, none for the others.
pub fn reasoning_request(provider: ModeloLLM, effort: Option<ReasoningEffort>) -> (r: Option<
    ReasoningEffort,
>)
    ensures
        r == (if takes_reasoning(provider) {
            effort
        } else {
            None
        }),
{
    if proveedor_admite_razonamiento(provider) {
        effort
    } else {
        None
    }
}

/// A model, described independently of its provider.
#[derive(Debug, Clone)]
pub struct InfoModelo {
    pub id: String,
    pub owned_by: String,
}

/// A model in DeepSeek's listing.
#[derive(Debug, Clone)]
pub struct ModelEntry {
    pub id: String,
    pub owned_by: String,
}

/// DeepSeek's listing of models.
#[derive(Debug, Clone)]
pub struct ModelsResponse {
    pub data: Vec<ModelEntry>,
}

/// A model in Gemini's listing.
#[derive(Debug, Clone)]
pub struct GeminiModelEntry {
    pub name: String,
    pub display_name: String,
}

/// Gemini's listing of models.
#[derive(Debug, Clone)]
pub struct GeminiModelsResponse {
    pub models: Vec<GeminiModelEntry>,
}

/// A model in OpenAI's listing.
#[derive(Debug, Clone)]
pub struct OpenAIModelEntry {
    pub id: String,
    pub owned_by: String,
}

/// A model in the ChatGPT subscription's listing.
#[derive(Debug, Clone)]
pub struct ChatGPTModelEntry {
    pub slug: String,
    pub display_name: Option<String>,
    pub visibility: Option<String>,
    pub priority: Option<i32>,
    pub tool_mode: Option<String>,
}

/// The owner that an OpenAI listing entry without one gets: `"openai"`.
pub fn default_owner() -> (r: String)
    ensures
        r@ == "openai"@,
{
    owned("openai")
}

/// A Gemini model name without its `"models/"` prefix, where it has one.
pub open spec fn strip_models_prefix(name: Seq<char>) -> Seq<char> {
    if name.len() >= 7 && name.take(7) == "models/"@ {
        name.skip(7)
    } else {
        name
    }
}

/// A Gemini model name without its `"models/"` prefix.
pub fn gemini_model_id(name: &str) -> (r: String)
    ensures
        r@ == strip_models_prefix(name@),
{
    let cs = chars_of(name);
    let prefix = chars_of("models/");
    proof {
        reveal_strlit("models/");
    }
    let mut prefixed = cs.len() >= 7;
    let mut i: usize = 0;
    while prefixed && i < 7
        invariant
            prefix@ == "models/"@,
            prefix@.len() == 7,
            i <= 7,
            prefixed ==> cs@.len() >= 7 && forall|k: int| 0 <= k < i ==> cs@[k] == prefix@[k],
            !prefixed ==> cs@.len() < 7 || exists|k: int| 0 <= k < 7 && cs@[k] != prefix@[k],
        decreases 7 - i,
    {
        if cs[i] != prefix[i] {
            prefixed = false;
        }
        i = i + 1;
    }
    let mut out = String::new();
    if prefixed {
        assert(cs@.take(7) =~= "models/"@);
        let mut j: usize = 7;
        while j < cs.len()
            invariant
                7 <= j <= cs@.len(),
                out@ =~= cs@.subrange(7, j as int),
            decreases cs.len() - j,
        {
            crate::text::push_char(&mut out, cs[j]);
            j = j + 1;
        }
        assert(cs@.subrange(7, cs@.len() as int) =~= cs@.skip(7));
    } else {
        assert(!(cs@.len() >= 7 && cs@.take(7) == "models/"@)) by {
            if cs@.len() >= 7 && cs@.take(7) == "models/"@ {
                let k = choose|k: int| 0 <= k < 7 && cs@[k] != prefix@[k];
                assert(cs@[k] == cs@.take(7)[k]);
            }
        }
        push_str(&mut out, name);
    }
    out
}

/// The normalised description of a DeepSeek listing entry.
pub fn info_from_deepseek(entry: ModelEntry) -> (r: InfoModelo)
    ensures
        r.id@ == entry.id@,
        r.owned_by@ == entry.owned_by@,
{
    InfoModelo { id: entry.id, owned_by: entry.owned_by }
}

/// The normalised description of an OpenAI listing entry.
pub fn info_from_openai(entry: OpenAIModelEntry) -> (r: InfoModelo)
    ensures
        r.id@ == entry.id@,
        r.owned_by@ == entry.owned_by@,
{
    InfoModelo { id: entry.id, owned_by: entry.owned_by }
}

/// The normalised description of a Gemini listing entry: its name without
/// `"models/"`, owned by `"google"`.
pub fn info_from_gemini(entry: &GeminiModelEntry) -> (r: InfoModelo)
    ensures
        r.id@ == strip_models_prefix(entry.name@),
        r.owned_by@ == "google"@,
{
    InfoModelo { id: gemini_model_id(entry.name.as_str()), owned_by: owned("google") }
}

/// The slug of a ChatGPT listing entry and its owner, `"chatgpt"`.
pub fn info_modelo(model: &ChatGPTModelEntry) -> (r: (String, String))
    ensures
        r.0@ == model.slug@,
        r.1@ == "chatgpt"@,
{
    (model.slug.clone(), owned("chatgpt"))
}

/// Normalises a DeepSeek listing, entry by entry, in order.
pub fn infos_from_deepseek(entries: Vec<ModelEntry>) -> (r: Vec<InfoModelo>)
    ensures
        r@.len() == entries@.len(),
        forall|k: int|
            0 <= k < r@.len() ==> #[trigger] r@[k].id@ == entries@[k].id@ && r@[k].owned_by@
                == entries@[k].owned_by@,
{
    let ghost orig = entries@;
    let mut rest = entries;
    let mut out: Vec<InfoModelo> = Vec::new();
    while rest.len() > 0
        invariant
            out@.len() + rest@.len() == orig.len(),
            rest@ == orig.skip(out@.len() as int),
            forall|k: int|
                0 <= k < out@.len() ==> #[trigger] out@[k].id@ == orig[k].id@ && out@[k].owned_by@
                    == orig[k].owned_by@,
        decreases rest@.len(),
    {
        let e = rest.remove(0);
        assert(rest@ =~= orig.skip(out@.len() + 1int));
        out.push(info_from_deepseek(e));
    }
    out
}

/// Normalises an OpenAI listing, entry by entry, in order.
pub fn infos_from_openai(entries: Vec<OpenAIModelEntry>) -> (r: Vec<InfoModelo>)
    ensures
        r@.len() == entries@.len(),
        forall|k: int|
            0 <= k < r@.len() ==> #[trigger] r@[k].id@ == entries@[k].id@ && r@[k].owned_by@
                == entries@[k].owned_by@,
{
    let ghost orig = entries@;
    let mut rest = entries;
    let mut out: Vec<InfoModelo> = Vec::new();
    while rest.len() > 0
        invariant
            out@.len() + rest@.len() == orig.len(),
            rest@ == orig.skip(out@.len() as int),
            forall|k: int|
                0 <= k < out@.len() ==> #[trigger] out@[k].id@ == orig[k].id@ && out@[k].owned_by@
                    == orig[k].owned_by@,
        decreases rest@.len(),
    {
        let e = rest.remove(0);
        assert(rest@ =~= orig.skip(out@.len() + 1int));
        out.push(info_from_openai(e));
    }
    out
}

/// Normalises a Gemini listing, entry by entry, in order.
pub fn infos_from_gemini(entries: &Vec<GeminiModelEntry>) -> (r: Vec<InfoModelo>)
    ensures
        r@.len() == entries@.len(),
        forall|k: int|
            0 <= k < r@.len() ==> #[trigger] r@[k].id@ == strip_models_prefix(entries@[k].name@)
                && r@[k].owned_by@ == "google"@,
{
    let mut out: Vec<InfoModelo> = Vec::new();
    let mut i: usize = 0;
    while i < entries.len()
        invariant
            i <= entries@.len(),
            out@.len() == i,
            forall|k: int|
                0 <= k < i ==> #[trigger] out@[k].id@ == strip_models_prefix(entries@[k].name@)
                    && out@[k].owned_by@ == "google"@,
        decreases entries.len() - i,
    {
        out.push(info_from_gemini(&entries[i]));
        i = i + 1;
    }
    out
}

/// Normalises a ChatGPT listing, entry by entry, in order.
pub fn infos_from_chatgpt(entries: &Vec<ChatGPTModelEntry>) -> (r: Vec<InfoModelo>)
    ensures
        r@.len() == entries@.len(),
        forall|k: int|
            0 <= k < r@.len() ==> #[trigger] r@[k].id@ == entries@[k].slug@ && r@[k].owned_by@
                == "chatgpt"@,
{
    let mut out: Vec<InfoModelo> = Vec::new();
    let mut i: usize = 0;
    while i < entries.len()
        invariant
            i <= entries@.len(),
            out@.len() == i,
            forall|k: int|
                0 <= k < i ==> #[trigger] out@[k].id@ == entries@[k].slug@ && out@[k].owned_by@
                    == "chatgpt"@,
        decreases entries.len() - i,
    {
        let (id, owned_by) = info_modelo(&entries[i]);
        out.push(InfoModelo { id, owned_by });
        i = i + 1;
    }
    out
}

/// Whether a ChatGPT entry is offered for selection: its visibility is
/// `"list"`, or it gives none.
pub open spec fn is_listed(m: ChatGPTModelEntry) -> bool {
    match m.visibility {
        Some(v) => v@ == "list"@,
        None => true,
    }
}

/// The key by which ChatGPT entries are ordered: their priority, or
/// `i32::MAX` where they give none.
pub open spec fn priority_key(m: ChatGPTModelEntry) -> i32 {
    match m.priority {
        Some(p) => p,
        None => i32::MAX,
    }
}

/// The listed entries, in their given order.
pub open spec fn listed(s: Seq<ChatGPTModelEntry>) -> Seq<ChatGPTModelEntry>
    decreases s.len(),
{
    if s.len() == 0 {
        s
    } else if is_listed(s.last()) {
        listed(s.drop_last()).push(s.last())
    } else {
        listed(s.drop_last())
    }
}

/// Inserts `e` into `s` after the last entry whose key is at most `e`'s, so
/// that among equal keys the earlier entry stays first.
pub open spec fn insert_by_priority(s: Seq<ChatGPTModelEntry>, e: ChatGPTModelEntry) -> Seq<
    ChatGPTModelEntry,
>
    decreases s.len(),
{
    if s.len() == 0 || priority_key(s.last()) <= priority_key(e) {
        s.push(e)
    } else {
        insert_by_priority(s.drop_last(), e).push(s.last())
    }
}

/// The stable sort of `s` by priority key.
pub open spec fn sort_by_priority(s: Seq<ChatGPTModelEntry>) -> Seq<ChatGPTModelEntry>
    decreases s.len(),
{
    if s.len() == 0 {
        s
    } else {
        insert_by_priority(sort_by_priority(s.drop_last()), s.last())
    }
}

/// Whether `s` is ordered by priority key.
pub open spec fn priority_sorted(s: Seq<ChatGPTModelEntry>) -> bool {
    forall|i: int, j: int| 0 <= i <= j < s.len() ==> priority_key(s[i]) <= priority_key(s[j])
}

fn visibility_is_list(m: &ChatGPTModelEntry) -> (r: bool)
    ensures
        r == is_listed(*m),
{
    match &m.visibility {
        Some(v) => crate::text::chars_eq_str(&chars_of(v.as_str()), "list"),
        None => true,
    }
}

fn priority_of(m: &ChatGPTModelEntry) -> (r: i32)
    ensures
        r == priority_key(*m),
{
    match m.priority {
        Some(p) => p,
        None => i32::MAX,
    }
}

proof fn lemma_insert_at(s: Seq<ChatGPTModelEntry>, e: ChatGPTModelEntry, j: int)
    requires
        0 <= j <= s.len(),
        j == 0 || priority_key(s[j - 1]) <= priority_key(e),
        forall|k: int| j <= k < s.len() ==> priority_key(s[k]) > priority_key(e),
    ensures
        insert_by_priority(s, e) == s.insert(j, e),
    decreases s.len(),
{
    if s.len() == 0 || priority_key(s.last()) <= priority_key(e) {
        assert(j == s.len());
        assert(s.insert(j, e) =~= s.push(e));
    } else {
        lemma_insert_at(s.drop_last(), e, j);
        assert(s.insert(j, e) =~= s.drop_last().insert(j, e).push(s.last()));
    }
}

/// The ChatGPT entries offered for selection, ordered by priority (entries
/// without one last; entries of equal priority in their listing order).
pub fn listar_modelos_chatgpt(models: Vec<ChatGPTModelEntry>) -> (r: Vec<ChatGPTModelEntry>)
    ensures
        r@ == sort_by_priority(listed(models@)),
{
    let ghost orig = models@;
    let mut rest = models;
    let mut out: Vec<ChatGPTModelEntry> = Vec::new();
    let ghost done: nat = 0;
    while rest.len() > 0
        invariant
            done + rest@.len() == orig.len(),
            rest@ == orig.skip(done as int),
            out@ == sort_by_priority(listed(orig.take(done as int))),
        decreases rest@.len(),
    {
        let e = rest.remove(0);
        proof {
            assert(orig.take(done + 1int).drop_last() =~= orig.take(done as int));
            assert(orig.take(done + 1int).last() == e);
            assert(rest@ =~= orig.skip(done + 1int));
        }
        if visibility_is_list(&e) {
            let key = priority_of(&e);
            let mut j = out.len();
            while j > 0 && priority_of(&out[j - 1]) > key
                invariant
                    j <= out@.len(),
                    key == priority_key(e),
                    forall|k: int| j <= k < out@.len() ==> priority_key(out@[k]) > key,
                decreases j,
            {
                j = j - 1;
            }
            proof {
                lemma_insert_at(out@, e, j as int);
                assert(listed(orig.take(done + 1int)) == listed(orig.take(done as int)).push(e));
                assert(listed(orig.take(done + 1int)).drop_last() =~= listed(orig.take(done as int)));
            }
            out.insert(j, e);
        } else {
            assert(listed(orig.take(done + 1int)) == listed(orig.take(done as int)));
        }
        proof {
            done = done + 1;
        }
    }
    assert(orig.take(orig.len() as int) =~= orig);
    out
}

proof fn lemma_insert_keeps_sorted(s: Seq<ChatGPTModelEntry>, e: ChatGPTModelEntry)
    requires
        priority_sorted(s),
    ensures
        priority_sorted(insert_by_priority(s, e)),
        insert_by_priority(s, e).len() == s.len() + 1,
    decreases s.len(),
{
    if s.len() == 0 || priority_key(s.last()) <= priority_key(e) {
    } else {
        lemma_insert_keeps_sorted(s.drop_last(), e);
        lemma_insert_members(s.drop_last(), e);
        let t = insert_by_priority(s.drop_last(), e);
        assert forall|i: int, j: int|
            0 <= i <= j < t.push(s.last()).len() implies priority_key(t.push(s.last())[i])
            <= priority_key(t.push(s.last())[j]) by {
            if j == t.len() && i < t.len() {
                let x = t[i];
                if x == e {
                } else {
                    let k = choose|k: int| 0 <= k < s.drop_last().len() && s.drop_last()[k] == x;
                    assert(s[k] == x);
                }
            }
        }
    }
}

proof fn lemma_insert_members(s: Seq<ChatGPTModelEntry>, e: ChatGPTModelEntry)
    ensures
        forall|i: int|
            0 <= i < insert_by_priority(s, e).len() ==> (#[trigger] insert_by_priority(s, e)[i]
                == e || exists|k: int| 0 <= k < s.len() && s[k] == insert_by_priority(s, e)[i]),
    decreases s.len(),
{
    if s.len() == 0 || priority_key(s.last()) <= priority_key(e) {
        assert forall|i: int|
            0 <= i < insert_by_priority(s, e).len() implies (#[trigger] insert_by_priority(s, e)[i]
            == e || exists|k: int| 0 <= k < s.len() && s[k] == insert_by_priority(s, e)[i]) by {
            if i < s.len() {
                assert(s[i] == insert_by_priority(s, e)[i]);
            }
        }
    } else {
        lemma_insert_members(s.drop_last(), e);
        let t = insert_by_priority(s.drop_last(), e);
        assert forall|i: int|
            0 <= i < insert_by_priority(s, e).len() implies (#[trigger] insert_by_priority(s, e)[i]
            == e || exists|k: int| 0 <= k < s.len() && s[k] == insert_by_priority(s, e)[i]) by {
            if i < t.len() {
                if t[i] != e {
                    let k = choose|k: int| 0 <= k < s.drop_last().len() && s.drop_last()[k] == t[i];
                    assert(s[k] == t[i]);
                }
            } else {
                assert(s[s.len() - 1] == insert_by_priority(s, e)[i]);
            }
        }
    }
}

/// The sorted listing of ChatGPT models is ordered by priority key, and holds
/// as many entries as are offered for selection.
pub proof fn law_chatgpt_listing_sorted(models: Seq<ChatGPTModelEntry>)
    ensures
        priority_sorted(sort_by_priority(listed(models))),
        sort_by_priority(listed(models)).len() == listed(models).len(),
{
    lemma_sort_sorted(listed(models));
}

proof fn lemma_sort_sorted(s: Seq<ChatGPTModelEntry>)
    ensures
        priority_sorted(sort_by_priority(s)),
        sort_by_priority(s).len() == s.len(),
    decreases s.len(),
{
    if s.len() > 0 {
        lemma_sort_sorted(s.drop_last());
        lemma_insert_keeps_sorted(sort_by_priority(s.drop_last()), s.last());
    }
}

/// Every entry of the listing is one that is offered for selection.
pub proof fn law_chatgpt_listing_only_listed(models: Seq<ChatGPTModelEntry>)
    ensures
        forall|i: int|
            0 <= i < listed(models).len() ==> is_listed(#[trigger] listed(models)[i]),
    decreases models.len(),
{
    if models.len() > 0 {
        law_chatgpt_listing_only_listed(models.drop_last());
        let prev = listed(models.drop_last());
        if is_listed(models.last()) {
            assert forall|i: int| 0 <= i < listed(models).len() implies is_listed(
                #[trigger] listed(models)[i],
            ) by {
                if i < prev.len() {
                    assert(listed(models)[i] == prev[i]);
                }
            }
        }
    }
}

/// The ChatGPT listing follows the entries' own priorities: of two entries
/// that both give one, the smaller comes first; after an entry without a
/// priority come only entries without one (or with the largest possible).
pub proof fn law_chatgpt_listing_by_priority(models: Seq<ChatGPTModelEntry>)
    ensures
        ({
            let s = sort_by_priority(listed(models));
            forall|i: int, j: int|
                0 <= i < j < s.len() ==> {
                    &&& (s[i].priority is Some && s[j].priority is Some ==> s[i].priority->0 <= s[j].priority->0)
                    &&& (s[i].priority is None ==> (s[j].priority is None || s[j].priority
                        == Some(i32::MAX)))
                }
        }),
{
    law_chatgpt_listing_sorted(models);
    let s = sort_by_priority(listed(models));
    assert forall|i: int, j: int| 0 <= i < j < s.len() implies {
        &&& (s[i].priority is Some && s[j].priority is Some ==> s[i].priority->0 <= s[j].priority->0)
        &&& (s[i].priority is None ==> (s[j].priority is None || s[j].priority == Some(i32::MAX)))
    } by {
        assert(priority_sorted(s));
        assert(priority_key(s[i]) <= priority_key(s[j]));
        match s[j].priority {
            Some(p) => {
                assert(priority_key(s[j]) == p);
            },
            None => {},
        }
        match s[i].priority {
            Some(q) => {
                assert(priority_key(s[i]) == q);
            },
            None => {
                assert(priority_key(s[i]) == i32::MAX);
            },
        }
    }
}

/// The entries of `s` whose key is `k`, in their order.
pub open spec fn with_key(s: Seq<ChatGPTModelEntry>, k: i32) -> Seq<ChatGPTModelEntry>
    decreases s.len(),
{
    if s.len() == 0 {
        s
    } else if priority_key(s.last()) == k {
        with_key(s.drop_last(), k).push(s.last())
    } else {
        with_key(s.drop_last(), k)
    }
}

proof fn lemma_insert_with_key(s: Seq<ChatGPTModelEntry>, e: ChatGPTModelEntry, k: i32)
    ensures
        with_key(insert_by_priority(s, e), k) == (if priority_key(e) == k {
            with_key(s, k).push(e)
        } else {
            with_key(s, k)
        }),
        insert_by_priority(s, e).to_multiset() =~= s.to_multiset().insert(e),
    decreases s.len(),
{
    broadcast use vstd::seq_lib::group_to_multiset_ensures;

    if s.len() == 0 || priority_key(s.last()) <= priority_key(e) {
        assert(s.push(e).drop_last() =~= s);
    } else {
        lemma_insert_with_key(s.drop_last(), e, k);
        let t = insert_by_priority(s.drop_last(), e);
        assert(t.push(s.last()).drop_last() =~= t);
        assert(s =~= s.drop_last().push(s.last()));
    }
}

proof fn lemma_sort_with_key(s: Seq<ChatGPTModelEntry>, k: i32)
    ensures
        with_key(sort_by_priority(s), k) == with_key(s, k),
        sort_by_priority(s).to_multiset() =~= s.to_multiset(),
    decreases s.len(),
{
    broadcast use vstd::seq_lib::group_to_multiset_ensures;

    if s.len() > 0 {
        lemma_sort_with_key(s.drop_last(), k);
        lemma_insert_with_key(sort_by_priority(s.drop_last()), s.last(), k);
        assert(s =~= s.drop_last().push(s.last()));
    }
}

/// The ChatGPT listing is a stable rearrangement of the listed entries: it
/// holds each of them as often as they are listed, and entries of equal
/// priority keep their listing order.
pub proof fn law_chatgpt_listing_is_stable_permutation(models: Seq<ChatGPTModelEntry>, k: i32)
    ensures
        sort_by_priority(listed(models)).to_multiset() =~= listed(models).to_multiset(),
        with_key(sort_by_priority(listed(models)), k) == with_key(listed(models), k),
{
    lemma_sort_with_key(listed(models), k);
}

/// A fragment of a streamed model response.
#[derive(Debug, Clone)]
pub enum StreamChunk {
    /// Text generated by the model.
    Text(String),
    /// Intermediate reasoning.
    Reasoning(String),
    /// Token usage at the end of a turn.
    Usage(Usage),
}

} // verus!
