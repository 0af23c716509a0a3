//! The decisions of setting up and editing the configuration: where the
//! system prompt lives, where an API key comes from, which credential and
//! model a change of provider keeps, what the model menu offers, and what
//! the configuration menu shows and does. Prompting the user, the disk and
//! the network are left to the caller.
use vstd::prelude::*;

use crate::brain::{
    BrainError, InfoModelo, ModeloLLM, ProviderCredential, brain_error_text, provider_label,
    reasoning_setting_label, formato_nivel_razonamiento, proveedor_admite_razonamiento,
    takes_reasoning,
};
use crate::reasoning::ReasoningEffort;
use crate::text::{chars_of, owned, push_char, push_str, string_of, trim, trim_chars};

verus! {

/// The name of the system prompt file when the configuration gives none.
pub fn default_prompt_file() -> (r: String)
    ensures
        r@ == "system_prompt.md"@,
{
    owned("system_prompt.md")
}

/// Where the system prompt is: an absolute `file` as it is, else `file`
/// under `dir`, joined by a `/` unless `dir` is empty or already ends in one.
pub open spec fn prompt_path(dir: Seq<char>, file: Seq<char>) -> Seq<char> {
    if file.len() > 0 && file[0] == '/' {
        file
    } else if dir.len() == 0 || dir.last() == '/' {
        dir + file
    } else {
        dir + seq!['/'] + file
    }
}

/// The path of the system prompt file `prompt_file`, relative to the
/// configuration directory unless it is absolute.
pub fn resolver_prompt_path(config_dir: &str, prompt_file: &str) -> (r: String)
    ensures
        r@ == prompt_path(config_dir@, prompt_file@),
{
    let file = chars_of(prompt_file);
    if file.len() > 0 && file[0] == '/' {
        return string_of(&file);
    }
    let dir = chars_of(config_dir);
    let mut s = string_of(&dir);
    if dir.len() > 0 && dir[dir.len() - 1] != '/' {
        push_char(&mut s, '/');
    }
    push_str(&mut s, prompt_file);
    s
}

/// The environment variable that holds a provider's API key; the ChatGPT
/// subscription signs in instead and has none.
pub open spec fn key_variable(p: ModeloLLM) -> Option<Seq<char>> {
    match p {
        ModeloLLM::Gemini => Some("GEMINI_API_KEY"@),
        ModeloLLM::DeepSeek => Some("DEEP_SEEK_API_KEY"@),
        ModeloLLM::OpenAI => Some("OPENAI_API_KEY"@),
        ModeloLLM::ChatGPT => None,
    }
}

/// The environment variable that holds a provider's API key, if it uses one.
pub fn api_key_variable(provider: ModeloLLM) -> (r: Option<&'static str>)
    ensures
        r matches Some(v) ==> key_variable(provider) == Some(v@),
        r is None <==> key_variable(provider) is None,
{
    match provider {
        ModeloLLM::Gemini => Some("GEMINI_API_KEY"),
        ModeloLLM::DeepSeek => Some("DEEP_SEEK_API_KEY"),
        ModeloLLM::OpenAI => Some("OPENAI_API_KEY"),
        ModeloLLM::ChatGPT => None,
    }
}

/// The credential found in the environment: the variable's value, as it is,
/// when it is set and not empty.
pub fn credential_from_env(value: Option<String>) -> (r: Option<ProviderCredential>)
    ensures
        match value {
            Some(v) => if v@.len() > 0 {
                r matches Some(ProviderCredential::ApiKey(k)) && k@ == v@
            } else {
                r is None
            },
            None => r is None,
        },
{
    match value {
        Some(v) => if chars_of(v.as_str()).len() > 0 {
            Some(ProviderCredential::ApiKey(v))
        } else {
            None
        },
        None => None,
    }
}

/// A typed answer, trimmed, when something is left of it; an empty answer is
/// refused.
pub fn typed_value(input: &str) -> (r: Option<String>)
    ensures
        trim(input@).len() > 0 ==> (r matches Some(t) && t@ == trim(input@)),
        trim(input@).len() == 0 ==> r is None,
{
    let t = trim_chars(&chars_of(input));
    if t.len() > 0 {
        Some(string_of(&t))
    } else {
        None
    }
}

/// Where the credential for a newly chosen provider comes from.
#[derive(Debug, Clone, Copy, PartialEq, Eq, Structural)]
pub enum CredentialSource {
    /// The provider did not change: keep the credential being edited.
    KeepEdited,
    /// The provider is the one the session runs with: reuse its credential.
    UseSession,
    /// Another provider: ask for a credential.
    Ask,
}

/// Where the credential for `chosen` comes from, while editing a
/// configuration whose provider was `editing` in a session running with
/// `session`.
pub fn credential_source(chosen: ModeloLLM, editing: ModeloLLM, session: ModeloLLM) -> (r:
    CredentialSource)
    ensures
        r == (if chosen == editing {
            CredentialSource::KeepEdited
        } else if chosen == session {
            CredentialSource::UseSession
        } else {
            CredentialSource::Ask
        }),
{
    if chosen == editing {
        CredentialSource::KeepEdited
    } else if chosen == session {
        CredentialSource::UseSession
    } else {
        CredentialSource::Ask
    }
}

/// The model to propose first after choosing `chosen`: the one being edited
/// if the provider did not change, else none.
pub fn model_for_default(chosen: ModeloLLM, editing: ModeloLLM, editing_model: &str) -> (r: String)
    ensures
        r@ == (if chosen == editing {
            editing_model@
        } else {
            Seq::empty()
        }),
{
    if chosen == editing {
        owned(editing_model)
    } else {
        String::new()
    }
}

/// The reasoning level kept after choosing a provider: none for a provider
/// without reasoning.
pub fn effort_for_provider(provider: ModeloLLM, effort: Option<ReasoningEffort>) -> (r: Option<
    ReasoningEffort,
>)
    ensures
        r == (if takes_reasoning(provider) {
            effort
        } else {
            None
        }),
{
    if proveedor_admite_razonamiento(provider) {
        effort
    } else {
        None
    }
}

/// The position of the model `current` in the menu: the first model with
/// that id, or the first model when none has it.
pub fn default_model_index(models: &Vec<InfoModelo>, current: &str) -> (r: usize)
    ensures
        (exists|k: int| 0 <= k < models@.len() && models@[k].id@ == current@) ==> (r
            < models@.len() && models@[r as int].id@ == current@ && forall|k: int|
            0 <= k < r ==> models@[k].id@ != current@),
        !(exists|k: int| 0 <= k < models@.len() && models@[k].id@ == current@) ==> r == 0,
{
    let cur = chars_of(current);
    let mut i: usize = 0;
    while i < models.len()
        invariant
            i <= models@.len(),
            cur@ == current@,
            forall|k: int| 0 <= k < i ==> models@[k].id@ != current@,
        decreases models.len() - i,
    {
        if crate::text::chars_eq(&chars_of(models[i].id.as_str()), &cur) {
            return i;
        }
        i = i + 1;
    }
    0
}

/// What the model step of the configuration does with a provider's listing.
pub enum ModelChoice {
    /// Offer the models, proposing the one at `default`.
    Select { models: Vec<InfoModelo>, default: usize },
    /// Ask for the model's id by hand, starting from `initial`, after showing
    /// `warning` if there is one.
    Manual { initial: String, warning: Option<String> },
    /// Give up with this message.
    Fail(String),
}

/// The message when a provider lists no model.
pub open spec fn no_models_text(p: ModeloLLM) -> Seq<char> {
    "No se encontraron modelos disponibles para "@ + provider_label(p) + "."@
}

/// What the model step does with a listing, when setting up from scratch:
/// the models, proposing the first; for the ChatGPT subscription, which may
/// list nothing, a model typed by hand; else a failure.
pub open spec fn first_model_choice(
    p: ModeloLLM,
    listing: Result<Vec<InfoModelo>, BrainError>,
    c: ModelChoice,
) -> bool {
    match listing {
        Ok(ms) => if ms@.len() > 0 {
            c matches ModelChoice::Select { models, default } && models@ == ms@ && default == 0
        } else if p == ModeloLLM::ChatGPT {
            c matches ModelChoice::Manual { initial, warning } && initial@.len() == 0 && (
            warning matches Some(w) && w@
                == "  [!] ChatGPT no devolvió modelos. Puedes introducir el slug manualmente."@)
        } else {
            c matches ModelChoice::Fail(m) && m@ == no_models_text(p)
        },
        Err(e) => if p == ModeloLLM::ChatGPT {
            c matches ModelChoice::Manual { initial, warning } && initial@.len() == 0 && (
            warning matches Some(w) && w@
                == "  [!] No se pudo listar modelos de ChatGPT. Puedes introducir el slug manualmente."@)
        } else {
            c matches ModelChoice::Fail(m) && m@ == "Error al consultar los modelos del proveedor "@
                + provider_label(p) + ": "@ + brain_error_text(e)
        },
    }
}

/// What the model step does with a listing while editing, proposing
/// `current`: the models, proposing `current` where listed; for the ChatGPT
/// subscription, `current` typed by hand; else a failure.
pub open spec fn edit_model_choice(
    p: ModeloLLM,
    listing: Result<Vec<InfoModelo>, BrainError>,
    current: Seq<char>,
    c: ModelChoice,
) -> bool {
    match listing {
        Err(e) => if p == ModeloLLM::ChatGPT {
            c matches ModelChoice::Manual { initial, warning } && initial@ == current && (
            warning matches Some(w) && w@ == "  [!] No se pudo listar modelos de ChatGPT ("@
                + brain_error_text(e) + "). Puedes introducir el slug manualmente."@)
        } else {
            c matches ModelChoice::Fail(m) && m@ == "Error al consultar modelos de "@
                + provider_label(p) + ": "@ + brain_error_text(e)
        },
        Ok(ms) => if ms@.len() == 0 {
            if p == ModeloLLM::ChatGPT {
                c matches ModelChoice::Manual { initial, warning } && initial@ == current
                    && warning is None
            } else {
                c matches ModelChoice::Fail(m) && m@ == no_models_text(p)
            }
        } else {
            c matches ModelChoice::Select { models, default } && models@ == ms@ && default
                < ms@.len() && ((exists|k: int| 0 <= k < ms@.len() && ms@[k].id@ == current) ==> (
            ms@[default as int].id@ == current && forall|k: int|
                0 <= k < default ==> ms@[k].id@ != current)) && (!(exists|k: int|
                0 <= k < ms@.len() && ms@[k].id@ == current) ==> default == 0)
        },
    }
}

fn no_models_message(provider: ModeloLLM) -> (r: String)
    ensures
        r@ == no_models_text(provider),
{
    let mut s = owned("No se encontraron modelos disponibles para ");
    push_str(&mut s, provider.display_name());
    push_str(&mut s, ".");
    s
}

/// What the model step does with a provider's listing when setting up from
/// scratch.
pub fn first_model_step(provider: ModeloLLM, listing: Result<Vec<InfoModelo>, BrainError>) -> (r:
    ModelChoice)
    ensures
        first_model_choice(provider, listing, r),
{
    let chatgpt = provider == ModeloLLM::ChatGPT;
    match listing {
        Ok(ms) => if ms.len() > 0 {
            ModelChoice::Select { models: ms, default: 0 }
        } else if chatgpt {
            ModelChoice::Manual {
                initial: String::new(),
                warning: Some(
                    owned(
                        "  [!] ChatGPT no devolvió modelos. Puedes introducir el slug manualmente.",
                    ),
                ),
            }
        } else {
            ModelChoice::Fail(no_models_message(provider))
        },
        Err(e) => if chatgpt {
            ModelChoice::Manual {
                initial: String::new(),
                warning: Some(
                    owned(
                        "  [!] No se pudo listar modelos de ChatGPT. Puedes introducir el slug manualmente.",
                    ),
                ),
            }
        } else {
            let mut m = owned("Error al consultar los modelos del proveedor ");
            push_str(&mut m, provider.display_name());
            push_str(&mut m, ": ");
            let detail = e.message();
            push_str(&mut m, detail.as_str());
            ModelChoice::Fail(m)
        },
    }
}

/// What the model step does with a provider's listing while editing, with
/// `current` the model to propose.
pub fn edit_model_step(
    provider: ModeloLLM,
    listing: Result<Vec<InfoModelo>, BrainError>,
    current: &str,
) -> (r: ModelChoice)
    ensures
        edit_model_choice(provider, listing, current@, r),
{
    let chatgpt = provider == ModeloLLM::ChatGPT;
    match listing {
        Err(e) => if chatgpt {
            let mut w = owned("  [!] No se pudo listar modelos de ChatGPT (");
            let detail = e.message();
            push_str(&mut w, detail.as_str());
            push_str(&mut w, "). Puedes introducir el slug manualmente.");
            ModelChoice::Manual { initial: owned(current), warning: Some(w) }
        } else {
            let mut m = owned("Error al consultar modelos de ");
            push_str(&mut m, provider.display_name());
            push_str(&mut m, ": ");
            let detail = e.message();
            push_str(&mut m, detail.as_str());
            ModelChoice::Fail(m)
        },
        Ok(ms) => if ms.len() == 0 {
            if chatgpt {
                ModelChoice::Manual { initial: owned(current), warning: None }
            } else {
                ModelChoice::Fail(no_models_message(provider))
            }
        } else {
            let d = default_model_index(&ms, current);
            ModelChoice::Select { models: ms, default: d }
        },
    }
}

/// The entries of the configuration menu, in order.
pub open spec fn config_menu(
    provider: ModeloLLM,
    model: Seq<char>,
    temperature: Seq<char>,
    effort: Option<ReasoningEffort>,
    verbose: bool,
    prompt_file: Seq<char>,
) -> Seq<Seq<char>> {
    seq![
        "Proveedor y modelo ("@ + provider_label(provider) + " / "@ + model + ")"@,
        "Temperatura ("@ + temperature + ")"@,
        "Nivel de razonamiento ("@ + reasoning_setting_label(provider, effort) + ")"@,
        "Verbose ("@ + (if verbose {
            "activado"@
        } else {
            "desactivado"@
        }) + ")"@,
        "Editar system prompt"@,
        "Archivo del system prompt ("@ + prompt_file + ")"@,
        "Guardar y aplicar"@,
        "Cancelar"@,
    ]
}

/// The characters of each string.
pub open spec fn views(v: Seq<String>) -> Seq<Seq<char>> {
    v.map_values(|s: String| s@)
}

fn bracketed(label: &str, value: &str) -> (r: String)
    ensures
        r@ == label@ + value@ + ")"@,
{
    let mut s = owned(label);
    push_str(&mut s, value);
    push_str(&mut s, ")");
    s
}

/// The entries of the configuration menu; `temperature` is the temperature
/// as shown, with two decimals.
pub fn config_menu_items(
    provider: ModeloLLM,
    model: &str,
    temperature: &str,
    effort: Option<ReasoningEffort>,
    verbose: bool,
    prompt_file: &str,
) -> (r: Vec<String>)
    ensures
        views(r@) == config_menu(provider, model@, temperature@, effort, verbose, prompt_file@),
{
    let mut items: Vec<String> = Vec::new();
    let mut first = owned("Proveedor y modelo (");
    push_str(&mut first, provider.display_name());
    push_str(&mut first, " / ");
    push_str(&mut first, model);
    push_str(&mut first, ")");
    items.push(first);
    items.push(bracketed("Temperatura (", temperature));
    let level = formato_nivel_razonamiento(provider, effort);
    items.push(bracketed("Nivel de razonamiento (", level.as_str()));
    items.push(
        bracketed(
            "Verbose (",
            if verbose {
                "activado"
            } else {
                "desactivado"
            },
        ),
    );
    items.push(owned("Editar system prompt"));
    items.push(bracketed("Archivo del system prompt (", prompt_file));
    items.push(owned("Guardar y aplicar"));
    items.push(owned("Cancelar"));
    assert(views(items@) =~= config_menu(
        provider,
        model@,
        temperature@,
        effort,
        verbose,
        prompt_file@,
    ));
    items
}

/// What an entry of the configuration menu does.
#[derive(Debug, Clone, Copy, PartialEq, Eq, Structural)]
pub enum ConfigChoice {
    ProviderAndModel,
    Temperature,
    Reasoning,
    Verbose,
    EditPrompt,
    PromptFile,
    SaveAndApply,
    Cancel,
}

/// What the entry at `selection` does; anything past the known entries
/// cancels.
pub open spec fn choice_at(selection: usize) -> ConfigChoice {
    if selection == 0 {
        ConfigChoice::ProviderAndModel
    } else if selection == 1 {
        ConfigChoice::Temperature
    } else if selection == 2 {
        ConfigChoice::Reasoning
    } else if selection == 3 {
        ConfigChoice::Verbose
    } else if selection == 4 {
        ConfigChoice::EditPrompt
    } else if selection == 5 {
        ConfigChoice::PromptFile
    } else if selection == 6 {
        ConfigChoice::SaveAndApply
    } else {
        ConfigChoice::Cancel
    }
}

/// What the entry at `selection` of the configuration menu does.
pub fn config_choice(selection: usize) -> (r: ConfigChoice)
    ensures
        r == choice_at(selection),
{
    match selection {
        0 => ConfigChoice::ProviderAndModel,
        1 => ConfigChoice::Temperature,
        2 => ConfigChoice::Reasoning,
        3 => ConfigChoice::Verbose,
        4 => ConfigChoice::EditPrompt,
        5 => ConfigChoice::PromptFile,
        6 => ConfigChoice::SaveAndApply,
        _ => ConfigChoice::Cancel,
    }
}

/// What choosing a prompt file does: switch to it when its path differs
/// from the current one, and then load its text when it exists (else the
/// text being edited is kept, to be written there).
#[derive(Debug, Clone, Copy, PartialEq, Eq, Structural)]
pub struct PromptFileStep {
    pub switch: bool,
    pub reload: bool,
}

/// What choosing the prompt file at `new_path` does, with `current_path`
/// the one in use and `new_exists` whether a file is at the new path.
pub fn prompt_file_step(current_path: &str, new_path: &str, new_exists: bool) -> (r:
    PromptFileStep)
    ensures
        r.switch == (new_path@ != current_path@),
        r.reload == (new_path@ != current_path@ && new_exists),
{
    let same = crate::text::chars_eq(&chars_of(current_path), &chars_of(new_path));
    PromptFileStep { switch: !same, reload: !same && new_exists }
}

/// A resolved prompt path under an absolute configuration directory is
/// absolute itself: resolving it again, against any directory, keeps it.
pub proof fn law_resolved_prompt_path_is_stable(dir: Seq<char>, file: Seq<char>, other: Seq<char>)
    requires
        dir.len() > 0,
        dir[0] == '/',
    ensures
        prompt_path(other, prompt_path(dir, file)) == prompt_path(dir, file),
{
    let p = prompt_path(dir, file);
    if file.len() > 0 && file[0] == '/' {
    } else if dir.last() == '/' {
        assert(p[0] == dir[0]);
    } else {
        assert(p[0] == dir[0]);
    }
}

} // verus!
