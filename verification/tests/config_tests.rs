use typhon::brain::{BrainError, InfoModelo, ModeloLLM, ProviderCredential};
use typhon::config::{
    api_key_variable, config_choice, config_menu_items, credential_from_env, credential_source,
    default_model_index, default_prompt_file, edit_model_step, effort_for_provider,
    first_model_step, model_for_default, resolver_prompt_path, typed_value, ConfigChoice,
    CredentialSource, ModelChoice,
};
use typhon::reasoning::ReasoningEffort;

fn info(id: &str) -> InfoModelo {
    InfoModelo {
        id: id.to_string(),
        owned_by: "x".to_string(),
    }
}

#[test]
fn resolves_relative_and_absolute_prompt_paths() {
    let base = "/tmp/typhon";
    assert_eq!(
        resolver_prompt_path(base, "system_prompt.md"),
        "/tmp/typhon/system_prompt.md"
    );
    assert_eq!(
        resolver_prompt_path(base, "/etc/typhon-prompt.md"),
        "/etc/typhon-prompt.md"
    );
}

#[test]
fn prompt_path_joins_without_doubling_the_separator() {
    assert_eq!(resolver_prompt_path("/tmp/typhon/", "p.md"), "/tmp/typhon/p.md");
    assert_eq!(resolver_prompt_path("", "p.md"), "p.md");
    assert_eq!(resolver_prompt_path("/tmp/typhon", ""), "/tmp/typhon/");
}

#[test]
fn resolved_prompt_path_is_stable() {
    let once = resolver_prompt_path("/home/u/.config/typhon", "prompt.md");
    assert_eq!(resolver_prompt_path("/otra", &once), once);
}

#[test]
fn default_prompt_file_name() {
    assert_eq!(default_prompt_file(), "system_prompt.md");
}

#[test]
fn api_key_variables_per_provider() {
    assert_eq!(api_key_variable(ModeloLLM::Gemini), Some("GEMINI_API_KEY"));
    assert_eq!(api_key_variable(ModeloLLM::DeepSeek), Some("DEEP_SEEK_API_KEY"));
    assert_eq!(api_key_variable(ModeloLLM::OpenAI), Some("OPENAI_API_KEY"));
    assert_eq!(api_key_variable(ModeloLLM::ChatGPT), None);
}

#[test]
fn environment_key_is_used_as_is_when_not_empty() {
    match credential_from_env(Some(" k ".to_string())) {
        Some(ProviderCredential::ApiKey(k)) => assert_eq!(k, " k "),
        _ => panic!("expected a key"),
    }
    assert!(credential_from_env(Some(String::new())).is_none());
    assert!(credential_from_env(None).is_none());
}

#[test]
fn typed_values_are_trimmed_and_blank_ones_refused() {
    assert_eq!(typed_value("  gpt-5 "), Some("gpt-5".to_string()));
    assert_eq!(typed_value("   "), None);
    assert_eq!(typed_value(""), None);
}

#[test]
fn credential_source_after_choosing_a_provider() {
    assert_eq!(
        credential_source(ModeloLLM::Gemini, ModeloLLM::Gemini, ModeloLLM::OpenAI),
        CredentialSource::KeepEdited
    );
    assert_eq!(
        credential_source(ModeloLLM::OpenAI, ModeloLLM::Gemini, ModeloLLM::OpenAI),
        CredentialSource::UseSession
    );
    assert_eq!(
        credential_source(ModeloLLM::DeepSeek, ModeloLLM::Gemini, ModeloLLM::OpenAI),
        CredentialSource::Ask
    );
}

#[test]
fn model_proposed_after_choosing_a_provider() {
    assert_eq!(model_for_default(ModeloLLM::Gemini, ModeloLLM::Gemini, "g1"), "g1");
    assert_eq!(model_for_default(ModeloLLM::OpenAI, ModeloLLM::Gemini, "g1"), "");
}

#[test]
fn reasoning_is_dropped_for_providers_without_it() {
    assert_eq!(
        effort_for_provider(ModeloLLM::Gemini, Some(ReasoningEffort::High)),
        None
    );
    assert_eq!(
        effort_for_provider(ModeloLLM::OpenAI, Some(ReasoningEffort::High)),
        Some(ReasoningEffort::High)
    );
}

#[test]
fn default_model_is_the_first_with_the_current_id() {
    let models = vec![info("a"), info("b"), info("b")];
    assert_eq!(default_model_index(&models, "b"), 1);
    assert_eq!(default_model_index(&models, "z"), 0);
    assert_eq!(default_model_index(&Vec::new(), "z"), 0);
}

#[test]
fn first_model_step_outcomes() {
    match first_model_step(ModeloLLM::Gemini, Ok(vec![info("g")])) {
        ModelChoice::Select { models, default } => {
            assert_eq!(models.len(), 1);
            assert_eq!(default, 0);
        }
        _ => panic!("expected a menu"),
    }
    match first_model_step(ModeloLLM::Gemini, Ok(Vec::new())) {
        ModelChoice::Fail(m) => {
            assert_eq!(m, "No se encontraron modelos disponibles para Gemini.")
        }
        _ => panic!("expected a failure"),
    }
    match first_model_step(
        ModeloLLM::DeepSeek,
        Err(BrainError::ListModels("timeout".to_string())),
    ) {
        ModelChoice::Fail(m) => assert_eq!(
            m,
            "Error al consultar los modelos del proveedor DeepSeek: Error al listar modelos: timeout"
        ),
        _ => panic!("expected a failure"),
    }
    match first_model_step(ModeloLLM::ChatGPT, Ok(Vec::new())) {
        ModelChoice::Manual { initial, warning } => {
            assert_eq!(initial, "");
            assert_eq!(
                warning.unwrap(),
                "  [!] ChatGPT no devolvió modelos. Puedes introducir el slug manualmente."
            );
        }
        _ => panic!("expected manual entry"),
    }
    match first_model_step(
        ModeloLLM::ChatGPT,
        Err(BrainError::ListModels("x".to_string())),
    ) {
        ModelChoice::Manual { initial, warning } => {
            assert_eq!(initial, "");
            assert_eq!(
                warning.unwrap(),
                "  [!] No se pudo listar modelos de ChatGPT. Puedes introducir el slug manualmente."
            );
        }
        _ => panic!("expected manual entry"),
    }
}

#[test]
fn edit_model_step_outcomes() {
    match edit_model_step(ModeloLLM::OpenAI, Ok(vec![info("a"), info("b")]), "b") {
        ModelChoice::Select { default, .. } => assert_eq!(default, 1),
        _ => panic!("expected a menu"),
    }
    match edit_model_step(
        ModeloLLM::OpenAI,
        Err(BrainError::ListModels("t".to_string())),
        "b",
    ) {
        ModelChoice::Fail(m) => assert_eq!(
            m,
            "Error al consultar modelos de OpenAI API: Error al listar modelos: t"
        ),
        _ => panic!("expected a failure"),
    }
    match edit_model_step(
        ModeloLLM::ChatGPT,
        Err(BrainError::ListModels("t".to_string())),
        "gpt-5",
    ) {
        ModelChoice::Manual { initial, warning } => {
            assert_eq!(initial, "gpt-5");
            assert_eq!(
                warning.unwrap(),
                "  [!] No se pudo listar modelos de ChatGPT (Error al listar modelos: t). Puedes introducir el slug manualmente."
            );
        }
        _ => panic!("expected manual entry"),
    }
    match edit_model_step(ModeloLLM::ChatGPT, Ok(Vec::new()), "gpt-5") {
        ModelChoice::Manual { initial, warning } => {
            assert_eq!(initial, "gpt-5");
            assert!(warning.is_none());
        }
        _ => panic!("expected manual entry"),
    }
    match edit_model_step(ModeloLLM::DeepSeek, Ok(Vec::new()), "x") {
        ModelChoice::Fail(m) => {
            assert_eq!(m, "No se encontraron modelos disponibles para DeepSeek.")
        }
        _ => panic!("expected a failure"),
    }
}

#[test]
fn configuration_menu_entries() {
    let items = config_menu_items(
        ModeloLLM::OpenAI,
        "gpt-5",
        "0.70",
        Some(ReasoningEffort::Low),
        true,
        "system_prompt.md",
    );
    assert_eq!(
        items,
        vec![
            "Proveedor y modelo (OpenAI API / gpt-5)".to_string(),
            "Temperatura (0.70)".to_string(),
            "Nivel de razonamiento (low)".to_string(),
            "Verbose (activado)".to_string(),
            "Editar system prompt".to_string(),
            "Archivo del system prompt (system_prompt.md)".to_string(),
            "Guardar y aplicar".to_string(),
            "Cancelar".to_string(),
        ]
    );
    let other = config_menu_items(ModeloLLM::Gemini, "g", "1.00", None, false, "p.md");
    assert_eq!(other[2], "Nivel de razonamiento (no aplica)");
    assert_eq!(other[3], "Verbose (desactivado)");
}

#[test]
fn configuration_menu_choices() {
    assert_eq!(config_choice(0), ConfigChoice::ProviderAndModel);
    assert_eq!(config_choice(1), ConfigChoice::Temperature);
    assert_eq!(config_choice(2), ConfigChoice::Reasoning);
    assert_eq!(config_choice(3), ConfigChoice::Verbose);
    assert_eq!(config_choice(4), ConfigChoice::EditPrompt);
    assert_eq!(config_choice(5), ConfigChoice::PromptFile);
    assert_eq!(config_choice(6), ConfigChoice::SaveAndApply);
    assert_eq!(config_choice(7), ConfigChoice::Cancel);
    assert_eq!(config_choice(99), ConfigChoice::Cancel);
}

#[test]
fn choosing_a_prompt_file() {
    let same = typhon::config::prompt_file_step("/c/p.md", "/c/p.md", true);
    assert!(!same.switch && !same.reload);
    let new_missing = typhon::config::prompt_file_step("/c/p.md", "/c/q.md", false);
    assert!(new_missing.switch && !new_missing.reload);
    let new_present = typhon::config::prompt_file_step("/c/p.md", "/c/q.md", true);
    assert!(new_present.switch && new_present.reload);
}
