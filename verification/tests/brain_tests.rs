use typhon::brain::{
    check_agent_credential, default_owner, formato_nivel_razonamiento, gemini_model_id,
    infos_from_deepseek, infos_from_gemini, listar_modelos_chatgpt, listar_provedores,
    listing_auth, reasoning_request, uses_temperature, ListingAuth,
    proveedor_admite_razonamiento, provider_index, require_api_key, BrainError,
    ChatGPTModelEntry, GeminiModelEntry, InfoModelo, ModelEntry, ModeloLLM, ProviderCredential,
    StreamChunk,
};
use typhon::reasoning::ReasoningEffort;

#[test]
fn keeps_listed_codex_only_models_but_hides_internal_models() {
    let models = vec![
        ChatGPTModelEntry {
            slug: "gpt-direct".to_string(),
            display_name: Some("GPT Direct".to_string()),
            visibility: Some("list".to_string()),
            priority: Some(1),
            tool_mode: Some("direct".to_string()),
        },
        ChatGPTModelEntry {
            slug: "gpt-codex-only".to_string(),
            display_name: None,
            visibility: Some("list".to_string()),
            priority: Some(2),
            tool_mode: Some("code_mode_only".to_string()),
        },
        ChatGPTModelEntry {
            slug: "codex-auto-review".to_string(),
            display_name: None,
            visibility: Some("hide".to_string()),
            priority: Some(3),
            tool_mode: None,
        },
    ];
    let listed = listar_modelos_chatgpt(models);
    assert_eq!(listed.len(), 2);
    assert_eq!(listed[1].slug, "gpt-codex-only");
}

#[test]
fn test_brain_error_stream_display() {
    let err = BrainError::Stream("connection reset".to_string());
    assert_eq!(
        err.message(),
        "Error de streaming del proveedor: connection reset"
    );
}

#[test]
fn test_brain_error_list_models_display() {
    let err = BrainError::ListModels("timeout".to_string());
    assert_eq!(err.message(), "Error al listar modelos: timeout");
}

#[test]
fn test_brain_error_debug() {
    let err = BrainError::Stream("oops".to_string());
    let debug = format!("{:?}", err);
    assert!(debug.contains("Stream"));
    assert!(debug.contains("oops"));
}

#[test]
fn test_modelo_llm_debug() {
    assert_eq!(format!("{:?}", ModeloLLM::Gemini), "Gemini");
    assert_eq!(format!("{:?}", ModeloLLM::DeepSeek), "DeepSeek");
}

#[test]
fn test_modelo_llm_display() {
    assert_eq!(ModeloLLM::Gemini.display_name(), "Gemini");
    assert_eq!(ModeloLLM::DeepSeek.display_name(), "DeepSeek");
    assert_eq!(ModeloLLM::OpenAI.display_name(), "OpenAI API");
    assert_eq!(ModeloLLM::ChatGPT.display_name(), "ChatGPT Subscription");
}

#[test]
fn test_modelo_llm_display_vs_debug_consistency() {
    assert_eq!(ModeloLLM::Gemini.display_name(), "Gemini");
    assert_eq!(ModeloLLM::DeepSeek.display_name(), "DeepSeek");
}

#[test]
fn test_modelo_llm_clone_and_copy() {
    let a = ModeloLLM::Gemini;
    let b = a;
    let c = a.clone();
    assert_eq!(a, b);
    assert_eq!(a, c);
}

#[test]
fn test_modelo_llm_eq_and_ne() {
    assert_eq!(ModeloLLM::Gemini, ModeloLLM::Gemini);
    assert_eq!(ModeloLLM::DeepSeek, ModeloLLM::DeepSeek);
    assert_ne!(ModeloLLM::Gemini, ModeloLLM::DeepSeek);
}

#[test]
fn test_info_modelo_clone() {
    let first = InfoModelo {
        id: "model-x".to_string(),
        owned_by: "owner-y".to_string(),
    };
    let cloned = first.clone();
    assert_eq!(first.id, cloned.id);
    assert_eq!(first.owned_by, cloned.owned_by);
}

#[test]
fn test_listar_provedores_contenido() {
    let provs = listar_provedores();
    assert_eq!(provs.len(), 4);
    assert!(provs.contains(&ModeloLLM::Gemini));
    assert!(provs.contains(&ModeloLLM::DeepSeek));
    assert!(provs.contains(&ModeloLLM::OpenAI));
    assert!(provs.contains(&ModeloLLM::ChatGPT));
}

#[test]
fn test_listar_provedores_orden() {
    let provs = listar_provedores();
    assert_eq!(provs[0], ModeloLLM::Gemini);
    assert_eq!(provs[1], ModeloLLM::DeepSeek);
    assert_eq!(provs[2], ModeloLLM::OpenAI);
    assert_eq!(provs[3], ModeloLLM::ChatGPT);
}

#[test]
fn test_gemini_mapping_strips_models_prefix() {
    let entries = vec![
        GeminiModelEntry {
            name: "models/gemini-2.0-flash".to_string(),
            display_name: "Gemini 2.0 Flash".to_string(),
        },
        GeminiModelEntry {
            name: "models/gemini-1.5-pro".to_string(),
            display_name: "Gemini 1.5 Pro".to_string(),
        },
    ];
    let infos = infos_from_gemini(&entries);
    assert_eq!(infos[0].id, "gemini-2.0-flash");
    assert_eq!(infos[1].id, "gemini-1.5-pro");
    assert!(infos.iter().all(|i| i.owned_by == "google"));
}

#[test]
fn test_gemini_mapping_without_prefix_is_passthrough() {
    let entry = GeminiModelEntry {
        name: "custom-model-sin-prefijo".to_string(),
        display_name: "Custom".to_string(),
    };
    let id = gemini_model_id(&entry.name);
    assert_eq!(id, "custom-model-sin-prefijo");
}

#[test]
fn test_deepseek_mapping_fields() {
    let entries = vec![
        ModelEntry {
            id: "deepseek-chat".to_string(),
            owned_by: "deepseek".to_string(),
        },
        ModelEntry {
            id: "deepseek-reasoner".to_string(),
            owned_by: "deepseek".to_string(),
        },
    ];
    let infos = infos_from_deepseek(entries);
    assert_eq!(infos.len(), 2);
    assert_eq!(infos[0].id, "deepseek-chat");
    assert_eq!(infos[0].owned_by, "deepseek");
    assert_eq!(infos[1].id, "deepseek-reasoner");
}

#[test]
fn test_stream_chunk_text_variant() {
    let chunk = StreamChunk::Text("hola mundo".to_string());
    match chunk {
        StreamChunk::Text(t) => assert_eq!(t, "hola mundo"),
        _ => panic!("Se esperaba la variante Text"),
    }
}

#[test]
fn test_stream_chunk_reasoning_variant() {
    let chunk = StreamChunk::Reasoning("pensando...".to_string());
    match chunk {
        StreamChunk::Reasoning(r) => assert_eq!(r, "pensando..."),
        _ => panic!("Se esperaba la variante Reasoning"),
    }
}

#[test]
fn test_stream_chunk_debug_format() {
    let chunk = StreamChunk::Text("test".to_string());
    let debug = format!("{:?}", chunk);
    assert!(debug.contains("Text"));
    assert!(debug.contains("test"));
}

#[test]
fn every_brain_error_has_its_message() {
    assert_eq!(
        BrainError::Memory("llena".to_string()).message(),
        "Error de memoria: llena"
    );
    assert_eq!(
        BrainError::Provider("sin clave".to_string()).message(),
        "Error de configuración del proveedor: sin clave"
    );
}

#[test]
fn gemini_prefix_must_be_whole() {
    assert_eq!(gemini_model_id("models/"), "");
    assert_eq!(gemini_model_id("model/x"), "model/x");
    assert_eq!(gemini_model_id("models/models/x"), "models/x");
}

#[test]
fn openai_owner_default() {
    assert_eq!(default_owner(), "openai");
}

#[test]
fn provider_positions_match_the_listing() {
    let provs = listar_provedores();
    for p in provs.iter() {
        assert_eq!(provs[provider_index(*p)], *p);
    }
}

#[test]
fn only_openai_and_chatgpt_take_reasoning() {
    assert!(!proveedor_admite_razonamiento(ModeloLLM::Gemini));
    assert!(!proveedor_admite_razonamiento(ModeloLLM::DeepSeek));
    assert!(proveedor_admite_razonamiento(ModeloLLM::OpenAI));
    assert!(proveedor_admite_razonamiento(ModeloLLM::ChatGPT));
}

#[test]
fn reasoning_label_in_the_menu() {
    assert_eq!(
        formato_nivel_razonamiento(ModeloLLM::Gemini, Some(ReasoningEffort::High)),
        "no aplica"
    );
    assert_eq!(formato_nivel_razonamiento(ModeloLLM::OpenAI, None), "automático");
    assert_eq!(
        formato_nivel_razonamiento(ModeloLLM::ChatGPT, Some(ReasoningEffort::Xhigh)),
        "xhigh"
    );
}

#[test]
fn chatgpt_listing_orders_by_priority_and_keeps_ties_in_order() {
    let entry = |slug: &str, vis: Option<&str>, prio: Option<i32>| ChatGPTModelEntry {
        slug: slug.to_string(),
        display_name: None,
        visibility: vis.map(|v| v.to_string()),
        priority: prio,
        tool_mode: None,
    };
    let listed = listar_modelos_chatgpt(vec![
        entry("c", None, None),
        entry("b", Some("list"), Some(5)),
        entry("hidden", Some("hide"), Some(0)),
        entry("a", Some("list"), Some(1)),
        entry("b2", None, Some(5)),
    ]);
    let slugs: Vec<&str> = listed.iter().map(|m| m.slug.as_str()).collect();
    assert_eq!(slugs, vec!["a", "b", "b2", "c"]);
}

#[test]
fn api_key_is_required_and_must_not_be_blank() {
    let key = ProviderCredential::ApiKey("sk-1".to_string());
    assert_eq!(require_api_key(&key).unwrap(), "sk-1");
    let blank = ProviderCredential::ApiKey("   ".to_string());
    assert!(require_api_key(&blank).is_err());
    let oauth = ProviderCredential::ChatGptOAuth {
        auth_file: "/tmp/auth.json".to_string(),
    };
    assert!(require_api_key(&oauth).is_err());
}

#[test]
fn chatgpt_needs_its_session_and_others_a_key() {
    let oauth = ProviderCredential::ChatGptOAuth {
        auth_file: "/tmp/auth.json".to_string(),
    };
    let key = ProviderCredential::ApiKey("k".to_string());
    assert!(check_agent_credential(ModeloLLM::ChatGPT, &oauth).is_ok());
    assert!(check_agent_credential(ModeloLLM::ChatGPT, &key).is_err());
    assert!(check_agent_credential(ModeloLLM::Gemini, &key).is_ok());
    assert!(check_agent_credential(ModeloLLM::Gemini, &oauth).is_err());
}

#[test]
fn listing_access_per_provider() {
    let key = ProviderCredential::ApiKey("sk".to_string());
    let oauth = ProviderCredential::ChatGptOAuth {
        auth_file: "/tmp/a.json".to_string(),
    };
    assert!(matches!(listing_auth(ModeloLLM::OpenAI, &key), Ok(ListingAuth::ApiKey(k)) if k == "sk"));
    assert!(
        matches!(listing_auth(ModeloLLM::ChatGPT, &oauth), Ok(ListingAuth::OAuthSession(f)) if f == "/tmp/a.json")
    );
    match listing_auth(ModeloLLM::ChatGPT, &key) {
        Err(e) => assert_eq!(
            e.message(),
            "Error al listar modelos: ChatGPT Subscription requiere una sesión OAuth"
        ),
        Ok(_) => panic!("expected an error"),
    }
    match listing_auth(ModeloLLM::Gemini, &oauth) {
        Err(e) => assert_eq!(
            e.message(),
            "Error al listar modelos: El proveedor requiere una API key"
        ),
        Ok(_) => panic!("expected an error"),
    }
}

#[test]
fn temperature_and_reasoning_sent_to_each_agent() {
    assert!(uses_temperature(ModeloLLM::Gemini, Some(ReasoningEffort::High)));
    assert!(uses_temperature(ModeloLLM::DeepSeek, None));
    assert!(uses_temperature(ModeloLLM::OpenAI, None));
    assert!(!uses_temperature(ModeloLLM::OpenAI, Some(ReasoningEffort::Low)));
    assert!(!uses_temperature(ModeloLLM::ChatGPT, None));
    assert_eq!(reasoning_request(ModeloLLM::Gemini, Some(ReasoningEffort::High)), None);
    assert_eq!(
        reasoning_request(ModeloLLM::ChatGPT, Some(ReasoningEffort::High)),
        Some(ReasoningEffort::High)
    );
}

#[test]
fn credentials_show_without_their_key() {
    let key = ProviderCredential::ApiKey("sk-secret".to_string());
    assert_eq!(key.redacted(), "ApiKey(<redacted>)");
    let oauth = ProviderCredential::ChatGptOAuth {
        auth_file: "/tmp/auth.json".to_string(),
    };
    assert_eq!(oauth.redacted(), "ChatGptOAuth { auth_file: \"/tmp/auth.json\" }");
}
