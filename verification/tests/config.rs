use rpi::config::{
    config_file_names, find_text, interpolate_env, is_stale, lock_file_name, CompactionConfig,
    CompactionPatch, Config, ConfigError, ConfigPatch, OAuthToken,
};
use rpi::json::JsonNumber;
use rpi::types::{ModelInputKind, Model, ModelCost, ModelId};

fn env_of(pairs: &[(&str, &str)]) -> Vec<(String, String)> {
    pairs
        .iter()
        .map(|(name, value)| (name.to_string(), value.to_string()))
        .collect()
}

fn custom_model() -> Model {
    Model {
        id: ModelId::new("openai", "custom"),
        name: "Custom".to_string(),
        api: "openai".to_string(),
        provider: "openai".to_string(),
        base_url: "https://api.example.test".to_string(),
        reasoning: false,
        thinking_level_map: vec![],
        input: vec![ModelInputKind::Text],
        cost: ModelCost {
            input: JsonNumber::Real("1.0".to_string()),
            output: JsonNumber::Real("2.0".to_string()),
            cache_read: JsonNumber::Real("0.1".to_string()),
            cache_write: JsonNumber::Real("0.2".to_string()),
        },
        context_window: 128000,
        max_tokens: 4096,
        headers: None,
        compat: None,
    }
}


#[test]
fn setting_compaction_field_does_not_implicitly_enable() {
    let config = Config::default();
    assert!(config.compaction.is_none());

    let updated = config.set("compaction.reserve_tokens", "1000").unwrap();

    let compaction = updated
        .compaction
        .as_ref()
        .expect("compaction should be Some after setting a sub-field");
    assert!(
        !compaction.enabled,
        "compaction should not be implicitly enabled"
    );
    assert_eq!(compaction.reserve_tokens, 1000);
}

#[test]
fn load_from_path_returns_defaults_when_file_is_missing() {
    let env = env_of(&[]);

    let config = Config::load_layered_with_env(vec![], &env, &env_of(&[])).unwrap();

    assert_eq!(config.default_model.as_deref(), Some("openai/gpt-4o"));
}

#[test]
fn load_from_path_interpolates_env_vars_in_string_values() {
    let file = ConfigPatch {
        api_keys: env_of(&[("openai", "${OPENAI_API_KEY}")]),
        base_urls: env_of(&[("openai", "https://${OPENAI_HOST}/v1")]),
        system_prompt: Some("Use ${PROJECT_NAME}".to_string()),
        ..ConfigPatch::default()
    };
    let env = env_of(&[
        ("OPENAI_API_KEY", "test-key"),
        ("OPENAI_HOST", "api.example.test"),
        ("PROJECT_NAME", "rpi"),
    ]);

    let config = Config::load_layered_with_env(vec![file], &env, &env_of(&[])).unwrap();

    assert_eq!(config.get_api_key("openai"), Some("test-key"));
    assert_eq!(
        config.get_base_url("openai"),
        Some("https://api.example.test/v1")
    );
    assert_eq!(config.system_prompt.as_deref(), Some("Use rpi"));
}

#[test]
fn load_layered_with_env_applies_defaults_file_env_then_cli_order() {
    let global = ConfigPatch {
        default_model: Some("anthropic/sonnet".to_string()),
        api_keys: env_of(&[("openai", "global-key")]),
        base_urls: env_of(&[("openai", "https://global.example/v1")]),
        compaction: Some(CompactionPatch {
            enabled: None,
            context_window: None,
            reserve_tokens: Some(1000),
            keep_recent_tokens: None,
        }),
        ..ConfigPatch::default()
    };
    let project = ConfigPatch {
        api_keys: env_of(&[("anthropic", "project-key")]),
        base_urls: env_of(&[("openai", "https://project.example/v1")]),
        compaction: Some(CompactionPatch {
            enabled: None,
            context_window: None,
            reserve_tokens: None,
            keep_recent_tokens: Some(2000),
        }),
        ..ConfigPatch::default()
    };
    let env = env_of(&[
        ("RPI_DEFAULT_MODEL", "google/gemini"),
        ("RPI_API_KEY_OPENAI", "env-key"),
        ("RPI_COMPACTION_RESERVE_TOKENS", "1500"),
    ]);
    let cli_overrides = env_of(&[("default_model", "openai/gpt-4o")]);

    let config =
        Config::load_layered_with_env(vec![global, project], &env, &cli_overrides).unwrap();

    assert_eq!(config.default_model.as_deref(), Some("openai/gpt-4o"));
    assert_eq!(config.get_api_key("openai"), Some("env-key"));
    assert_eq!(config.get_api_key("anthropic"), Some("project-key"));
    assert_eq!(
        config.get_base_url("openai"),
        Some("https://project.example/v1")
    );
    let compaction = config.compaction.as_ref().unwrap();
    assert_eq!(compaction.reserve_tokens, 1500);
    assert_eq!(compaction.keep_recent_tokens, 2000);
}

#[test]
fn load_from_dirs_reads_split_config_schema_files_in_layer_order() {
    let global_settings = ConfigPatch {
        default_model: Some("anthropic/sonnet".to_string()),
        system_prompt: Some("Global ${PROJECT_NAME}".to_string()),
        ..ConfigPatch::default()
    };
    let global_auth = ConfigPatch {
        api_keys: env_of(&[("openai", "global-key")]),
        oauth_tokens: vec![(
            "openai".to_string(),
            OAuthToken {
                access_token: "${OPENAI_ACCESS_TOKEN}".to_string(),
                refresh_token: Some("refresh-token".to_string()),
                expires_at: Some("2026-05-30T00:00:00Z".to_string()),
            },
        )],
        ..ConfigPatch::default()
    };
    let global_models = ConfigPatch {
        models: vec![("openai/custom".to_string(), custom_model())],
        ..ConfigPatch::default()
    };
    let project_settings = ConfigPatch {
        default_model: Some("openai/custom".to_string()),
        ..ConfigPatch::default()
    };
    let project_auth = ConfigPatch {
        api_keys: env_of(&[("anthropic", "project-key")]),
        ..ConfigPatch::default()
    };
    let project_keybindings = ConfigPatch {
        keybindings: env_of(&[("submit", "ctrl+j"), ("cancel", "esc")]),
        ..ConfigPatch::default()
    };

    let env = env_of(&[
        ("PROJECT_NAME", "rpi"),
        ("OPENAI_ACCESS_TOKEN", "env-access-token"),
    ]);

    let config = Config::load_layered_with_env(
        vec![
            global_settings,
            global_auth,
            global_models,
            project_settings,
            project_auth,
            project_keybindings,
        ],
        &env,
        &env_of(&[]),
    )
    .unwrap();

    assert_eq!(config.default_model.as_deref(), Some("openai/custom"));
    assert_eq!(config.system_prompt.as_deref(), Some("Global rpi"));
    assert_eq!(config.get_api_key("openai"), Some("global-key"));
    assert_eq!(config.get_api_key("anthropic"), Some("project-key"));
    assert_eq!(config.oauth_tokens[0].0, "openai");
    assert_eq!(config.oauth_tokens[0].1.access_token, "env-access-token");
    assert_eq!(config.models[0].0, "openai/custom");
    assert_eq!(config.models[0].1.context_window, 128000);
    assert_eq!(find_text(&config.keybindings, "submit"), Some("ctrl+j"));
}

#[test]
fn acquire_removes_stale_lock_older_than_30_seconds() {
    assert_eq!(lock_file_name(Some("config.json")), "config.json.lock");
    assert_eq!(lock_file_name(None), "config.json.lock");
    assert!(is_stale(Some((60, 0))));
    assert!(is_stale(Some((30, 1))));
}

#[test]
fn acquire_fails_when_lock_is_recent() {
    assert!(!is_stale(Some((0, 0))));
    assert!(!is_stale(Some((30, 0))));
    assert!(!is_stale(None));
}

#[test]
fn interpolate_errors_on_unclosed_brace() {
    let env = env_of(&[]);
    let result = interpolate_env("hello ${UNCLOSED", &env);
    assert!(result.is_err(), "should fail on unclosed ${{");
    assert!(result.unwrap_err().to_text().contains("Unclosed"));
}

#[test]
fn interpolate_errors_on_missing_env_var() {
    let env = env_of(&[]);
    let result = interpolate_env("${DEFINITELY_NOT_SET_VAR_XYZ}", &env);
    assert!(result.is_err(), "should fail on missing env var");
    assert!(
        result
            .unwrap_err()
            .to_text()
            .contains("DEFINITELY_NOT_SET_VAR_XYZ")
    );
}

#[test]
fn interpolate_empty_var_name_errors() {
    let env = env_of(&[]);
    let result = interpolate_env("hello ${}", &env);
    assert!(result.is_err(), "should fail on empty var name");
}

#[test]
fn interpolate_multiple_vars_in_one_string() {
    let env = env_of(&[
        ("HOST", "api.example.com"),
        ("PORT", "8443"),
    ]);
    let result = interpolate_env("https://${HOST}:${PORT}/v1", &env).unwrap();
    assert_eq!(result, "https://api.example.com:8443/v1");
}

#[test]
fn interpolate_empty_string_passes_through() {
    let env = env_of(&[]);
    let result = interpolate_env("", &env).unwrap();
    assert_eq!(result, "");
}

#[test]
fn interpolate_no_placeholders_passes_through() {
    let env = env_of(&[("FOO", "bar")]);
    let result = interpolate_env("just plain text", &env).unwrap();
    assert_eq!(result, "just plain text");
}

#[test]
fn interpolate_empty_env_value_substitutes_empty_string() {
    let env = env_of(&[("EMPTY", "")]);
    let result = interpolate_env("prefix-${EMPTY}-suffix", &env).unwrap();
    assert_eq!(result, "prefix--suffix");
}

#[test]
fn interpolate_adjacent_placeholders() {
    let env = env_of(&[
        ("A", "1"),
        ("B", "2"),
    ]);
    let result = interpolate_env("${A}${B}", &env).unwrap();
    assert_eq!(result, "12");
}

#[test]
fn interpolate_escaped_dollar_sign_not_supported() {
    let env = env_of(&[]);
    let result = interpolate_env("price is $5", &env).unwrap();
    assert_eq!(result, "price is $5");
}

#[test]
fn directories_hold_the_files_in_order() {
    assert_eq!(
        config_file_names(),
        vec![
            "config.json",
            "settings.json",
            "auth.json",
            "models.json",
            "keybindings.json"
        ]
    );
}

#[test]
fn set_values_are_found() {
    let config = Config::default()
        .set("api_key.openai", "k1")
        .unwrap()
        .set("api_key.openai", "k2")
        .unwrap()
        .set("base_url.x.y", "u")
        .unwrap()
        .set("max_tokens", "+12")
        .unwrap()
        .set("temperature", "0.5")
        .unwrap()
        .set("compaction.enabled", "true")
        .unwrap();
    assert_eq!(config.get_api_key("openai"), Some("k2"));
    assert_eq!(config.api_keys.len(), 1);
    assert_eq!(config.get_base_url("x.y"), Some("u"));
    assert_eq!(config.get_base_url("x"), None);
    assert_eq!(config.max_tokens, Some(12));
    assert_eq!(config.temperature.as_deref(), Some("0.5"));
    let compaction = config.compaction.unwrap();
    assert!(compaction.enabled);
    let settings = compaction.to_core_settings();
    assert!(settings.enabled);
    assert_eq!(settings.reserve_tokens, compaction.reserve_tokens);
}

#[test]
fn compaction_is_enabled_by_default() {
    assert!(CompactionConfig::default().enabled);
    let env = env_of(&[("RPI_COMPACTION_RESERVE_TOKENS", "7")]);
    let config = Config::default().apply_env(&env).unwrap();
    assert!(config.compaction.unwrap().enabled);
    let set = Config::default().set("compaction.context_window", "9").unwrap();
    assert!(!set.compaction.unwrap().enabled);
}

#[test]
fn values_that_cannot_be_read_are_described_as_by_the_standard_library() {
    let config = Config::default();
    let text = |key: &str, value: &str| config.set(key, value).err().unwrap().to_text();
    for value in [
        "", "+", "-", "-1", "x", "12x", "+4294967296", "4294967295x", "4294967296x", "99999999999x",
        "99999999999", " 1", "1 ", "\u{661}",
    ] {
        let expected = value.parse::<u32>().unwrap_err().to_string();
        assert_eq!(text("max_tokens", value), expected);
        assert_eq!(text("compaction.context_window", value), expected);
    }
    for value in ["", "warm", "1,5", "+"] {
        assert_eq!(text("temperature", value), value.parse::<f32>().unwrap_err().to_string());
    }
    for value in ["", "yes", "TRUE"] {
        assert_eq!(
            text("compaction.enabled", value),
            value.parse::<bool>().unwrap_err().to_string()
        );
    }
}

#[test]
fn each_error_has_its_input() {
    let config = Config::default();
    let failure = |key: &str, value: &str| config.set(key, value).err().unwrap();
    assert!(matches!(failure("nope", "x"), ConfigError::UnknownKey { .. }));
    assert!(matches!(
        failure("compaction.nope", "x"),
        ConfigError::UnknownCompactionKey { .. }
    ));
    assert!(matches!(failure("max_tokens", "-1"), ConfigError::InvalidInteger { .. }));
    assert!(matches!(
        failure("compaction.context_window", "4294967296"),
        ConfigError::InvalidInteger { .. }
    ));
    assert!(matches!(failure("temperature", "warm"), ConfigError::InvalidNumber { .. }));
    assert!(matches!(
        failure("compaction.enabled", "yes"),
        ConfigError::InvalidBool { .. }
    ));
    let env = env_of(&[("RPI_MAX_TOKENS", "many")]);
    assert!(matches!(
        Config::default().apply_env(&env).err().unwrap(),
        ConfigError::InvalidVariable { .. }
    ));
}

#[test]
fn environment_names_providers_in_lower_case() {
    let env = env_of(&[
        ("RPI_BASE_URL_MyHost", "u"),
        ("PATH", "/bin"),
        ("RPI_TEMPERATURE", "1.5"),
    ]);
    let config = Config::default().apply_env(&env).unwrap();
    assert_eq!(config.get_base_url("myhost"), Some("u"));
    assert_eq!(config.temperature.as_deref(), Some("1.5"));
    assert_eq!(config.base_urls.len(), 1);
}

#[test]
fn empty_patch_changes_nothing() {
    let mut config = Config::default().set("max_tokens", "5").unwrap();
    config.merge_patch(ConfigPatch::default());
    assert_eq!(config.max_tokens, Some(5));
    assert_eq!(config.default_model.as_deref(), Some("openai/gpt-4o"));
    assert!(config.compaction.is_none());
}

#[test]
fn patch_of_compaction_keeps_other_fields() {
    let mut config = CompactionConfig::default();
    CompactionPatch {
        enabled: Some(true),
        context_window: Some(9),
        reserve_tokens: None,
        keep_recent_tokens: None,
    }
    .merge_into(&mut config);
    assert!(config.enabled);
    assert_eq!(config.context_window, Some(9));
    assert_eq!(config.reserve_tokens, CompactionConfig::default().reserve_tokens);
}

#[test]
fn placeholders_are_replaced_once() {
    let env = env_of(&[("A", "${B}"), ("B", "x")]);
    assert_eq!(interpolate_env("${A}", &env).unwrap(), "${B}");
}
