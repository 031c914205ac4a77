use cc_proxy::{
    default_enabled, flatten_providers, provider_id, provider_label, providers_for_kind, PlatformConfig,
    PlatformConfigList, Provider, ProviderConfig, ProviderConfigError, ProviderMapConfig, ResolvedProvider,
};

fn pc(url: &str, key: &str) -> PlatformConfig {
    PlatformConfig {
        api_url: url.to_string(),
        api_key: key.to_string(),
    }
}

fn single(kind_is_codex: bool, cfg: PlatformConfig) -> Provider {
    Provider {
        enabled: default_enabled(),
        level: 0,
        name: None,
        api_url: None,
        api_key: None,
        codex: if kind_is_codex { Some(cfg.clone()) } else { None },
        anthropic: if kind_is_codex { None } else { Some(cfg) },
    }
}

#[test]
fn provider_defaults_to_enabled() {
    let provider = Provider {
        enabled: default_enabled(),
        level: 0,
        name: Some("test".to_string()),
        api_url: None,
        api_key: None,
        codex: None,
        anthropic: None,
    };

    assert!(provider.enabled);
}

#[test]
fn get_platform_config_returns_correct_platform() {
    let provider = Provider {
        enabled: true,
        level: 1,
        name: Some("test".to_string()),
        api_url: None,
        api_key: None,
        codex: Some(PlatformConfig {
            api_url: "https://codex.api.com".to_string(),
            api_key: "codex-key".to_string(),
        }),
        anthropic: Some(PlatformConfig {
            api_url: "https://anthropic.api.com".to_string(),
            api_key: "anthropic-key".to_string(),
        }),
    };

    let codex_config = provider.get_platform_config("codex").unwrap();
    assert_eq!(codex_config.api_url, "https://codex.api.com");

    let anthropic_config = provider.get_platform_config("anthropic").unwrap();
    assert_eq!(anthropic_config.api_url, "https://anthropic.api.com");
}

#[test]
fn map_config_parses_minimal_platforms() {
    let config = ProviderConfig::PerKind {
        providers: ProviderMapConfig {
            codex: Some(PlatformConfigList::Single(pc("https://codex.api", "ckey"))),
            anthropic: Some(PlatformConfigList::List(vec![
                pc("https://anthropic.api", "akey"),
                pc("https://anthropic2.api", "akey2"),
            ])),
        },
    };

    let providers = config.into_providers().unwrap();

    assert_eq!(providers.len(), 3);
    let provider = &providers[0];
    assert!(provider.codex.is_some());
    assert!(provider.anthropic.is_none());
    assert_eq!(
        providers[1].anthropic.as_ref().unwrap().api_url,
        "https://anthropic.api"
    );
    assert_eq!(
        providers[2].anthropic.as_ref().unwrap().api_url,
        "https://anthropic2.api"
    );
}

#[test]
fn get_platform_config_falls_back_to_shared_keys() {
    let provider = Provider {
        enabled: true,
        level: 0,
        name: None,
        api_url: Some("https://shared.api.com".to_string()),
        api_key: Some("shared-key".to_string()),
        codex: None,
        anthropic: None,
    };

    let codex_config = provider.get_platform_config("codex").unwrap();
    assert_eq!(codex_config.api_url, "https://shared.api.com");

    let anthropic_config = provider.get_platform_config("anthropic").unwrap();
    assert_eq!(anthropic_config.api_url, "https://shared.api.com");
}

#[test]
fn shared_keys_ignored_when_empty_or_partial() {
    let mut provider = Provider {
        enabled: true,
        level: 0,
        name: None,
        api_url: Some("".to_string()),
        api_key: Some("k".to_string()),
        codex: None,
        anthropic: None,
    };
    assert!(provider.get_platform_config("codex").is_none());
    provider.api_url = Some("https://x".to_string());
    provider.api_key = None;
    assert!(provider.get_platform_config("codex").is_none());
}

#[test]
fn unknown_kind_uses_shared_keys_only() {
    let provider = Provider {
        enabled: true,
        level: 0,
        name: None,
        api_url: Some("https://shared".to_string()),
        api_key: Some("k".to_string()),
        codex: Some(pc("https://codex", "c")),
        anthropic: None,
    };
    assert_eq!(provider.get_platform_config("other").unwrap().api_url, "https://shared");
}

#[test]
fn per_kind_config_without_endpoints_is_an_error() {
    let config = ProviderConfig::PerKind {
        providers: ProviderMapConfig {
            codex: None,
            anthropic: Some(PlatformConfigList::List(vec![])),
        },
    };
    assert_eq!(config.into_providers().unwrap_err(), ProviderConfigError::NoProvidersDefined);
}

#[test]
fn list_config_is_kept_as_is() {
    let config = ProviderConfig::List {
        providers: vec![single(true, pc("https://a", "k"))],
    };
    let providers = config.into_providers().unwrap();
    assert_eq!(providers.len(), 1);
    assert_eq!(providers[0].codex.as_ref().unwrap().api_url, "https://a");
}

#[test]
fn platform_config_list_into_vec() {
    assert_eq!(PlatformConfigList::Single(pc("u", "k")).into_vec().len(), 1);
    let v = PlatformConfigList::List(vec![pc("u1", "k1"), pc("u2", "k2")]).into_vec();
    assert_eq!(v[1].api_url, "u2");
}

#[test]
fn flatten_drops_disabled_and_incomplete_entries() {
    let shared = Provider {
        enabled: true,
        level: 3,
        name: Some("both".to_string()),
        api_url: Some("https://shared".to_string()),
        api_key: Some("sk".to_string()),
        codex: None,
        anthropic: None,
    };
    let mut disabled = single(true, pc("https://off", "k"));
    disabled.enabled = false;
    let empty_key = single(false, pc("https://nokey", ""));
    let resolved = flatten_providers(vec![shared, disabled, empty_key, single(false, pc("https://a", "ak"))]);
    assert_eq!(resolved.len(), 3);
    assert_eq!(resolved[0].kind, "codex");
    assert_eq!(resolved[0].api_url, "https://shared");
    assert_eq!(resolved[0].level, 3);
    assert_eq!(resolved[1].kind, "anthropic");
    assert_eq!(resolved[1].name.as_deref(), Some("both"));
    assert_eq!(resolved[2].api_url, "https://a");
}

fn rp(kind: &str, url: &str, name: Option<&str>) -> ResolvedProvider {
    ResolvedProvider {
        kind: kind.to_string(),
        api_url: url.to_string(),
        api_key: "k".to_string(),
        name: name.map(|n| n.to_string()),
        level: 0,
    }
}

#[test]
fn provider_identity_and_label() {
    let p = rp("codex", "https://a.example/", Some("A"));
    assert_eq!(provider_id(&p), "codex::https://a.example/");
    assert_eq!(provider_label(&p), "A (https://a.example/)");
    assert_eq!(provider_label(&rp("codex", "https://b", Some(""))), "https://b");
    assert_eq!(provider_label(&rp("codex", "https://c", None)), "https://c");
}

#[test]
fn snapshot_filters_by_kind_keeping_order() {
    let all = vec![
        rp("codex", "https://1", None),
        rp("anthropic", "https://2", None),
        rp("codex", "https://3", None),
    ];
    let codex = providers_for_kind(&all, "codex");
    assert_eq!(codex.len(), 2);
    assert_eq!(codex[0].api_url, "https://1");
    assert_eq!(codex[1].api_url, "https://3");
    assert!(providers_for_kind(&all, "other").is_empty());
}
