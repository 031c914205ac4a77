use cc_proxy::affinity::CacheAffinityManager;
use cc_proxy::routing::model_from_lookup;
use cc_proxy::{extract_user_id, hash_string, provider_id, request_model, ResolvedProvider, RouteAction, RouteError, RouteSession};

fn rp(url: &str) -> ResolvedProvider {
    ResolvedProvider {
        kind: "codex".to_string(),
        api_url: url.to_string(),
        api_key: "k".to_string(),
        name: None,
        level: 0,
    }
}

const KEY: &str = "u:codex:m";

#[test]
fn failover_to_second_provider_pins_it() {
    let mut store = CacheAffinityManager::new(300);
    let candidates = vec![rp("https://first"), rp("https://second")];
    let cached = store.get_at(KEY, 0);
    assert!(cached.is_none());
    let (mut session, action) = RouteSession::start(KEY.to_string(), "m".to_string(), cached, candidates).unwrap();
    assert_eq!(action, RouteAction::Attempt(0));
    assert_eq!(session.pending(), Some(0));
    // the first provider fails
    assert_eq!(session.record_at(&mut store, false, 10), RouteAction::Attempt(1));
    assert!(!store.contains_key(KEY));
    // the second provider delivers
    assert_eq!(session.record_at(&mut store, true, 20), RouteAction::Delivered(1));
    assert_eq!(session.pending(), None);
    let p2_id = provider_id(session.candidate(1));
    assert_eq!(store.get_at(KEY, 30), Some(p2_id));
}

#[test]
fn failed_pin_is_invalidated_and_moves_to_next() {
    let mut store = CacheAffinityManager::new(300);
    let candidates = vec![rp("https://first"), rp("https://second")];
    store.set_at(KEY, &provider_id(&candidates[0]), 0);
    let cached = store.get_at(KEY, 1);
    assert_eq!(cached.as_deref(), Some("codex::https://first"));
    let (mut session, action) = RouteSession::start(KEY.to_string(), "m".to_string(), cached, candidates).unwrap();
    assert_eq!(action, RouteAction::Attempt(0));
    assert_eq!(session.record_at(&mut store, false, 2), RouteAction::Attempt(1));
    assert!(!store.contains_key(KEY));
    assert_eq!(session.record_at(&mut store, true, 3), RouteAction::Delivered(1));
    assert_eq!(store.get_at(KEY, 4), Some("codex::https://second".to_string()));
}

#[test]
fn pinned_provider_is_tried_first_and_once() {
    let mut store = CacheAffinityManager::new(300);
    let candidates = vec![rp("https://first"), rp("https://second"), rp("https://third")];
    let cached = Some("codex::https://second".to_string());
    let (mut session, action) = RouteSession::start(KEY.to_string(), "m".to_string(), cached, candidates).unwrap();
    assert_eq!(action, RouteAction::Attempt(1));
    assert_eq!(session.record_at(&mut store, false, 0), RouteAction::Attempt(0));
    assert_eq!(session.record_at(&mut store, false, 0), RouteAction::Attempt(2));
    assert_eq!(session.record_at(&mut store, false, 0), RouteAction::Exhausted { tried: 3 });
    assert_eq!(session.pending(), None);
}

#[test]
fn stale_pin_is_ignored() {
    let candidates = vec![rp("https://first"), rp("https://second")];
    let cached = Some("codex::https://gone".to_string());
    let (session, action) = RouteSession::start(KEY.to_string(), "m".to_string(), cached, candidates).unwrap();
    assert_eq!(action, RouteAction::Attempt(0));
    assert_eq!(session.candidate_count(), 2);
    assert_eq!(session.key(), KEY);
}

#[test]
fn no_providers_fails_immediately() {
    let r = RouteSession::start(KEY.to_string(), "m".to_string(), None, vec![]);
    assert_eq!(r.err(), Some(RouteError::NoProviders));
}

#[test]
fn all_failed_reports_count() {
    let mut store = CacheAffinityManager::new(300);
    let (mut session, _) = RouteSession::start(KEY.to_string(), "m".to_string(), None, vec![rp("https://only")]).unwrap();
    assert_eq!(session.record_at(&mut store, false, 0), RouteAction::Exhausted { tried: 1 });
    assert_eq!(store.len(), 0);
}

#[test]
fn record_with_clock_pins_on_delivery() {
    let mut store = CacheAffinityManager::new(300);
    let (mut session, _) = RouteSession::start(KEY.to_string(), "m".to_string(), None, vec![rp("https://only")]).unwrap();
    assert_eq!(session.record(&mut store, true), RouteAction::Delivered(0));
    assert_eq!(store.get(KEY), Some("codex::https://only".to_string()));
}

#[test]
fn request_model_reads_model_field() {
    assert_eq!(request_model(br#"{"model":"gpt-5","input":[]}"#).unwrap(), "gpt-5");
    assert_eq!(request_model(br#"{"input":[]}"#).unwrap(), "unknown");
    assert_eq!(request_model(br#"{"model":7}"#).unwrap(), "unknown");
    assert_eq!(request_model(br#"[1,2]"#).unwrap(), "unknown");
    assert_eq!(request_model(b"not json").unwrap_err(), RouteError::InvalidBody);
}

#[test]
fn model_from_lookup_cases() {
    assert_eq!(model_from_lookup(None).unwrap_err(), RouteError::InvalidBody);
    assert_eq!(model_from_lookup(Some(None)).unwrap(), "unknown");
    assert_eq!(model_from_lookup(Some(Some("m".to_string()))).unwrap(), "m");
}

#[test]
fn user_id_from_authorization() {
    assert_eq!(extract_user_id(None), "anonymous");
    let expected = hash_string("sk-123");
    assert_eq!(extract_user_id(Some("Bearer sk-123")), expected);
    assert_eq!(extract_user_id(Some("sk-123")), expected);
    assert_eq!(extract_user_id(Some("Bearer   sk-123 \t")), expected);
    assert_ne!(extract_user_id(Some("bearer sk-123")), expected);
}

#[test]
fn begin_parses_keys_and_snapshots() {
    let mut store = CacheAffinityManager::new(300);
    let registry = vec![
        rp("https://first"),
        ResolvedProvider {
            kind: "anthropic".to_string(),
            api_url: "https://messages".to_string(),
            api_key: "k".to_string(),
            name: None,
            level: 0,
        },
    ];
    let body = br#"{"model":"gpt-5"}"#;
    let key = format!("{}:codex:gpt-5", hash_string("sk-1"));
    store.set_at(&key, "codex::https://first", 0);

    let (session, action) =
        RouteSession::begin_at(&mut store, &registry, "codex", body, Some("Bearer sk-1"), 1).unwrap();
    assert_eq!(action, RouteAction::Attempt(0));
    assert_eq!(session.key(), &key);
    assert_eq!(session.model(), "gpt-5");
    assert_eq!(session.candidate_count(), 1);
    assert_eq!(store.hit_count(&key), Some(2));

    assert_eq!(
        RouteSession::begin_at(&mut store, &registry, "codex", b"{", None, 1).err(),
        Some(RouteError::InvalidBody)
    );
    assert_eq!(
        RouteSession::begin_at(&mut store, &registry, "other", body, None, 1).err(),
        Some(RouteError::NoProviders)
    );
    let (anon, _) = RouteSession::begin(&mut store, &registry, "anthropic", b"{}", None).unwrap();
    assert_eq!(anon.key(), "anonymous:anthropic:unknown");
}
