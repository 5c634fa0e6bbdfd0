use base64::Engine;
use muna::acceleration::Acceleration;
use muna::cache::{
    cache_file_name, cache_write_names, missing_configuration_error, needs_refresh, prediction_cache_key,
    preload_output, resolution_plan, resource_stem, retry_refresh_at, token_refresh_at, FirstResult,
    PredictionCacheKey, ResolutionPlan, TokenTimingClaims,
};
use muna::error::MunaError;
use muna::remote::token_payload;

fn cache_key(target: &str, configuration_id: &str) -> PredictionCacheKey {
    PredictionCacheKey {
        tag: "@user/model".to_string(),
        target: target.to_string(),
        configuration_id: Some(configuration_id.to_string()),
    }
}

fn token(payload: &str) -> String {
    format!("header.{}.signature", base64::engine::general_purpose::URL_SAFE_NO_PAD.encode(payload.as_bytes()))
}

#[test]
fn cache_key_includes_target_and_configuration_identity() {
    assert_ne!(cache_key("linux-x86_64", "device-a"), cache_key("linux-aarch64", "device-a"));
    assert_ne!(cache_key("linux-x86_64", "device-a"), cache_key("linux-x86_64", "device-b"));
    assert!(!cache_key("linux-x86_64", "device-a").same_as(&cache_key("linux-aarch64", "device-a")));
    assert!(cache_key("linux-x86_64", "device-a").same_as(&cache_key("linux-x86_64", "device-a")));
}

#[test]
fn cache_key_falls_back_to_native_identity_then_rust() {
    let key = prediction_cache_key("@a/b", None, None, None, Some("device".to_string()));
    assert_eq!(key.target, "rust");
    assert_eq!(key.configuration_id.as_deref(), Some("device"));
    let key = prediction_cache_key("@a/b", None, Some("given".to_string()), Some("native".to_string()), Some("device".to_string()));
    assert_eq!(key.target, "native");
    assert_eq!(key.configuration_id.as_deref(), Some("given"));
    let key = prediction_cache_key("@a/b", Some("client".to_string()), None, Some("native".to_string()), None);
    assert_eq!(key.tag, "@a/b");
    assert_eq!(key.target, "client");
    assert_eq!(key.configuration_id, None);
}

#[test]
fn parses_exp_and_refreshes_at_half_life() {
    assert_eq!(token_refresh_at(Some(TokenTimingClaims { iat: Some(1_000), exp: Some(2_000) }), 1_000), Some(1_500));
    assert_eq!(token_refresh_at(Some(TokenTimingClaims { iat: Some(1_000), exp: None }), 1_000), None);
    assert_eq!(token_refresh_at(None, 1_000), None);
}

#[test]
fn refresh_uses_cache_time_without_issue_time_and_expiry_when_lifetime_is_over() {
    assert_eq!(token_refresh_at(Some(TokenTimingClaims { iat: None, exp: Some(2_000) }), 1_000), Some(1_500));
    assert_eq!(token_refresh_at(Some(TokenTimingClaims { iat: Some(3_000), exp: Some(2_000) }), 0), Some(2_000));
    assert_eq!(token_refresh_at(Some(TokenTimingClaims { iat: Some(i64::MIN), exp: Some(i64::MAX) }), 0), Some(i64::MIN + i64::MAX / 2));
}

#[test]
fn absent_or_malformed_preload_claim_is_empty() {
    assert_eq!(token_payload(&token("{\"tag\":\"@user/model\"}")), Some(b"{\"tag\":\"@user/model\"}".to_vec()));
    assert_eq!(token_payload("not-a-jwt"), None);
    assert_eq!(token_payload("header.%%%.signature"), None);
    assert_eq!(token_payload("header.e30"), Some(b"{}".to_vec()));
}

#[test]
fn parses_preload_claim() {
    assert_eq!(Acceleration::from_name("remote_b200"), Acceleration::RemoteB200);
    assert_eq!(Acceleration::from_name("remote_h200"), Acceleration::RemoteH200);
    assert_eq!(Acceleration::RemoteH200.name(), "remote_h200");
}

#[test]
fn ignores_unknown_preload_fields() {
    assert_eq!(
        Acceleration::from_name("remote_future_accelerator"),
        Acceleration::Adaptive("remote_future_accelerator".to_string())
    );
    assert_eq!(Acceleration::Adaptive("remote_x".to_string()).name(), "remote_x");
}

#[test]
fn preload_output_requires_first_string_result() {
    let tag = "@user/model:decode";
    assert_eq!(preload_output(tag, None, &FirstResult::Text("endpoint".to_string())).unwrap(), "endpoint");
    assert!(preload_output(tag, None, &FirstResult::Missing).is_err());
    assert!(preload_output(tag, None, &FirstResult::Other).is_err());
    match preload_output(tag, Some("sidecar failed"), &FirstResult::Text("endpoint".to_string())) {
        Err(MunaError::Prediction(m)) => assert_eq!(m, "Failed to preload @user/model:decode: sidecar failed"),
        _ => panic!("expected an error"),
    }
    match preload_output(tag, None, &FirstResult::Missing) {
        Err(MunaError::Prediction(m)) => assert_eq!(m, "Failed to preload @user/model:decode because it returned no results"),
        _ => panic!("expected an error"),
    }
}

#[test]
fn resolution_follows_the_refresh_time() {
    assert_eq!(resolution_plan(None, false, 10), ResolutionPlan::FetchNew);
    assert_eq!(resolution_plan(Some(None), true, 10), ResolutionPlan::FetchNew);
    assert_eq!(resolution_plan(Some(None), false, 10), ResolutionPlan::UseCached);
    assert_eq!(resolution_plan(Some(Some(11)), false, 10), ResolutionPlan::UseCached);
    assert_eq!(resolution_plan(Some(Some(10)), false, 10), ResolutionPlan::RefreshCached);
    assert!(needs_refresh(Some(5), 5));
    assert!(!needs_refresh(None, 5));
    assert_eq!(retry_refresh_at(100), 3_700);
}

#[test]
fn cache_files_are_named_by_hash() {
    assert_eq!(cache_file_name(0xab), "00000000000000ab.json");
    assert_eq!(cache_file_name(u64::MAX), "ffffffffffffffff.json");
    let (tmp, backup) = cache_write_names(Some("x.json"), 12, 345, 6);
    assert_eq!(tmp, ".x.json.12.345.6.tmp");
    assert_eq!(backup, ".x.json.12.345.6.backup");
    let (tmp, _) = cache_write_names(None, 1, 2, 3);
    assert_eq!(tmp, ".prediction.json.1.2.3.tmp");
}

#[test]
fn resources_are_cached_under_their_url_stem() {
    assert_eq!(resource_stem("https://cdn.example/resources/libfake.so"), "libfake.so");
    assert_eq!(resource_stem("not a url"), "resource");
}

#[test]
fn missing_configuration_is_reported() {
    match missing_configuration_error("@a/b") {
        MunaError::Prediction(m) => assert_eq!(m, "Failed to create @a/b prediction because configuration token is missing"),
        _ => panic!("expected a prediction error"),
    }
}
