use codex_plus_core::relay_proxy::target::{ensure_leading_slash, normalize_base_url};
use codex_plus_core::relay_proxy::{target_url, RelayProxyConfig};
use codex_plus_core::settings::RelayProfile;

fn profile() -> RelayProfile {
    RelayProfile {
        base_url: " https://text.example/ ".to_string(),
        api_key: " text-key\n".to_string(),
        image_generation_base_url: "https://image.example/v1/".to_string(),
        image_generation_api_key: "image-key ".to_string(),
        local_relay_proxy: true,
        separate_image_generation_api: true,
    }
}

#[test]
fn target_url_normalizes_supported_paths() {
    assert_eq!(
        target_url("https://relay.example", "/v1/responses"),
        "https://relay.example/v1/responses"
    );
    assert_eq!(
        target_url("https://relay.example/v1", "/models"),
        "https://relay.example/v1/models"
    );
}

#[test]
fn base_url_ends_in_its_version() {
    assert_eq!(normalize_base_url(" https://a.example// "), "https://a.example/v1");
    assert_eq!(normalize_base_url("https://a.example/v1/"), "https://a.example/v1");
    let once = normalize_base_url("https://a.example/api");
    assert_eq!(normalize_base_url(&once), once);
}

#[test]
fn path_gets_one_leading_slash() {
    assert_eq!(ensure_leading_slash("models"), "/models");
    assert_eq!(ensure_leading_slash("/models"), "/models");
    assert_eq!(ensure_leading_slash(""), "/");
}

#[test]
fn query_is_dropped() {
    assert_eq!(
        target_url("https://a.example", "/responses?x=1&y=2"),
        target_url("https://a.example", "/responses")
    );
    assert_eq!(
        target_url("https://a.example", "/files?a?b"),
        target_url("https://a.example", "/files?a")
    );
}

#[test]
fn version_in_path_is_optional() {
    assert_eq!(
        target_url("https://a.example", "/v1/models"),
        target_url("https://a.example", "/models")
    );
}

#[test]
fn profile_without_proxy_has_no_config() {
    let mut profile = profile();
    profile.local_relay_proxy = false;
    assert_eq!(RelayProxyConfig::from_profile(&profile), None);
}

#[test]
fn profile_with_two_services() {
    let config = RelayProxyConfig::from_profile(&profile()).unwrap();
    assert_eq!(config.text_base_url, "https://text.example/v1");
    assert_eq!(config.text_api_key, "text-key");
    assert_eq!(config.image_base_url.as_deref(), Some("https://image.example/v1"));
    assert_eq!(config.image_api_key.as_deref(), Some("image-key"));
}

#[test]
fn profile_with_one_service() {
    let mut profile = profile();
    profile.separate_image_generation_api = false;
    let config = RelayProxyConfig::from_profile(&profile).unwrap();
    assert_eq!(config.image_base_url, None);
    assert_eq!(config.image_api_key, None);
}
