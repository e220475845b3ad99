use caddyup::model::{CaddyConfig, Site};

#[test]
fn default_site_settings() {
    let site = Site::default();
    assert_eq!(site.address, "example.com");
    assert_eq!(site.upstream, "127.0.0.1:3000");
    assert!(!site.rate_limit_enabled);
    assert_eq!(site.rate_limit_zone, "dynamic");
    assert_eq!(site.rate_limit_events, 100);
    assert_eq!(site.rate_limit_window, "1m");
    assert!(site.encode_zstd);
    assert!(site.encode_gzip);
    assert!(!site.tls_internal);
}

#[test]
fn title_joins_address_and_upstream() {
    assert_eq!(Site::default().title(), "example.com -> 127.0.0.1:3000");
}

#[test]
fn example_config_has_one_default_site() {
    let config = CaddyConfig::with_example_site();
    assert_eq!(config.sites, vec![Site::default()]);
    assert!(CaddyConfig::default().sites.is_empty());
}
