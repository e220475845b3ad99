use caddyup::caddyfile::{
    find_caddyfile, parse_managed_block, render_config, split_managed_block, CaddyDocument,
    CaddyfileError,
};
use caddyup::model::{CaddyConfig, Site};

#[test]
fn round_trips_managed_sites() {
    let config = CaddyConfig {
        sites: vec![Site {
            address: "api.example.com".to_string(),
            upstream: "localhost:8080".to_string(),
            rate_limit_enabled: true,
            rate_limit_events: 25,
            rate_limit_window: "30s".to_string(),
            ..Site::default()
        }],
    };

    let rendered = render_config(&config);
    let parsed = parse_managed_block(rendered);

    assert_eq!(parsed, config);
}

#[test]
fn preserves_unmanaged_prefix_and_suffix() {
    let input = "admin.example.com {\n    respond ok\n}\n\n# caddyup:begin\nold.example.com {\n    reverse_proxy 127.0.0.1:5000\n}\n# caddyup:end\n\n(common) {\n    encode gzip\n}\n";
    let (prefix, managed, suffix) = split_managed_block(input).unwrap();

    assert!(prefix.contains("admin.example.com"));
    assert!(managed.unwrap().contains("old.example.com"));
    assert!(suffix.contains("(common)"));
}

#[test]
fn new_file_uses_empty_config() {
    let (prefix, managed, suffix) = split_managed_block("").unwrap();

    assert!(prefix.is_empty());
    assert!(managed.is_none());
    assert!(suffix.is_empty());
}

#[test]
fn find_existing_caddyfile_case_preference() {
    let path = find_caddyfile("/tmp/example".to_string(), false, false).unwrap();

    assert_eq!(path, "/tmp/example/Caddyfile");
}

#[test]
fn find_caddyfile_prefers_capitalized_then_lowercase() {
    assert_eq!(
        find_caddyfile("/srv".to_string(), true, true).unwrap(),
        "/srv/Caddyfile"
    );
    assert_eq!(
        find_caddyfile("/srv".to_string(), false, true).unwrap(),
        "/srv/caddyfile"
    );
    assert_eq!(
        find_caddyfile("/srv/".to_string(), false, false).unwrap(),
        "/srv/Caddyfile"
    );
    assert_eq!(find_caddyfile(String::new(), false, false).unwrap(), "Caddyfile");
}

#[test]
fn split_reports_missing_end_marker() {
    let err = split_managed_block("x\n# caddyup:begin\nsite {\n}\n").unwrap_err();
    assert_eq!(err, CaddyfileError::MissingManagedBlockEnd);
    assert_eq!(err.message(), "managed caddyup block starts but does not end");
    assert!(CaddyDocument::load("Caddyfile".to_string(), "# caddyup:begin\n".to_string()).is_err());
}

#[test]
fn split_gives_exact_parts() {
    let (prefix, managed, suffix) =
        split_managed_block("a\n# caddyup:begin\nb\n# caddyup:end\nc").unwrap();
    assert_eq!(prefix, "a\n");
    assert_eq!(managed.unwrap(), "\nb\n");
    assert_eq!(suffix, "\nc");
    let (prefix, managed, suffix) = split_managed_block("no markers here").unwrap();
    assert_eq!(prefix, "no markers here");
    assert!(managed.is_none());
    assert_eq!(suffix, "");
}

#[test]
fn renders_exact_text() {
    let config = CaddyConfig {
        sites: vec![
            Site {
                tls_internal: true,
                encode_gzip: false,
                rate_limit_enabled: true,
                rate_limit_zone: "api".to_string(),
                rate_limit_events: 4294967295,
                ..Site::default()
            },
            Site {
                address: "b.example".to_string(),
                encode_zstd: false,
                ..Site::default()
            },
        ],
    };
    let expected = "example.com {\n    encode zstd\n    tls internal\n    rate_limit {\n        zone api {\n            key {remote_host}\n            events 4294967295\n            window 1m\n        }\n    }\n    reverse_proxy 127.0.0.1:3000\n}\n\nb.example {\n    encode gzip\n    reverse_proxy 127.0.0.1:3000\n}\n\n";
    assert_eq!(render_config(&config), expected);
    assert_eq!(parse_managed_block(expected.to_string()), config);
}

#[test]
fn parses_hand_written_block() {
    let block = "\n# a comment\nstray line\n  one.example {{ \r\n\treverse_proxy   up:1  \n encode gzip\n rate_limit {\n  zone   z1 extra {\n  events +042\n  window 10s\n  }\n  events 7\n }\n tls internal\n}\ntwo.example {\n  rate_limit\n  events 99999999999\n  zone {\n}\n";
    let config = parse_managed_block(block.to_string());
    assert_eq!(config.sites.len(), 2);
    let one = &config.sites[0];
    assert_eq!(one.address, "one.example");
    assert_eq!(one.upstream, "up:1");
    assert!(!one.encode_zstd);
    assert!(one.encode_gzip);
    assert!(one.rate_limit_enabled);
    assert_eq!(one.rate_limit_zone, "z1");
    assert_eq!(one.rate_limit_events, 42);
    assert_eq!(one.rate_limit_window, "10s");
    assert!(one.tls_internal);
    let two = &config.sites[1];
    assert_eq!(two.address, "two.example");
    assert!(two.rate_limit_enabled);
    assert_eq!(two.rate_limit_events, 100);
    assert_eq!(two.rate_limit_zone, "dynamic");
}

#[test]
fn parse_without_header_ignores_directives() {
    let config = parse_managed_block("reverse_proxy x\n}\n".to_string());
    assert!(config.sites.is_empty());
}

#[test]
fn document_render_and_reload_round_trip() {
    let contents = "admin {\n  respond ok\n}\n\n\n# caddyup:begin\nold.example.com {\n    reverse_proxy 127.0.0.1:5000\n}\n# caddyup:end\n\n\n(common) {\n}\n";
    let doc = CaddyDocument::load("Caddyfile".to_string(), contents.to_string()).unwrap();
    assert_eq!(doc.config.sites.len(), 1);
    assert_eq!(doc.config.sites[0].address, "old.example.com");
    assert_eq!(doc.config.sites[0].upstream, "127.0.0.1:5000");
    let rendered = doc.render();
    assert_eq!(
        rendered,
        "admin {\n  respond ok\n}\n\n# caddyup:begin\nold.example.com {\n    encode zstd gzip\n    reverse_proxy 127.0.0.1:5000\n}\n\n# caddyup:end\n\n(common) {\n}\n"
    );
    let again = CaddyDocument::load("Caddyfile".to_string(), rendered.clone()).unwrap();
    assert_eq!(again.config, doc.config);
    assert_eq!(again.render(), rendered);
}

#[test]
fn empty_document_renders_only_the_block() {
    let doc = CaddyDocument::load("Caddyfile".to_string(), String::new()).unwrap();
    assert!(doc.config.sites.is_empty());
    assert_eq!(doc.render(), "# caddyup:begin\n# caddyup:end\n");
}
