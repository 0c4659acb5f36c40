use oneshare::config::{
    compress_level_of, default_audit_retention_days, default_auto_tune_max_chunk_size,
    default_base_retry_delay_ms, default_chunk_size, default_compress_level, default_compression,
    default_concurrency, default_download_window, default_max_retries, default_max_retry_delay_ms,
    default_max_upload_size, default_timeout_ms, default_tune_ttl_ms, default_upload_window,
    CompressLevel, Compression, Config, LibfwConfig, OidcConfig, ServerConfig,
};
use oneshare::gateway::{chunk_size_ceiling, range_knob, CapabilitiesRewrite, KnobRange};

fn config(base_url: &str, trash_dir: &str) -> Config {
    Config {
        server: ServerConfig {
            listen_addr: "0.0.0.0".to_string(),
            listen_port: 3456,
            root_dir: "/srv/data".to_string(),
            database_url: "oneshare.db".to_string(),
            hmac_secret: "0123456789abcdef0123".to_string(),
            base_url: base_url.to_string(),
            session_cookie_secure: false,
            allowed_origins: Vec::new(),
            trash_dir: trash_dir.to_string(),
            audit_retention_days: 365,
            admin_user: None,
        },
        oidc: OidcConfig {
            issuer_url: "https://id.example.com".to_string(),
            client_id: "oneshare".to_string(),
            client_secret: "secret".to_string(),
            redirect_uri: "http://localhost:3456/auth/callback".to_string(),
            authorization_endpoint: None,
            token_endpoint: None,
            userinfo_endpoint: None,
            jwks_uri: None,
        },
        libfw: LibfwConfig::default(),
    }
}

#[test]
fn defaults_apply_without_a_libfw_table() {
    let cfg = LibfwConfig::default();
    assert_eq!(cfg.compress_level, "balanced");
    assert_eq!(cfg.auto_tune_max_chunk_size, 8 * 1024 * 1024);
    assert!(!cfg.auto_tune);
    assert_eq!(cfg.compress_level_json(), CompressLevel::Named("balanced".to_string()));
}

#[test]
fn compress_level_accepts_a_policy_name_or_a_bare_integer() {
    let named = LibfwConfig { compress_level: "MAX".to_string(), ..LibfwConfig::default() };
    assert_eq!(named.compress_level_json(), CompressLevel::Named("max".to_string()));
    assert!(named.compress_level_is_valid());
    let numeric = LibfwConfig { compress_level: "-8".to_string(), ..LibfwConfig::default() };
    assert_eq!(numeric.compress_level_json(), CompressLevel::Level(-8));
    assert!(numeric.compress_level_is_valid());
    let junk = LibfwConfig { compress_level: "turbo".to_string(), ..LibfwConfig::default() };
    assert_eq!(junk.compress_level_json(), CompressLevel::Named("balanced".to_string()));
    assert!(!junk.compress_level_is_valid());
}

#[test]
fn compress_level_json_maps_policies_and_numbers() {
    let cfg = |raw: &str| LibfwConfig { compress_level: raw.to_string(), ..LibfwConfig::default() };
    assert_eq!(cfg("max").compress_level_json(), CompressLevel::Named("max".to_string()));
    assert_eq!(cfg(" FAST ").compress_level_json(), CompressLevel::Named("fast".to_string()));
    assert_eq!(cfg("auto").compress_level_json(), CompressLevel::Named("auto".to_string()));
    assert_eq!(cfg("3").compress_level_json(), CompressLevel::Level(3));
    assert_eq!(cfg("-8").compress_level_json(), CompressLevel::Level(-8));
    assert_eq!(cfg("turbo").compress_level_json(), CompressLevel::Named("balanced".to_string()));
    assert!(!cfg("turbo").compress_level_is_valid());
    assert!(cfg("auto").compress_level_is_valid());
    assert!(cfg("-8").compress_level_is_valid());
}

#[test]
fn compress_level_integer_bounds() {
    assert_eq!(compress_level_of("2147483647"), Some(CompressLevel::Level(2147483647)));
    assert_eq!(compress_level_of("-2147483648"), Some(CompressLevel::Level(-2147483648)));
    assert_eq!(compress_level_of("2147483648"), None);
    assert_eq!(compress_level_of("+7"), Some(CompressLevel::Level(7)));
    assert_eq!(compress_level_of("-+7"), None);
    assert_eq!(compress_level_of("-"), None);
}

#[test]
fn chunk_size_ceiling_follows_auto_tune() {
    let fixed = LibfwConfig { chunk_size: 2 * 1024 * 1024, ..LibfwConfig::default() };
    assert_eq!(chunk_size_ceiling(&fixed), 2 * 1024 * 1024);
    let tuned = LibfwConfig {
        auto_tune: true,
        chunk_size: 2 * 1024 * 1024,
        auto_tune_max_chunk_size: 8 * 1024 * 1024,
        ..LibfwConfig::default()
    };
    assert_eq!(chunk_size_ceiling(&tuned), 8 * 1024 * 1024);
    let small = LibfwConfig {
        auto_tune: true,
        chunk_size: 4 * 1024 * 1024,
        auto_tune_max_chunk_size: 1024 * 1024,
        ..LibfwConfig::default()
    };
    assert_eq!(chunk_size_ceiling(&small), 4 * 1024 * 1024);
    let off = LibfwConfig {
        auto_tune: false,
        chunk_size: 1024 * 1024,
        auto_tune_max_chunk_size: 16 * 1024 * 1024,
        ..LibfwConfig::default()
    };
    assert_eq!(chunk_size_ceiling(&off), 1024 * 1024);
}

fn caps(
    concurrency: u32,
    upload_window: u32,
    download_window: u32,
    chunk_size: u64,
    max_retries: u32,
    timeout_ms: u64,
    max_upload_size: u64,
) -> CapabilitiesRewrite<()> {
    let cfg = LibfwConfig {
        concurrency,
        upload_window,
        download_window,
        chunk_size,
        auto_tune_max_chunk_size: chunk_size,
        max_retries,
        timeout_ms,
        max_upload_size,
        auto_tune: true,
        ..LibfwConfig::default()
    };
    CapabilitiesRewrite::new((), &cfg)
}

#[test]
fn capabilities_rewrite_uses_min_start_and_configured_max() {
    let k = caps(4, 4, 4, 8 * 1024 * 1024, 7, 123_456, 64 * 1024 * 1024).knobs();
    for r in [k.concurrency, k.upload_window, k.download_window, k.chunk_size] {
        assert!(r.min <= r.max);
        assert_eq!(r.default, r.min);
    }
    assert_eq!((k.concurrency.min, k.concurrency.max), (1, 4));
    assert_eq!((k.upload_window.min, k.upload_window.max), (1, 4));
    assert_eq!((k.download_window.min, k.download_window.max), (1, 4));
    assert_eq!((k.chunk_size.min, k.chunk_size.max), (64 * 1024, 8 * 1024 * 1024));
    assert_eq!(k.max_retries, 7);
    assert_eq!(k.timeout_ms, 123_456);
    assert_eq!(k.max_upload_size, 64 * 1024 * 1024);
}

#[test]
fn capabilities_rewrite_keeps_valid_range_when_config_is_too_small() {
    let k = caps(1, 1, 1, 1024, 2, 2048, 4096).knobs();
    for r in [k.concurrency, k.upload_window, k.download_window, k.chunk_size] {
        assert!(r.min <= r.max);
    }
    assert_eq!((k.chunk_size.min, k.chunk_size.max), (64 * 1024, 64 * 1024));
    assert_eq!(k.max_retries, 2);
    assert_eq!(k.timeout_ms, 2048);
    assert_eq!(k.max_upload_size, 4096);
}

#[test]
fn range_knob_without_auto_tune_is_fixed() {
    assert_eq!(range_knob(5, 1, false), KnobRange { default: 5, min: 5, max: 5 });
    assert_eq!(range_knob(0, 1, true), KnobRange { default: 1, min: 1, max: 1 });
    let zero = LibfwConfig { concurrency: 0, max_upload_size: 0, ..LibfwConfig::default() };
    let c = CapabilitiesRewrite::new((), &zero);
    assert_eq!(c.max_concurrency, 1);
    assert_eq!(c.max_upload_size, 1);
}

#[test]
fn documented_defaults() {
    assert_eq!(default_compression(), "none");
    assert_eq!(default_compress_level(), "balanced");
    assert_eq!(default_auto_tune_max_chunk_size(), 8 * 1024 * 1024);
    assert_eq!(default_max_upload_size(), 100 * 1024 * 1024 * 1024);
    assert_eq!(default_concurrency(), 4);
    assert_eq!(default_chunk_size(), 2 * 1024 * 1024);
    assert_eq!(default_upload_window(), 4);
    assert_eq!(default_download_window(), 4);
    assert_eq!(default_max_retries(), 3);
    assert_eq!(default_base_retry_delay_ms(), 500);
    assert_eq!(default_max_retry_delay_ms(), 30_000);
    assert_eq!(default_timeout_ms(), 600_000);
    assert_eq!(default_tune_ttl_ms(), 3_600_000);
    assert_eq!(default_audit_retention_days(), 365);
}

#[test]
fn compression_follows_the_libfw_header_parser() {
    let c = |v: &str| LibfwConfig { compression: v.to_string(), ..LibfwConfig::default() };
    assert_eq!(c("none").compression_format(), Compression::Identity);
    assert_eq!(c(" ZRIP ").compression_format(), Compression::Zrip);
    assert_eq!(c("zstd").compression_format(), Compression::Zrip);
    assert_eq!(c("gzip").compression_format(), Compression::Identity);
}

#[test]
fn base_url_and_redirects() {
    assert_eq!(config("", "").base_url(), "");
    assert_eq!(config("/", "").base_url(), "");
    assert_eq!(config(" oneshare/ ", "").base_url(), "/oneshare");
    assert_eq!(config("/oneshare", "").redirect_after_auth(), "/oneshare");
    assert_eq!(config("", "").redirect_after_auth(), "/");
    // A value of slashes only is the domain root too.
    assert_eq!(config("//", "").base_url(), "");
    assert_eq!(config(" /// ", "").redirect_after_auth(), "/");
}

#[test]
fn trash_and_getters() {
    let c = config("", " .trash ");
    assert_eq!(c.trash_path().as_deref(), Some("/srv/data/.trash"));
    assert_eq!(config("", "/var/trash").trash_path().as_deref(), Some("/var/trash"));
    assert_eq!(config("", "   ").trash_path(), None);
    assert_eq!(c.listen_addr(), "0.0.0.0");
    assert_eq!(c.listen_port(), 3456);
    assert_eq!(c.root_dir(), "/srv/data");
    assert_eq!(c.database_url(), "oneshare.db");
    assert_eq!(c.hmac_secret(), "0123456789abcdef0123");
}
