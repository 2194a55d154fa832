use yara_on_map::config::{
    validate_log_level, validate_priority, AppCfg, CfgError, MetricsCfg, ScanCfg,
};

fn check(cfg: &AppCfg) -> Result<(), CfgError> {
    cfg.validate()
}

#[test]
fn default_config_is_valid() {
    check(&AppCfg::default()).expect("default config");
}

#[test]
fn rejects_unknown_mode() {
    let cfg = AppCfg {
        mode: "block".to_string(),
        ..AppCfg::default()
    };

    let err = check(&cfg).unwrap_err();
    assert!(err.message().contains("mode"));
}

#[test]
fn rejects_zero_timeout() {
    let base = AppCfg::default();
    let scan = ScanCfg {
        timeout_ms: 0,
        ..base.scan.clone()
    };
    let cfg = AppCfg { scan, ..base };

    let err = check(&cfg).unwrap_err();
    assert!(err.message().contains("timeout_ms"));
}

#[test]
fn rejects_bad_metrics_address() {
    let base = AppCfg::default();
    let metrics = MetricsCfg {
        listen: "127.0.0.1".to_string(),
    };
    let cfg = AppCfg { metrics, ..base };

    let err = check(&cfg).unwrap_err();
    assert!(err.message().contains("metrics.listen"));
}

#[test]
fn default_config_values() {
    let cfg = AppCfg::default();
    assert_eq!(cfg.engine.engine_type, "external");
    assert_eq!(cfg.engine.yara_path, "yara64.exe");
    assert_eq!(cfg.scan.page_bytes, 65536);
    assert_eq!(cfg.scan.cache_ttl_ms, 60000);
    assert_eq!(cfg.mode, "audit");
    assert_eq!(cfg.metrics.listen, "127.0.0.1:9207");
    assert_eq!(cfg.logging.level, "info");
}

#[test]
fn engine_type_is_trimmed_and_case_blind() {
    let mut cfg = AppCfg::default();
    cfg.engine.engine_type = "  EXTERNAL ".to_string();
    assert!(check(&cfg).is_ok());
    cfg.engine.engine_type = "libyara".to_string();
    let err = check(&cfg).unwrap_err();
    assert_eq!(err.message(), "engine.type must be `external`, got `libyara`");
}

#[test]
fn each_rule_has_its_error() {
    let base = AppCfg::default();
    let mut cfg = base.clone();
    cfg.engine.yara_path = "   ".to_string();
    assert_eq!(check(&cfg).unwrap_err().message(), "engine.yara_path must not be empty");

    let mut cfg = base.clone();
    cfg.scan.page_bytes = 0;
    assert_eq!(check(&cfg).unwrap_err().message(), "scan.page_bytes must be greater than 0");

    let mut cfg = base.clone();
    cfg.scan.proc_budget_ms = 0;
    assert_eq!(check(&cfg).unwrap_err().message(), "scan.proc_budget_ms must be greater than 0");

    let mut cfg = base.clone();
    cfg.scan.cache_ttl_ms = 0;
    assert_eq!(check(&cfg).unwrap_err().message(), "scan.cache_ttl_ms must be greater than 0");

    let mut cfg = base.clone();
    cfg.scan.max_workers = 0;
    assert_eq!(check(&cfg).unwrap_err().message(), "scan.max_workers must be greater than 0");

    let mut cfg = base.clone();
    cfg.scan.priorities.write = 11;
    assert_eq!(
        check(&cfg).unwrap_err().message(),
        "scan.priorities.write must be between 0 and 10, got 11"
    );

    let mut cfg = base.clone();
    cfg.scan.priorities.execute = 200;
    assert_eq!(
        check(&cfg).unwrap_err().message(),
        "scan.priorities.exec must be between 0 and 10, got 200"
    );

    let mut cfg = base.clone();
    cfg.logging.level = "loud".to_string();
    assert_eq!(check(&cfg).unwrap_err().message(), "logging.level is invalid: `loud`");

    let mut cfg = base.clone();
    cfg.mode = " Enforce".to_string();
    assert_eq!(
        check(&cfg).unwrap_err().message(),
        "mode must be `audit` or `enforce`, got ` Enforce`"
    );
}

#[test]
fn the_first_broken_rule_is_reported() {
    let mut cfg = AppCfg::default();
    cfg.scan.page_bytes = 0;
    cfg.mode = "block".to_string();
    assert!(matches!(check(&cfg), Err(CfgError::ZeroPageBytes)));
}

#[test]
fn mode_is_trimmed() {
    let mut cfg = AppCfg::default();
    cfg.mode = " enforce\t".to_string();
    assert!(check(&cfg).is_ok());
}

#[test]
fn log_levels() {
    assert!(validate_log_level(" WARN ").is_ok());
    assert!(validate_log_level("off").is_ok());
    assert!(validate_log_level("Trace").is_ok());
    assert!(validate_log_level("verbose").is_err());
    assert!(validate_log_level("").is_err());
}

#[test]
fn priorities_up_to_ten() {
    assert!(validate_priority("p", 10).is_ok());
    assert!(validate_priority("p", 0).is_ok());
    let err = validate_priority("p", 11).unwrap_err();
    assert_eq!(err.message(), "p must be between 0 and 10, got 11");
}

#[test]
fn listen_address_is_trimmed_and_checked() {
    let mut cfg = AppCfg::default();
    cfg.metrics.listen = " [::1]:9207 ".to_string();
    assert!(check(&cfg).is_ok());
    cfg.metrics.listen = "localhost:9207".to_string();
    let err = check(&cfg).unwrap_err();
    assert_eq!(err.message(), "metrics.listen is invalid: `localhost:9207`");
}
