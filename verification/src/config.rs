//! The scanner's configuration and the checks it must pass before use.

use vstd::prelude::*;
use crate::sockaddr::{is_socket_addr, socket_addr_ok};
use crate::text::{
    ascii_lower, dec, eq_ignore_ascii_case, eq_ignore_ascii_case_text, lemma_ignore_case_is_lowering, push_dec, push_text, same_text, text_of,
    trim, trim_end, trim_start, trim_text,
};

verus! {

/// Which engine runs the rules, and where its executable is.
#[derive(Clone, Debug)]
pub struct EngineCfg {
    /// The engine kind; only `external` is supported.
    pub engine_type: String,
    pub yara_path: String,
}

/// How pages are read, scanned and cached.
#[derive(Clone, Debug)]
pub struct ScanCfg {
    pub page_bytes: usize,
    pub timeout_ms: u64,
    pub proc_budget_ms: u64,
    pub cache_ttl_ms: u64,
    pub max_workers: usize,
    pub priorities: Priorities,
}

/// Scan priorities by page protection, each from 0 to 10.
#[derive(Clone, Copy, Debug, PartialEq, Eq)]
pub struct Priorities {
    pub execute: u8,
    pub write: u8,
    pub read: u8,
}

/// Where the metrics endpoint listens.
#[derive(Clone, Debug)]
pub struct MetricsCfg {
    pub listen: String,
}

/// How much is logged.
#[derive(Clone, Debug)]
pub struct LogCfg {
    pub level: String,
}

/// The whole configuration.
#[derive(Clone, Debug)]
pub struct AppCfg {
    pub engine: EngineCfg,
    pub scan: ScanCfg,
    /// `audit` or `enforce`.
    pub mode: String,
    pub metrics: MetricsCfg,
    pub logging: LogCfg,
}

/// Why a configuration was refused.
#[derive(Clone, Debug)]
pub enum CfgError {
    /// `engine.type` is not `external`; the value as given.
    EngineType(String),
    EmptyYaraPath,
    ZeroPageBytes,
    ZeroTimeout,
    ZeroProcBudget,
    ZeroCacheTtl,
    ZeroMaxWorkers,
    /// A priority above 10: the setting's name and its value.
    Priority(String, u8),
    /// `mode` is neither `audit` nor `enforce`; the value as given.
    Mode(String),
    /// `metrics.listen` is not a socket address; the value as given.
    MetricsListen(String),
    /// `logging.level` is not a known level; the value as given.
    LogLevel(String),
}

/// A refusal, with its texts as character sequences.
pub enum CfgFault {
    EngineType(Seq<char>),
    EmptyYaraPath,
    ZeroPageBytes,
    ZeroTimeout,
    ZeroProcBudget,
    ZeroCacheTtl,
    ZeroMaxWorkers,
    Priority(Seq<char>, u8),
    Mode(Seq<char>),
    MetricsListen(Seq<char>),
    LogLevel(Seq<char>),
}

impl View for CfgError {
    type V = CfgFault;

    open spec fn view(&self) -> CfgFault {
        match self {
            CfgError::EngineType(s) => CfgFault::EngineType(s@),
            CfgError::EmptyYaraPath => CfgFault::EmptyYaraPath,
            CfgError::ZeroPageBytes => CfgFault::ZeroPageBytes,
            CfgError::ZeroTimeout => CfgFault::ZeroTimeout,
            CfgError::ZeroProcBudget => CfgFault::ZeroProcBudget,
            CfgError::ZeroCacheTtl => CfgFault::ZeroCacheTtl,
            CfgError::ZeroMaxWorkers => CfgFault::ZeroMaxWorkers,
            CfgError::Priority(n, v) => CfgFault::Priority(n@, *v),
            CfgError::Mode(s) => CfgFault::Mode(s@),
            CfgError::MetricsListen(s) => CfgFault::MetricsListen(s@),
            CfgError::LogLevel(s) => CfgFault::LogLevel(s@),
        }
    }
}

/// What a refusal reads as.
pub open spec fn fault_message(f: CfgFault) -> Seq<char> {
    match f {
        CfgFault::EngineType(s) => "engine.type must be `external`, got `"@ + s + "`"@,
        CfgFault::EmptyYaraPath => "engine.yara_path must not be empty"@,
        CfgFault::ZeroPageBytes => "scan.page_bytes must be greater than 0"@,
        CfgFault::ZeroTimeout => "scan.timeout_ms must be greater than 0"@,
        CfgFault::ZeroProcBudget => "scan.proc_budget_ms must be greater than 0"@,
        CfgFault::ZeroCacheTtl => "scan.cache_ttl_ms must be greater than 0"@,
        CfgFault::ZeroMaxWorkers => "scan.max_workers must be greater than 0"@,
        CfgFault::Priority(n, v) => n + " must be between 0 and 10, got "@ + dec(v as nat),
        CfgFault::Mode(s) => "mode must be `audit` or `enforce`, got `"@ + s + "`"@,
        CfgFault::MetricsListen(s) => "metrics.listen is invalid: `"@ + s + "`"@,
        CfgFault::LogLevel(s) => "logging.level is invalid: `"@ + s + "`"@,
    }
}

fn quoted(prefix: &str, value: &str) -> (r: String)
    ensures
        r@ == prefix@ + value@ + "`"@,
{
    let mut s = text_of(prefix);
    push_text(&mut s, value);
    push_text(&mut s, "`");
    s
}

impl CfgError {
    /// The refusal as text.
    pub fn message(&self) -> (r: String)
        ensures
            r@ == fault_message(self@),
    {
        match self {
            CfgError::EngineType(s) => quoted("engine.type must be `external`, got `", s.as_str()),
            CfgError::EmptyYaraPath => text_of("engine.yara_path must not be empty"),
            CfgError::ZeroPageBytes => text_of("scan.page_bytes must be greater than 0"),
            CfgError::ZeroTimeout => text_of("scan.timeout_ms must be greater than 0"),
            CfgError::ZeroProcBudget => text_of("scan.proc_budget_ms must be greater than 0"),
            CfgError::ZeroCacheTtl => text_of("scan.cache_ttl_ms must be greater than 0"),
            CfgError::ZeroMaxWorkers => text_of("scan.max_workers must be greater than 0"),
            CfgError::Priority(n, v) => {
                let mut s = text_of(n.as_str());
                push_text(&mut s, " must be between 0 and 10, got ");
                push_dec(&mut s, *v as u64);
                s
            },
            CfgError::Mode(s) => quoted("mode must be `audit` or `enforce`, got `", s.as_str()),
            CfgError::MetricsListen(s) => quoted("metrics.listen is invalid: `", s.as_str()),
            CfgError::LogLevel(s) => quoted("logging.level is invalid: `", s.as_str()),
        }
    }
}

/// A priority must be at most 10.
pub open spec fn priority_verdict(name: Seq<char>, value: u8) -> Result<(), CfgFault> {
    if value > 10 {
        Err(CfgFault::Priority(name, value))
    } else {
        Ok(())
    }
}

/// The log levels, compared after trimming and without regard to ASCII case.
pub open spec fn known_log_level(level: Seq<char>) -> bool {
    let t = trim(level);
    ||| eq_ignore_ascii_case(t, "trace"@)
    ||| eq_ignore_ascii_case(t, "debug"@)
    ||| eq_ignore_ascii_case(t, "info"@)
    ||| eq_ignore_ascii_case(t, "warn"@)
    ||| eq_ignore_ascii_case(t, "error"@)
    ||| eq_ignore_ascii_case(t, "off"@)
}

/// The verdict on a configuration, the first failing rule deciding the
/// refusal.
pub open spec fn verdict(cfg: AppCfg) -> Result<(), CfgFault> {
    if !eq_ignore_ascii_case(trim(cfg.engine.engine_type@), "external"@) {
        Err(CfgFault::EngineType(cfg.engine.engine_type@))
    } else if trim(cfg.engine.yara_path@).len() == 0 {
        Err(CfgFault::EmptyYaraPath)
    } else if cfg.scan.page_bytes == 0 {
        Err(CfgFault::ZeroPageBytes)
    } else if cfg.scan.timeout_ms == 0 {
        Err(CfgFault::ZeroTimeout)
    } else if cfg.scan.proc_budget_ms == 0 {
        Err(CfgFault::ZeroProcBudget)
    } else if cfg.scan.cache_ttl_ms == 0 {
        Err(CfgFault::ZeroCacheTtl)
    } else if cfg.scan.max_workers == 0 {
        Err(CfgFault::ZeroMaxWorkers)
    } else if cfg.scan.priorities.execute > 10 {
        Err(CfgFault::Priority("scan.priorities.exec"@, cfg.scan.priorities.execute))
    } else if cfg.scan.priorities.write > 10 {
        Err(CfgFault::Priority("scan.priorities.write"@, cfg.scan.priorities.write))
    } else if cfg.scan.priorities.read > 10 {
        Err(CfgFault::Priority("scan.priorities.read"@, cfg.scan.priorities.read))
    } else if !(trim(cfg.mode@) == "audit"@ || trim(cfg.mode@) == "enforce"@) {
        Err(CfgFault::Mode(cfg.mode@))
    } else if !socket_addr_ok(trim(cfg.metrics.listen@)) {
        Err(CfgFault::MetricsListen(cfg.metrics.listen@))
    } else if !known_log_level(cfg.logging.level@) {
        Err(CfgFault::LogLevel(cfg.logging.level@))
    } else {
        Ok(())
    }
}

/// Checks that a priority is at most 10.
pub fn validate_priority(name: &str, value: u8) -> (r: Result<(), CfgError>)
    ensures
        match r {
            Ok(()) => priority_verdict(name@, value) is Ok,
            Err(e) => priority_verdict(name@, value) == Err::<(), CfgFault>(e@),
        },
{
    if value > 10 {
        return Err(CfgError::Priority(text_of(name), value));
    }
    Ok(())
}

/// Checks that `level`, trimmed and in lower case, is one of `trace`,
/// `debug`, `info`, `warn`, `error` and `off`.
pub fn validate_log_level(level: &str) -> (r: Result<(), CfgError>)
    ensures
        match r {
            Ok(()) => known_log_level(level@),
            Err(e) => !known_log_level(level@) && e@ == CfgFault::LogLevel(level@),
        },
{
    let t = trim_text(level);
    if eq_ignore_ascii_case_text(t, "trace") || eq_ignore_ascii_case_text(t, "debug")
        || eq_ignore_ascii_case_text(t, "info") || eq_ignore_ascii_case_text(t, "warn")
        || eq_ignore_ascii_case_text(t, "error") || eq_ignore_ascii_case_text(t, "off") {
        Ok(())
    } else {
        Err(CfgError::LogLevel(text_of(level)))
    }
}

/// A log level is accepted exactly when, trimmed and with its ASCII letters
/// lowered, it reads `trace`, `debug`, `info`, `warn`, `error` or `off`.
pub proof fn lemma_log_levels(level: Seq<char>)
    ensures
        known_log_level(level) <==> {
            ||| ascii_lower(trim(level)) == "trace"@
            ||| ascii_lower(trim(level)) == "debug"@
            ||| ascii_lower(trim(level)) == "info"@
            ||| ascii_lower(trim(level)) == "warn"@
            ||| ascii_lower(trim(level)) == "error"@
            ||| ascii_lower(trim(level)) == "off"@
        },
{
    reveal_strlit("trace");
    reveal_strlit("debug");
    reveal_strlit("info");
    reveal_strlit("warn");
    reveal_strlit("error");
    reveal_strlit("off");
    let t = trim(level);
    lemma_ignore_case_is_lowering(t, "trace"@);
    lemma_ignore_case_is_lowering(t, "debug"@);
    lemma_ignore_case_is_lowering(t, "info"@);
    lemma_ignore_case_is_lowering(t, "warn"@);
    lemma_ignore_case_is_lowering(t, "error"@);
    lemma_ignore_case_is_lowering(t, "off"@);
}

/// The settings that ship with the scanner.
pub open spec fn is_shipped_default(cfg: AppCfg) -> bool {
    &&& cfg.engine.engine_type@ == "external"@
    &&& cfg.engine.yara_path@ == "yara64.exe"@
    &&& cfg.scan.page_bytes == 65536
    &&& cfg.scan.timeout_ms == 500
    &&& cfg.scan.proc_budget_ms == 5000
    &&& cfg.scan.cache_ttl_ms == 60000
    &&& cfg.scan.max_workers == 4
    &&& cfg.scan.priorities == Priorities { execute: 10, write: 5, read: 1 }
    &&& cfg.mode@ == "audit"@
    &&& cfg.metrics.listen@ == "127.0.0.1:9207"@
    &&& cfg.logging.level@ == "info"@
}

impl Default for AppCfg {
    /// The shipped settings: the external `yara64.exe` engine, 64 KiB pages,
    /// audit mode and metrics on `127.0.0.1:9207`. They pass every check.
    fn default() -> (cfg: Self)
        ensures
            is_shipped_default(cfg),
            verdict(cfg) is Ok,
    {
        let cfg = AppCfg {
            engine: EngineCfg { engine_type: text_of("external"), yara_path: text_of("yara64.exe") },
            scan: ScanCfg {
                page_bytes: 65536,
                timeout_ms: 500,
                proc_budget_ms: 5000,
                cache_ttl_ms: 60000,
                max_workers: 4,
                priorities: Priorities { execute: 10, write: 5, read: 1 },
            },
            mode: text_of("audit"),
            metrics: MetricsCfg { listen: text_of("127.0.0.1:9207") },
            logging: LogCfg { level: text_of("info") },
        };
        proof {
            reveal_strlit("external");
            reveal_strlit("yara64.exe");
            reveal_strlit("audit");
            reveal_strlit("info");
            let e = cfg.engine.engine_type@;
            assert(trim_start(e) == e);
            assert(trim_end(e) == e);
            let y = cfg.engine.yara_path@;
            assert(trim_start(y) == y);
            assert(trim_end(y) == y);
            let m = cfg.mode@;
            assert(trim_start(m) == m);
            assert(trim_end(m) == m);
            let l = cfg.logging.level@;
            assert(trim_start(l) == l);
            assert(trim_end(l) == l);
            assert(eq_ignore_ascii_case(trim(l), "info"@));
            reveal_strlit("127.0.0.1:9207");
            let a = cfg.metrics.listen@;
            assert(a =~= seq!['1', '2', '7', '.', '0', '.', '0', '.', '1', ':', '9', '2', '0', '7']);
            assert(trim_start(a) == a);
            assert(trim_end(a) == a);
            crate::sockaddr::lemma_default_listen_is_socket_addr();
        }
        cfg
    }
}

impl AppCfg {
    /// Checks the configuration, rule by rule in a fixed order, and reports
    /// the first rule it breaks.
    pub fn validate(&self) -> (r: Result<(), CfgError>)
        ensures
            match r {
                Ok(()) => verdict(*self) is Ok,
                Err(e) => verdict(*self) == Err::<(), CfgFault>(e@),
            },
    {
        let engine_type = trim_text(self.engine.engine_type.as_str());
        if !eq_ignore_ascii_case_text(engine_type, "external") {
            return Err(CfgError::EngineType(text_of(self.engine.engine_type.as_str())));
        }
        if trim_text(self.engine.yara_path.as_str()).unicode_len() == 0 {
            return Err(CfgError::EmptyYaraPath);
        }
        if self.scan.page_bytes == 0 {
            return Err(CfgError::ZeroPageBytes);
        }
        if self.scan.timeout_ms == 0 {
            return Err(CfgError::ZeroTimeout);
        }
        if self.scan.proc_budget_ms == 0 {
            return Err(CfgError::ZeroProcBudget);
        }
        if self.scan.cache_ttl_ms == 0 {
            return Err(CfgError::ZeroCacheTtl);
        }
        if self.scan.max_workers == 0 {
            return Err(CfgError::ZeroMaxWorkers);
        }
        if let Err(e) = validate_priority("scan.priorities.exec", self.scan.priorities.execute) {
            return Err(e);
        }
        if let Err(e) = validate_priority("scan.priorities.write", self.scan.priorities.write) {
            return Err(e);
        }
        if let Err(e) = validate_priority("scan.priorities.read", self.scan.priorities.read) {
            return Err(e);
        }
        let mode = trim_text(self.mode.as_str());
        if !(same_text(mode, "audit") || same_text(mode, "enforce")) {
            return Err(CfgError::Mode(text_of(self.mode.as_str())));
        }
        if !is_socket_addr(trim_text(self.metrics.listen.as_str())) {
            return Err(CfgError::MetricsListen(text_of(self.metrics.listen.as_str())));
        }
        validate_log_level(self.logging.level.as_str())
    }
}

} // verus!
