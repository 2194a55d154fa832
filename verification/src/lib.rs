//! Page scanning support for the YARA-on-map memory scanner: the page digest
//! cache, configuration checks, metrics rendering, parsing of scanner output and
//! of replay input, all with verified contracts.

pub mod text;
pub mod types;
pub mod metrics;
pub mod cli;
pub mod config;
pub mod engine;
pub mod pager;
pub mod sockaddr;
pub mod replay;
pub mod watcher;
pub mod paths;
