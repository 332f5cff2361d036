//! Bug and vulnerability detection: specification mining, crypto misuse and
//! path-handling scanners, dependency manifests.
pub mod cegar;
pub mod spec_miner;
pub mod lockfile;
pub mod sca;
pub mod cvss;
pub mod report;
pub mod path_normalize;
pub mod crypto_failure;
pub mod security_pattern;
pub mod matcher;
pub mod rules;
pub mod ssrf;
pub mod sql_injection;
pub mod finding;
