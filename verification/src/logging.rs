//! The log level of the process.
use vstd::prelude::*;
use crate::config::LogLevel;

verus! {

/// Sets the most verbose level that `log` lets through, through
/// `log::set_max_level`, to the filter of the same name as `level`. The
/// level lives in the process, so nothing is stated of it.
#[verifier::external_body]
fn set_max_level(level: LogLevel) {
    log::set_max_level(match level {
        LogLevel::Trace => log::LevelFilter::Trace,
        LogLevel::Debug => log::LevelFilter::Debug,
        LogLevel::Info => log::LevelFilter::Info,
        LogLevel::Warn => log::LevelFilter::Warn,
        LogLevel::Error => log::LevelFilter::Error,
    })
}

/// Sets the most verbose level that is logged.
pub fn set_log_level(level: LogLevel) {
    set_max_level(level)
}

} // verus!
