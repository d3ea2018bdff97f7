//! How much pickey reports on stderr.
use vstd::prelude::*;

use crate::text::str_eq;

verus! {

/// The level of reporting, from `PICKEY_LOG`.
#[derive(Debug, Clone, Copy, PartialEq, Eq, Structural)]
pub enum LogLevel {
    /// Nothing is reported.
    Off,
    /// One-line summaries, warnings and errors.
    Normal,
    /// Everything, debug messages included.
    Debug,
}

/// The level a `PICKEY_LOG` value selects: `off`/`OFF` silence, `debug`/`DEBUG` add debug
/// messages, anything else (or no value) is the normal level.
pub open spec fn level_for(value: Option<Seq<char>>) -> LogLevel {
    match value {
        Some(v) => if v == "off"@ || v == "OFF"@ {
            LogLevel::Off
        } else if v == "debug"@ || v == "DEBUG"@ {
            LogLevel::Debug
        } else {
            LogLevel::Normal
        },
        None => LogLevel::Normal,
    }
}

/// The level for a `PICKEY_LOG` value (`None` when it is unset or not Unicode).
pub fn level_from(value: Option<&str>) -> (r: LogLevel)
    ensures
        r == level_for(match value {
            Some(v) => Some(v@),
            None => None,
        }),
{
    match value {
        Some(v) => {
            if str_eq(v, "off") || str_eq(v, "OFF") {
                LogLevel::Off
            } else if str_eq(v, "debug") || str_eq(v, "DEBUG") {
                LogLevel::Debug
            } else {
                LogLevel::Normal
            }
        },
        None => LogLevel::Normal,
    }
}

/// Whether a message is shown at `level`: summaries, warnings and errors unless the level
/// is `Off`; debug messages only at `Debug`.
pub fn shows(level: LogLevel, debug_message: bool) -> (r: bool)
    ensures
        r == if debug_message {
            level == LogLevel::Debug
        } else {
            level != LogLevel::Off
        },
{
    if debug_message {
        level == LogLevel::Debug
    } else {
        level != LogLevel::Off
    }
}

} // verus!
