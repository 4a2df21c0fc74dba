//! Search parameters and their presets by strength level.

use vstd::prelude::*;

verus! {

/// Search parameters for one strength level.
#[derive(Clone, Copy, Debug)]
pub struct AIConfig {
    pub level: u8,
    pub max_depth: u8,
    pub use_tt: bool,
    pub tt_size_mb: usize,
    pub use_pst: bool,
    pub use_killers: bool,
    pub qsearch_depth: u8,
    /// Advisory thinking time in milliseconds; the search does not consult it.
    pub timeout_ms: u32,
}

/// The preset for a strength level; levels outside 1..=6 take the preset of level 3.
pub open spec fn preset(level: u8) -> AIConfig {
    if level == 1 {
        AIConfig { level: 1, max_depth: 3, use_tt: false, tt_size_mb: 0, use_pst: false, use_killers: false, qsearch_depth: 2, timeout_ms: 5000 }
    } else if level == 2 {
        AIConfig { level: 2, max_depth: 3, use_tt: false, tt_size_mb: 0, use_pst: true, use_killers: false, qsearch_depth: 3, timeout_ms: 5000 }
    } else if level == 4 {
        AIConfig { level: 4, max_depth: 4, use_tt: true, tt_size_mb: 2, use_pst: true, use_killers: true, qsearch_depth: 4, timeout_ms: 15000 }
    } else if level == 5 {
        AIConfig { level: 5, max_depth: 5, use_tt: true, tt_size_mb: 4, use_pst: true, use_killers: true, qsearch_depth: 5, timeout_ms: 20000 }
    } else if level == 6 {
        AIConfig { level: 6, max_depth: 6, use_tt: true, tt_size_mb: 8, use_pst: true, use_killers: true, qsearch_depth: 6, timeout_ms: 25000 }
    } else {
        AIConfig { level: 3, max_depth: 4, use_tt: true, tt_size_mb: 1, use_pst: true, use_killers: false, qsearch_depth: 4, timeout_ms: 10000 }
    }
}

impl AIConfig {
    /// Builds the configuration of a strength level (1 to 6).
    pub fn from_level(level: u8) -> (c: AIConfig)
        ensures
            c == preset(level),
        decreases (if 1 <= level <= 6 { 0int } else { 1int }),
    {
        match level {
            1 => AIConfig { level: 1, max_depth: 3, use_tt: false, tt_size_mb: 0, use_pst: false, use_killers: false, qsearch_depth: 2, timeout_ms: 5000 },
            2 => AIConfig { level: 2, max_depth: 3, use_tt: false, tt_size_mb: 0, use_pst: true, use_killers: false, qsearch_depth: 3, timeout_ms: 5000 },
            3 => AIConfig { level: 3, max_depth: 4, use_tt: true, tt_size_mb: 1, use_pst: true, use_killers: false, qsearch_depth: 4, timeout_ms: 10000 },
            4 => AIConfig { level: 4, max_depth: 4, use_tt: true, tt_size_mb: 2, use_pst: true, use_killers: true, qsearch_depth: 4, timeout_ms: 15000 },
            5 => AIConfig { level: 5, max_depth: 5, use_tt: true, tt_size_mb: 4, use_pst: true, use_killers: true, qsearch_depth: 5, timeout_ms: 20000 },
            6 => AIConfig { level: 6, max_depth: 6, use_tt: true, tt_size_mb: 8, use_pst: true, use_killers: true, qsearch_depth: 6, timeout_ms: 25000 },
            _ => AIConfig::from_level(3),
        }
    }

    /// The configuration of level 3.
    pub fn default() -> (c: AIConfig)
        ensures
            c == preset(3),
    {
        AIConfig::from_level(3)
    }
}

} // verus!
