//! Runtime settings as a flat object of enumerated options; loading them
//! from disk is the surrounding program's concern.

use vstd::prelude::*;
use vstd::string::StringExecFns;

verus! {

/// Database storage settings.
pub struct StoreConfig {
    /// Database path; the platform data directory when absent.
    pub path: Option<String>,
}

/// Memory decay and pruning settings.
pub struct MemoryConfig {
    pub default_importance: String,
    /// Parts-per-million; the default is 0.95.
    pub decay_rate: u64,
    /// Parts-per-million; the default is 0.1.
    pub prune_threshold: u64,
}

/// Automatic fact-extraction settings.
pub struct ExtractionConfig {
    pub enabled: bool,
    /// Minimum keyword score to keep a fact, in tenths.
    pub min_score: u32,
    /// Maximum facts per extraction pass.
    pub max_facts: usize,
}

/// Context recall settings.
pub struct RecallConfig {
    pub enabled: bool,
    /// Maximum memories to inject.
    pub limit: usize,
}

/// Tool-server settings.
pub struct McpConfig {
    pub transport: String,
    /// Extra instructions appended to the server info.
    pub instructions: Option<String>,
}

/// Top-level configuration.
pub struct Config {
    pub store: StoreConfig,
    pub memory: MemoryConfig,
    pub extraction: ExtractionConfig,
    pub recall: RecallConfig,
    pub mcp: McpConfig,
}

impl Default for StoreConfig {
    fn default() -> (r: StoreConfig)
        ensures
            r.path is None,
    {
        StoreConfig { path: None }
    }
}

impl Default for MemoryConfig {
    fn default() -> (r: MemoryConfig)
        ensures
            r.default_importance@ == "medium"@,
            r.decay_rate == 950_000,
            r.prune_threshold == 100_000,
    {
        MemoryConfig {
            default_importance: "medium".to_owned(),
            decay_rate: 950_000,
            prune_threshold: 100_000,
        }
    }
}

impl Default for ExtractionConfig {
    fn default() -> (r: ExtractionConfig)
        ensures
            r.enabled,
            r.min_score == crate::extract::MIN_SCORE_TENTHS,
            r.max_facts == 10,
    {
        ExtractionConfig { enabled: true, min_score: crate::extract::MIN_SCORE_TENTHS, max_facts: 10 }
    }
}

impl Default for RecallConfig {
    fn default() -> (r: RecallConfig)
        ensures
            r.enabled,
            r.limit == 15,
    {
        RecallConfig { enabled: true, limit: 15 }
    }
}

impl Default for McpConfig {
    fn default() -> (r: McpConfig)
        ensures
            r.transport@ == "stdio"@,
            r.instructions is None,
    {
        McpConfig { transport: "stdio".to_owned(), instructions: None }
    }
}

impl Default for Config {
    fn default() -> (r: Config)
        ensures
            r.store.path is None,
            r.memory.default_importance@ == "medium"@,
            r.memory.decay_rate == 950_000,
            r.memory.prune_threshold == 100_000,
            r.extraction.enabled,
            r.extraction.min_score == crate::extract::MIN_SCORE_TENTHS,
            r.extraction.max_facts == 10,
            r.recall.enabled,
            r.recall.limit == 15,
            r.mcp.transport@ == "stdio"@,
            r.mcp.instructions is None,
    {
        Config {
            store: StoreConfig::default(),
            memory: MemoryConfig::default(),
            extraction: ExtractionConfig::default(),
            recall: RecallConfig::default(),
            mcp: McpConfig::default(),
        }
    }
}

} // verus!
