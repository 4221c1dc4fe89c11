//! Settings of the runner, the change watcher and the theme, with their defaults.

use vstd::prelude::*;
use crate::text::{chars_of, string_of};

verus! {

/// How tests are run.
#[derive(Debug)]
pub struct RunnerConfig {
    /// Parallel workers; 0 leaves the choice to the test tool.
    pub parallel: u32,
    /// Extra arguments for the test tool.
    pub extra_args: Vec<String>,
}

/// Parallel workers when none are configured: the test tool's own choice.
pub fn default_parallel() -> (r: u32)
    ensures
        r == 0,
{
    0
}

/// Debounce of the change watcher when none is configured, in milliseconds.
pub fn default_debounce() -> (r: u64)
    ensures
        r == 500,
{
    500
}

impl Default for RunnerConfig {
    fn default() -> (r: Self)
        ensures
            r.parallel == 0,
            r.extra_args@.len() == 0,
    {
        RunnerConfig { parallel: default_parallel(), extra_args: Vec::new() }
    }
}

/// Which file changes trigger a run.
#[derive(Debug)]
pub struct WatchConfig {
    pub debounce_ms: u64,
    pub patterns: Vec<String>,
    pub ignore: Vec<String>,
}

fn text(s: &str) -> (r: String)
    ensures
        r@ == s@,
{
    string_of(chars_of(s).as_slice())
}

impl Default for WatchConfig {
    fn default() -> (r: Self)
        ensures
            r.debounce_ms == 500,
            r.patterns@.len() == 2,
            r.patterns@[0]@ == "*.cs"@,
            r.patterns@[1]@ == "*.csproj"@,
            r.ignore@.len() == 2,
            r.ignore@[0]@ == "**/obj/**"@,
            r.ignore@[1]@ == "**/bin/**"@,
    {
        let mut patterns: Vec<String> = Vec::new();
        patterns.push(text("*.cs"));
        patterns.push(text("*.csproj"));
        let mut ignore: Vec<String> = Vec::new();
        ignore.push(text("**/obj/**"));
        ignore.push(text("**/bin/**"));
        WatchConfig { debounce_ms: default_debounce(), patterns, ignore }
    }
}

/// The colour theme by name; none selects the built-in one.
#[derive(Debug)]
pub struct ThemeConfig {
    pub name: Option<String>,
}

impl Default for ThemeConfig {
    fn default() -> (r: Self)
        ensures
            r.name is None,
    {
        ThemeConfig { name: None }
    }
}

/// All settings.
#[derive(Debug)]
pub struct Config {
    pub runner: RunnerConfig,
    pub watch: WatchConfig,
    pub theme: ThemeConfig,
}

impl Default for Config {
    fn default() -> (r: Self)
        ensures
            r.runner.parallel == 0,
            r.runner.extra_args@.len() == 0,
            r.watch.debounce_ms == 500,
            r.watch.patterns@.len() == 2,
            r.watch.ignore@.len() == 2,
            r.theme.name is None,
    {
        Config { runner: RunnerConfig::default(), watch: WatchConfig::default(), theme: ThemeConfig::default() }
    }
}

} // verus!
