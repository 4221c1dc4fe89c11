use testament::config::{default_debounce, default_parallel, Config, RunnerConfig, ThemeConfig, WatchConfig};

#[test]
fn test_runner_config_default() {
    let config = RunnerConfig::default();
    assert_eq!(config.parallel, 0);
    assert!(config.extra_args.is_empty());
}

#[test]
fn test_runner_config_debug() {
    let config = RunnerConfig::default();
    let debug_str = format!("{:?}", config);
    assert!(debug_str.contains("parallel"));
    assert!(debug_str.contains("extra_args"));
}

#[test]
fn test_watch_config_default() {
    let config = WatchConfig::default();
    assert_eq!(config.debounce_ms, 500);
    assert_eq!(config.patterns, vec!["*.cs", "*.csproj"]);
    assert_eq!(config.ignore, vec!["**/obj/**", "**/bin/**"]);
}

#[test]
fn test_watch_config_debug() {
    let config = WatchConfig::default();
    let debug_str = format!("{:?}", config);
    assert!(debug_str.contains("debounce_ms"));
    assert!(debug_str.contains("patterns"));
    assert!(debug_str.contains("ignore"));
}

#[test]
fn test_theme_config_default() {
    let config = ThemeConfig::default();
    assert!(config.name.is_none());
}

#[test]
fn test_theme_config_debug() {
    let config = ThemeConfig::default();
    let debug_str = format!("{:?}", config);
    assert!(debug_str.contains("name"));
}

#[test]
fn test_config_default() {
    let config = Config::default();
    assert_eq!(config.runner.parallel, 0);
    assert_eq!(config.watch.debounce_ms, 500);
    assert!(config.theme.name.is_none());
}

#[test]
fn test_config_debug() {
    let config = Config::default();
    let debug_str = format!("{:?}", config);
    assert!(debug_str.contains("runner"));
    assert!(debug_str.contains("watch"));
    assert!(debug_str.contains("theme"));
}

#[test]
fn test_default_parallel_value() {
    assert_eq!(default_parallel(), 0);
}

#[test]
fn test_default_debounce_value() {
    assert_eq!(default_debounce(), 500);
}
