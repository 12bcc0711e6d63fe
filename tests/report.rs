use cubase_project_plugins::config::{Config, Plugins, Projects};
use cubase_project_plugins::order::sort_by_name;
use cubase_project_plugins::project::Plugin;
use cubase_project_plugins::report::{
    filter_plugins, is_64_bit, is_ignored_path, is_reported, passes_filters, PluginCounts,
};

fn plugin(guid: &str, name: &str) -> Plugin {
    Plugin { guid: guid.to_string(), name: name.to_string() }
}

#[test]
fn default_config_reports_everything() {
    let config = Config::new();
    assert!(config.path_ignore_patterns.is_empty());
    assert!(config.projects.report_32_bit);
    assert!(config.projects.report_64_bit);
    assert!(config.plugins.guid_ignores.is_empty());
    assert!(config.plugins.name_ignores.is_empty());
    let config = Config::default();
    assert!(config.projects.report_32_bit && config.projects.report_64_bit);
}

#[test]
fn architectures_of_64_bit_builds() {
    assert!(is_64_bit(&"WIN64".to_string()));
    assert!(is_64_bit(&"MAC64 LE".to_string()));
    assert!(!is_64_bit(&"WIN32".to_string()));
    assert!(!is_64_bit(&"Unspecified".to_string()));
    assert!(!is_64_bit(&"win64".to_string()));
}

#[test]
fn reported_kinds_follow_config() {
    let projects = Projects { report_32_bit: false, report_64_bit: true };
    assert!(is_reported(&projects, true));
    assert!(!is_reported(&projects, false));
}

#[test]
fn ignored_plugins_are_left_out() {
    let plugins = vec![
        plugin("AAAA", "Elephant"),
        plugin("BBBB", "Standard Panner"),
        plugin("CCCC", "Hive"),
        plugin("DDDD", "Sylenth1"),
    ];
    let ignores = Plugins {
        guid_ignores: vec!["BBBB".to_string()],
        name_ignores: vec!["Hive".to_string(), "Nothing".to_string()],
    };
    assert_eq!(
        filter_plugins(&plugins, &ignores),
        vec![plugin("AAAA", "Elephant"), plugin("DDDD", "Sylenth1")]
    );
}

#[test]
fn name_filters_ignore_case() {
    let plugins = vec![plugin("AAAA", "Omnisphere"), plugin("BBBB", "Hive")];
    assert!(passes_filters(&plugins, &Vec::new()));
    assert!(passes_filters(&plugins, &vec!["omni*".to_string()]));
    assert!(passes_filters(&plugins, &vec!["x".to_string(), "H?VE".to_string()]));
    assert!(!passes_filters(&plugins, &vec!["Serum".to_string()]));
    assert!(!passes_filters(&Vec::new(), &vec!["*".to_string()]));
}

#[test]
fn ignored_paths_match_globs() {
    let patterns = vec!["**/Backup/**".to_string(), "*.bak".to_string()];
    assert!(is_ignored_path(&patterns, "/music/Backup/song.cpr"));
    assert!(is_ignored_path(&patterns, "song.bak"));
    assert!(!is_ignored_path(&patterns, "/music/Songs/song.cpr"));
    assert!(!is_ignored_path(&Vec::new(), "song.bak"));
}

#[test]
fn counts_add_up() {
    let mut counts = PluginCounts::new();
    assert!(counts.is_empty());
    counts.record(&plugin("AAAA", "EQ"));
    counts.record(&plugin("BBBB", "Hive"));
    counts.record(&plugin("AAAA", "EQ"));
    assert!(!counts.is_empty());
    assert_eq!(
        counts.entries(),
        &vec![(plugin("AAAA", "EQ"), 2), (plugin("BBBB", "Hive"), 1)]
    );
}

#[test]
fn plugins_sorted_by_name_ignoring_case() {
    let plugins = vec![
        plugin("AAAA", "studioEQ"),
        plugin("BBBB", "Elephant"),
        plugin("CCCC", "hive"),
        plugin("DDDD", "ArtsAcousticReverb"),
        plugin("EEEE", "EQ"),
    ];
    assert_eq!(
        sort_by_name(&plugins),
        vec![
            plugin("DDDD", "ArtsAcousticReverb"),
            plugin("BBBB", "Elephant"),
            plugin("EEEE", "EQ"),
            plugin("CCCC", "hive"),
            plugin("AAAA", "studioEQ"),
        ]
    );
    assert!(sort_by_name(&Vec::new()).is_empty());
}

#[test]
fn counts_sorted_by_name() {
    let mut counts = PluginCounts::new();
    counts.record(&plugin("AAAA", "Sylenth1"));
    counts.record(&plugin("BBBB", "elephant"));
    counts.record(&plugin("AAAA", "Sylenth1"));
    counts.record(&plugin("CCCC", "Omnisphere"));
    assert_eq!(
        counts.entries_by_name(),
        vec![
            (plugin("BBBB", "elephant"), 1),
            (plugin("CCCC", "Omnisphere"), 1),
            (plugin("AAAA", "Sylenth1"), 2),
        ]
    );
}
