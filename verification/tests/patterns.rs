use analyse_wpt_results::loader::glob_pattern;

#[test]
fn the_pattern_joins_directory_and_file_pattern() {
    assert_eq!(glob_pattern("logs", "*.json"), "logs/*.json");
    assert_eq!(glob_pattern("/var/wpt/run 1", "wpt-*.json"), "/var/wpt/run 1/wpt-*.json");
}

#[test]
fn the_pattern_keeps_empty_parts_and_given_slashes() {
    assert_eq!(glob_pattern("", "*.json"), "/*.json");
    assert_eq!(glob_pattern("logs", ""), "logs/");
    assert_eq!(glob_pattern("logs/", "*.json"), "logs//*.json");
}
