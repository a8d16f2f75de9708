use cs2_addons::handlers::logs::{assembly_name_from_line, find_load_failures, lines, plugin_name_from_line};

fn lines_of(raw: &[&str]) -> Vec<String> {
    raw.iter().map(|s| (*s).to_string()).collect()
}

#[test]
fn finds_failure_and_missing_assembly() {
    let log = lines_of(&[
        "2026-08-18 23:34:11.000 -04:00 [INFO] (cssharp:PluginManager) Loading plugins",
        "2026-08-18 23:34:12.888 -04:00 [EROR] (cssharp:PluginManager) Failed to load plugin from /srv/gameap/servers/x/game/csgo/addons/counterstrikesharp/plugins/PlayerSettings/PlayerSettings.dll",
        "System.Reflection.ReflectionTypeLoadException: Unable to load one or more of the requested types.",
        "Could not load file or assembly 'PlayerSettingsApi, Version=1.0.0.0, Culture=neutral, PublicKeyToken=null'.",
        "   at System.Reflection.RuntimeModule.GetDefinedTypes()",
    ]);
    let found = find_load_failures(&log);
    assert_eq!(found.len(), 1);
    assert_eq!(found[0].plugin, "PlayerSettings");
    assert_eq!(found[0].missing.as_deref(), Some("PlayerSettingsApi"));
}

#[test]
fn failure_without_a_named_assembly() {
    let log = lines_of(&[
        "[EROR] (cssharp:PluginManager) Failed to load plugin from /plugins/Broken/Broken.dll",
        "System.Exception: something else went wrong",
    ]);
    let found = find_load_failures(&log);
    assert_eq!(found.len(), 1);
    assert_eq!(found[0].plugin, "Broken");
    assert_eq!(found[0].missing, None);
}

#[test]
fn one_entry_per_plugin_and_none_when_clean() {
    let log = lines_of(&[
        "[EROR] Failed to load plugin from /plugins/Same/Same.dll",
        "Could not load file or assembly 'FirstDep, Version=1.0.0.0'.",
        "[EROR] Failed to load plugin from /plugins/Same/Same.dll",
        "Could not load file or assembly 'SecondDep, Version=1.0.0.0'.",
    ]);
    let found = find_load_failures(&log);
    assert_eq!(found.len(), 1);
    assert_eq!(found[0].missing.as_deref(), Some("SecondDep"));

    assert!(find_load_failures(&lines_of(&["[INFO] All plugins loaded"])).is_empty());
}

#[test]
fn ignores_a_marker_without_a_dll_path() {
    let log = lines_of(&["[EROR] Failed to load plugin"]);
    assert!(find_load_failures(&log).is_empty());
}

#[test]
fn plugin_names_come_from_windows_paths_too() {
    assert_eq!(
        plugin_name_from_line("Failed to load plugin from C:\\srv\\plugins\\Win\\Win.DLL").as_deref(),
        Some("Win")
    );
    assert_eq!(plugin_name_from_line("Failed to load plugin from /x/.dll"), None);
    assert_eq!(plugin_name_from_line(""), None);
}

#[test]
fn assembly_names_stop_at_a_quote_or_comma() {
    assert_eq!(
        assembly_name_from_line("Could not load file or assembly 'Dep'.").as_deref(),
        Some("Dep")
    );
    assert_eq!(assembly_name_from_line("Could not load file or assembly ', x"), None);
    assert_eq!(assembly_name_from_line("no marker here"), None);
}

#[test]
fn lines_split_like_str_lines() {
    let text: Vec<char> = "a\r\nb\n\nc\r".chars().collect();
    assert_eq!(lines(&text), vec!["a".to_string(), "b".to_string(), String::new(), "c\r".to_string()]);
    let trailing: Vec<char> = "x\n".chars().collect();
    assert_eq!(lines(&trailing), vec!["x".to_string()]);
    assert!(lines(&[]).is_empty());
}
