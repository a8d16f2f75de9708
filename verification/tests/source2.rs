use std::io::Write;

use cs2_addons::host_api::DirEntry;
use cs2_addons::source2::archive::{detect_install_root, extract_zip, is_css_dir_entry, needs_exec, sanitize_zip_path, InstallRoot};
use cs2_addons::source2::catalog::{catalog, find};
use cs2_addons::source2::gamedir::known_game_dir;
use cs2_addons::source2::gameinfo::{is_metamod_wired, wire_metamod};
use cs2_addons::source2::manifest::Manifest;
use cs2_addons::source2::paths::{file_name, join, sanitize_file_name, sanitize_rel_path};
use cs2_addons::source2::vdf::{classify, plugins_from_entries, VdfPlugin};

fn entry(name: &str, is_dir: bool) -> DirEntry {
    DirEntry { name: name.into(), is_dir }
}

#[test]
fn classifies_vdf_states() {
    assert_eq!(
        classify(&entry("counterstrikesharp.vdf", false)),
        Some(VdfPlugin { name: "counterstrikesharp".into(), enabled: true })
    );
    assert_eq!(
        classify(&entry("cs2fixes.vdf.disabled", false)),
        Some(VdfPlugin { name: "cs2fixes".into(), enabled: false })
    );
    assert_eq!(classify(&entry("metaplugins.ini", false)), None);
    assert_eq!(classify(&entry("bin", true)), None);
    assert_eq!(classify(&entry(".vdf", false)), None);
}

#[test]
fn vdf_listing_is_sorted_live_first() {
    let listed = plugins_from_entries(&vec![
        entry("zeta.vdf", false),
        entry("Alpha.vdf.disabled", false),
        entry("alpha.vdf", false),
        entry("readme.txt", false),
    ]);
    let names: Vec<(&str, bool)> = listed.iter().map(|p| (p.name.as_str(), p.enabled)).collect();
    assert_eq!(names, vec![("alpha", true), ("Alpha", false), ("zeta", true)]);
}

#[test]
fn keys_are_unique_and_findable() {
    let all = catalog();
    for entry in &all {
        assert_eq!(find(entry.key).map(|e| e.repo), Some(entry.repo));
    }
    let mut keys: Vec<&str> = all.iter().map(|e| e.key).collect();
    keys.sort_unstable();
    keys.dedup();
    assert_eq!(keys.len(), all.len());
    assert!(find("nope").is_none());
}

#[test]
fn known_dirs() {
    assert_eq!(known_game_dir("cs2"), Some("game/csgo"));
    assert_eq!(known_game_dir("valve"), None);
}

#[test]
fn detects_wired_metamod() {
    let gi = br#"
"GameInfo"
{
    FileSystem
    {
        SearchPaths
        {
            Game_LowViolence	csgo_lv
            Game	csgo/addons/metamod
            Game	csgo
        }
    }
}
"#;
    assert!(is_metamod_wired(gi));
}

#[test]
fn ignores_comments_and_absence() {
    assert!(!is_metamod_wired(b"Game csgo\n"));
    assert!(!is_metamod_wired(b"// Game csgo/addons/metamod\n"));
    assert!(is_metamod_wired(b"Game CSGO/Addons/Metamod // required\n"));
}

#[test]
fn wires_before_first_game_entry() {
    let gi = b"\"GameInfo\"\n{\n\tFileSystem\n\t{\n\t\tSearchPaths\n\t\t{\n\t\t\tGame_LowViolence\tcsgo_lv\n\t\t\tGame\tcsgo\n\t\t\tGame\tcore\n\t\t}\n\t}\n}\n";
    let patched = wire_metamod(gi).expect("patches");
    let text = String::from_utf8(patched).expect("utf8");
    assert!(is_metamod_wired(text.as_bytes()));
    let mm_pos = text.find("csgo/addons/metamod").expect("inserted");
    let game_pos = text.find("Game\tcsgo\n").expect("original kept");
    assert!(mm_pos < game_pos, "metamod line must precede Game csgo");
    assert!(text.contains("\t\t\tGame\tcsgo/addons/metamod\n"));
    assert!(text.find("Game_LowViolence").expect("lv kept") < mm_pos);
}

#[test]
fn wire_preserves_crlf() {
    let gi = b"SearchPaths\r\n{\r\n\tGame\tcsgo\r\n}\r\n";
    let patched = wire_metamod(gi).expect("patches");
    let text = String::from_utf8(patched).expect("utf8");
    assert!(text.contains("\tGame\tcsgo/addons/metamod\r\n\tGame\tcsgo\r\n"));
}

#[test]
fn wire_noop_when_wired_or_unpatchable() {
    assert!(wire_metamod(b"SearchPaths\n{\n\tGame\tcsgo/addons/metamod\n}\n").is_none());
    assert!(wire_metamod(b"\"GameInfo\"\n{\n}\n").is_none());
    assert!(wire_metamod(b"SearchPaths\n{\n}\n").is_none());
}

#[test]
fn wiring_twice_changes_nothing_the_second_time() {
    // A Game entry on the SearchPaths line itself does not anchor.
    assert!(wire_metamod(b"SearchPaths { Game csgo }\n").is_none());
    let gi = b"SearchPaths {\n  Game csgo\n}\n";
    let patched = wire_metamod(gi).expect("patches");
    assert_eq!(String::from_utf8(patched.clone()).expect("utf8"), "SearchPaths {\n  Game\tcsgo/addons/metamod\n  Game csgo\n}\n");
    assert!(is_metamod_wired(&patched));
    assert!(wire_metamod(&patched).is_none());
}

#[test]
fn parses_addonsmanager_shape() {
    let json = br#"{
        "MatchZy": { "Comment": "tournament cfg", "Group": "match" },
        "WeaponPaints": { "Comment": "", "Group": "" }
    }"#;
    let manifest = Manifest::parse(json);
    assert_eq!(manifest.comment("MatchZy").as_deref(), Some("tournament cfg"));
    assert_eq!(manifest.group("MatchZy").as_deref(), Some("match"));
    assert_eq!(manifest.comment("WeaponPaints"), None);
    assert!(manifest.contains("matchzy"));
    assert!(!manifest.contains("Unknown"));
}

#[test]
fn malformed_input_is_empty() {
    assert_eq!(Manifest::parse(b"not json").names().len(), 0);
    assert_eq!(Manifest::parse(b"[1,2]").names().len(), 0);
    assert_eq!(Manifest::parse(b"").names().len(), 0);
}

#[test]
fn set_and_remove_roundtrip() {
    let mut manifest = Manifest::parse(b"{}");
    manifest.set_comment("MatchZy", Some("hi"));
    manifest.set_group("MatchZy", Some("match"));
    let reparsed = Manifest::parse(&manifest.to_bytes());
    assert_eq!(reparsed.comment("MatchZy").as_deref(), Some("hi"));
    assert_eq!(reparsed.group("MatchZy").as_deref(), Some("match"));

    let mut manifest = reparsed;
    assert!(manifest.remove("matchzy"));
    assert!(!manifest.remove("MatchZy"));
}

#[test]
fn preserves_unknown_fields() {
    let json = br#"{"MatchZy": {"Comment": "x", "Group": "", "Pinned": true}}"#;
    let mut manifest = Manifest::parse(json);
    manifest.set_comment("MatchZy", Some("y"));
    let out = String::from_utf8(manifest.to_bytes()).expect("utf8");
    assert!(out.contains("\"Pinned\": true"));
}

#[test]
fn set_comment_trims_and_clears() {
    let mut manifest = Manifest::parse(b"{}");
    manifest.set_comment("A", Some("  spaced  "));
    assert_eq!(manifest.comment("A").as_deref(), Some("spaced"));
    manifest.set_comment("a", None);
    assert_eq!(manifest.comment("A"), None);
    assert!(manifest.contains("A"));
    assert!(manifest.to_bytes().ends_with(b"\n"));
}

fn build_zip(files: &[(&str, &[u8])]) -> Vec<u8> {
    let mut cursor = std::io::Cursor::new(Vec::new());
    {
        let mut writer = zip::ZipWriter::new(&mut cursor);
        for (name, data) in files {
            writer.start_file(*name, zip::write::SimpleFileOptions::default()).expect("start file");
            writer.write_all(data).expect("write");
        }
        writer.finish().expect("finish");
    }
    cursor.into_inner()
}

#[test]
fn extracts_and_sanitizes() {
    let bytes = build_zip(&[("MatchZy/MatchZy.dll", b"dll"), ("MatchZy/lang/en.json", b"{}")]);
    let entries = extract_zip(&bytes).expect("extracts");
    assert_eq!(entries.len(), 2);
    assert_eq!(entries[0].path, "MatchZy/MatchZy.dll");
    assert_eq!(entries[0].mode, 0o644);
}

#[test]
fn rejects_traversal() {
    let bytes = build_zip(&[("../evil.dll", b"x")]);
    assert!(extract_zip(&bytes).is_err());
}

#[test]
fn detects_roots() {
    let game = extract_zip(&build_zip(&[("addons/counterstrikesharp/plugins/MatchZy/MatchZy.dll", b"x")])).expect("zip");
    assert_eq!(detect_install_root(&game).expect("root"), InstallRoot::GameDir);

    let plugins = extract_zip(&build_zip(&[("Retakes/Retakes.dll", b"x")])).expect("zip");
    assert_eq!(detect_install_root(&plugins).expect("root"), InstallRoot::PluginsDir);

    let loose = extract_zip(&build_zip(&[("K4-System.dll", b"x")])).expect("zip");
    assert_eq!(detect_install_root(&loose).expect("root"), InstallRoot::WrapIntoFolder("K4-System".into()));

    let junk = extract_zip(&build_zip(&[("readme.txt", b"x")])).expect("zip");
    assert!(detect_install_root(&junk).is_err());
}

#[test]
fn detects_css_dir_root() {
    let shared = extract_zip(&build_zip(&[
        ("plugins/PlayerSettings/PlayerSettings.dll", b"x"),
        ("shared/PlayerSettingsApi/PlayerSettingsApi.dll", b"x"),
    ]))
    .expect("zip");
    assert_eq!(detect_install_root(&shared).expect("root"), InstallRoot::CssDir);

    let only_plugins = extract_zip(&build_zip(&[("plugins/Retakes/Retakes.dll", b"x")])).expect("zip");
    assert_eq!(detect_install_root(&only_plugins).expect("root"), InstallRoot::CssDir);
}

#[test]
fn so_files_get_exec_bit() {
    let bytes = build_zip(&[("addons/metamod/bin/linuxsteamrt64/metamod.2.cs2.so", b"x")]);
    let entries = extract_zip(&bytes).expect("extracts");
    assert_eq!(entries[0].mode, 0o755);
}

#[test]
fn zip_paths_are_normalized_or_refused() {
    assert_eq!(sanitize_zip_path("\\a\\.\\b//c").as_deref(), Some("a/b/c"));
    assert_eq!(sanitize_zip_path("/x/y"), Some("x/y".to_string()));
    assert_eq!(sanitize_zip_path("a/../b"), None);
    assert_eq!(sanitize_zip_path("c:/x"), None);
    assert_eq!(sanitize_zip_path("./"), None);
    assert_eq!(sanitize_zip_path(""), None);
}

#[test]
fn exec_bits_and_css_dir_entries() {
    assert!(needs_exec("bin/lib.SO"));
    assert!(needs_exec("dotnet/dotnet"));
    assert!(!needs_exec("dotnet"));
    assert!(is_css_dir_entry("Shared/X/X.dll"));
    assert!(!is_css_dir_entry("MenuManagerCore/MenuManagerCore.dll"));
}

#[test]
fn not_a_zip_is_refused() {
    let err = extract_zip(b"plain text").expect_err("refused");
    assert!(err.starts_with("not a zip archive"));
}

#[test]
fn path_helpers() {
    assert_eq!(join("/srv/", "/game"), "/srv/game");
    assert_eq!(join("", "x"), "x");
    assert_eq!(file_name("/a/b/c"), "c");
    assert!(sanitize_file_name("ok-name").is_ok());
    assert!(sanitize_file_name("..").is_err());
    assert!(sanitize_rel_path("a/b.zip").is_ok());
    assert!(sanitize_rel_path("a/../b.zip").is_err());
}

#[test]
fn every_declared_permission_is_one_the_panel_knows() {
    let panel = [
        "manage_servers", "manage_nodes", "manage_games", "manage_game_mods", "manage_users", "manage_rbac",
        "files", "files_read", "listen_events", "secrets", "node_commands", "ssh",
    ];
    for permission in cs2_addons::required_permissions() {
        assert!(panel.contains(&permission), "{permission} is not a permission GameAP understands");
    }
}

#[test]
fn declares_nothing_twice_and_nothing_another_grant_covers() {
    let declared = cs2_addons::required_permissions();
    let mut seen = declared.clone();
    seen.sort_unstable();
    seen.dedup();
    assert_eq!(seen.len(), declared.len(), "the same permission is declared more than once");
    assert!(!(declared.contains(&"files") && declared.contains(&"files_read")));
}
