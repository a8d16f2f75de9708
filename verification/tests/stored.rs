use cs2_addons::handlers::audit::{entries_json, parse_entries, prepend_capped};
use cs2_addons::handlers::snapshots::{is_exec_safe, prune_candidates, validate_name};
use cs2_addons::handlers::updates::{cache_from_json, cache_json, release_from_json, UpdatesCache};
use cs2_addons::json::{json_bytes, parse_json};
use cs2_addons::model::{AuditEntry, PlatformRelease, PluginRelease, SnapshotInfo};

fn entry(ts: u64, user: &str) -> AuditEntry {
    AuditEntry { ts, user: user.into(), action: "plugin-toggle".into(), subject: "MatchZy".into() }
}

#[test]
fn the_audit_log_reads_back_what_was_written() {
    let log = prepend_capped(vec![entry(1, "alice")], entry(2, "bob"));
    let bytes = json_bytes(&entries_json(&log));
    let back = parse_entries(&bytes);
    assert_eq!(back.len(), 2);
    assert_eq!((back[0].ts, back[0].user.as_str()), (2, "bob"));
    assert_eq!((back[1].ts, back[1].user.as_str()), (1, "alice"));
    assert_eq!(back[1].subject, "MatchZy");
}

#[test]
fn an_unreadable_audit_log_reads_as_empty() {
    assert!(parse_entries(b"not json").is_empty());
    assert!(parse_entries(br#"[{"ts": 1, "user": "a", "action": "x"}]"#).is_empty());
    assert!(parse_entries(br#"[{"ts": -1, "user": "a", "action": "x", "subject": "y"}]"#).is_empty());
    let one = parse_entries(br#"[{"ts": 5, "user": "a", "action": "x", "subject": "y", "extra": true}]"#);
    assert_eq!(one.len(), 1);
    assert_eq!(one[0].ts, 5);
}

#[test]
fn the_updates_cache_reads_back_what_was_written() {
    let cache = UpdatesCache {
        fetched_at: 1_700_000_000,
        metamod: Some(PlatformRelease { version: "2.0.0-git1359".into(), download_url: "https://x/mm.tar.gz".into() }),
        css: None,
        plugins: vec![
            ("matchzy".into(), PluginRelease { version: "0.8.6".into(), release_url: "https://r/1".into(), download_url: None }),
            (
                "retakes".into(),
                PluginRelease { version: "2.1".into(), release_url: "https://r/2".into(), download_url: Some("https://d/2".into()) },
            ),
        ],
    };
    let back = cache_from_json(&cache_json(&cache)).expect("reads back");
    assert_eq!(back.fetched_at, 1_700_000_000);
    assert_eq!(back.metamod.as_ref().map(|m| m.version.as_str()), Some("2.0.0-git1359"));
    assert!(back.css.is_none());
    assert_eq!(back.plugins.len(), 2);
    assert_eq!(back.plugins[1].0, "retakes");
    assert_eq!(back.plugins[1].1.download_url.as_deref(), Some("https://d/2"));

    let via_bytes = parse_json(&json_bytes(&cache_json(&cache))).expect("valid json");
    assert_eq!(cache_from_json(&via_bytes).expect("reads back").plugins[0].0, "matchzy");
}

#[test]
fn a_cache_without_plugins_is_not_a_cache() {
    let doc = parse_json(br#"{"fetched_at": 3, "metamod": null}"#).expect("json");
    assert!(cache_from_json(&doc).is_none());
    let doc = parse_json(br#"{"fetched_at": 3, "plugins": {}}"#).expect("json");
    let cache = cache_from_json(&doc).expect("cache");
    assert!(cache.metamod.is_none() && cache.css.is_none() && cache.plugins.is_empty());
}

#[test]
fn a_release_document_gives_version_page_and_first_matching_asset() {
    let doc = parse_json(
        br#"{"tag_name": "vv1.2.3", "html_url": "https://gh/r",
             "assets": [{"name": "Plugin-Linux.zip"},
                        {"name": "plugin-with-runtime-linux.zip", "browser_download_url": "https://gh/a"},
                        {"name": "plugin-with-runtime-linux-2.zip", "browser_download_url": "https://gh/b"}]}"#,
    )
    .expect("json");
    let release = release_from_json(&doc, &vec!["with-runtime", "linux"]).expect("release");
    assert_eq!(release.version, "1.2.3");
    assert_eq!(release.release_url, "https://gh/r");
    assert_eq!(release.download_url.as_deref(), Some("https://gh/a"));

    let first_without_url = release_from_json(&doc, &vec!["linux"]).expect("release");
    assert_eq!(first_without_url.download_url.as_deref(), Some("https://gh/a"));

    let no_tag = parse_json(br#"{"html_url": "x"}"#).expect("json");
    assert!(release_from_json(&no_tag, &vec![]).is_err());
}

#[test]
fn accepted_snapshot_names_are_safe_in_a_node_command() {
    for name in ["snap-1734567890", "snap-+7", "snap-0"] {
        assert!(validate_name(name).is_ok(), "{name}");
        assert!(is_exec_safe(name), "{name}");
    }
    for name in ["snap-1 x", "snap-", "snap-12.tar", "snap-\"1\"", "../snap-1"] {
        assert!(validate_name(name).is_err(), "{name}");
    }
}

fn snap(ts: u64) -> SnapshotInfo {
    SnapshotInfo { name: format!("snap-{ts}"), created_at: ts, size: 1, path: format!("backups/snap-{ts}.tar") }
}

#[test]
fn retention_prunes_the_oldest_beyond_five_but_never_the_protected_one() {
    let listed: Vec<SnapshotInfo> = (1..=8).rev().map(snap).collect();
    assert_eq!(prune_candidates(&listed, None), vec!["snap-1", "snap-2", "snap-3"]);
    assert_eq!(prune_candidates(&listed, Some("snap-2")), vec!["snap-1", "snap-3"]);
    let five: Vec<SnapshotInfo> = (1..=5).rev().map(snap).collect();
    assert!(prune_candidates(&five, None).is_empty());
}

#[test]
fn snapshot_tar_command_lists_the_members_in_order() {
    let members: Vec<&'static str> = vec!["plugins", "configs/plugins", "shared"];
    let cmd = cs2_addons::handlers::snapshots::tar_create_command("/g/backups/snap-5.tar", &members);
    assert_eq!(cmd, "tar -cf /g/backups/snap-5.tar plugins configs/plugins shared");
}
