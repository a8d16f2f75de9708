use std::collections::{BTreeMap, BTreeSet};
use std::io::Write;

use serde_json::Value;

use cs2_addons::handlers::ctx::ServerCtx;
use cs2_addons::handlers::{exit_failure, tar_failure};
use cs2_addons::text::i32_text;
use cs2_addons::host_api::{
    DirEntry, ExecResult, FileStat, GameInfo, HostApi, HostApiError, HostResult, HttpFetchParams,
    HttpFetchResponse, NodeInfo, ServerInfo,
};
use cs2_addons::http::{ApiResult, HttpResponse};
use cs2_addons::maintenance::autorepair_sweep;
use cs2_addons::router::{dispatch, ApiRequest};
use cs2_addons::source2::archive::{ArchiveEntry, InstallRoot};
use cs2_addons::source2::gameinfo::is_metamod_wired;

/// Map-backed fake node.
#[derive(Default)]
struct MockHost {
    servers: BTreeMap<u64, ServerInfo>,
    games: BTreeMap<String, GameInfo>,
    nodes: BTreeMap<u64, NodeInfo>,
    /// Absolute path to file content.
    files: BTreeMap<String, Vec<u8>>,
    perms: BTreeMap<String, u32>,
    dirs: BTreeSet<String>,
    chmods: Vec<(String, u32)>,
    moves: Vec<(String, String)>,
    logs: Vec<String>,
    /// exec calls: (command, work dir).
    execs: Vec<(String, Option<String>)>,
    /// URL to (status, body).
    http_responses: BTreeMap<String, (i32, Vec<u8>)>,
    http_calls: Vec<String>,
    storage: BTreeMap<String, Vec<u8>>,
    restarts: Vec<u64>,
}

const GAME: &str = "/srv/gameap/servers/cs2/game/csgo";

impl MockHost {
    /// A CS2 server (id 3) on node 1 rooted at /srv/gameap/servers/cs2.
    fn cs2() -> MockHost {
        let mut host = MockHost::default();
        host.servers.insert(3, ServerInfo { id: 3, game_code: "cs2".into(), node_id: 1, dir: "servers/cs2".into() });
        host.games.insert(
            "cs2".into(),
            GameInfo { code: "cs2".into(), name: "Counter-Strike 2".into(), engine: "source".into(), engine_version: "2".into() },
        );
        host.nodes.insert(1, NodeInfo { id: 1, os: "linux".into(), work_path: "/srv/gameap".into() });
        host.add_dir(GAME);
        host.add_file(&format!("{GAME}/gameinfo.gi"), b"\"GameInfo\"\n{\n\tgame \"Counter-Strike 2\"\n}\n");
        host
    }

    fn add_dir(&mut self, path: &str) {
        let mut current = String::new();
        for segment in path.trim_start_matches('/').split('/') {
            current.push('/');
            current.push_str(segment);
            self.dirs.insert(current.clone());
        }
    }

    fn add_file(&mut self, path: &str, content: &[u8]) {
        if let Some(idx) = path.rfind('/') {
            self.add_dir(&path[..idx]);
        }
        self.files.insert(path.to_string(), content.to_vec());
    }

    fn file(&self, path: &str) -> Option<&[u8]> {
        self.files.get(path).map(Vec::as_slice)
    }
}

impl HostApi for MockHost {
    fn get_server(&mut self, id: u64) -> HostResult<Option<ServerInfo>> {
        Ok(self.servers.get(&id).cloned())
    }

    fn get_game(&mut self, code: &str) -> HostResult<Option<GameInfo>> {
        Ok(self.games.get(code).cloned())
    }

    fn get_node(&mut self, id: u64) -> HostResult<Option<NodeInfo>> {
        Ok(self.nodes.get(&id).cloned())
    }

    fn find_servers_by_game(&mut self, game_code: &str) -> HostResult<Vec<ServerInfo>> {
        Ok(self.servers.values().filter(|s| s.game_code == game_code).cloned().collect())
    }

    fn read_dir(&mut self, _node_id: u64, path: &str) -> HostResult<Option<Vec<DirEntry>>> {
        let path = path.trim_end_matches('/');
        if !self.dirs.contains(path) {
            return Ok(None);
        }
        let prefix = format!("{path}/");
        let mut entries = Vec::new();
        for dir in &self.dirs {
            if let Some(rest) = dir.strip_prefix(&prefix) {
                if !rest.is_empty() && !rest.contains('/') {
                    entries.push(DirEntry { name: rest.to_string(), is_dir: true });
                }
            }
        }
        for file in self.files.keys() {
            if let Some(rest) = file.strip_prefix(&prefix) {
                if !rest.is_empty() && !rest.contains('/') {
                    entries.push(DirEntry { name: rest.to_string(), is_dir: false });
                }
            }
        }
        Ok(Some(entries))
    }

    fn stat(&mut self, _node_id: u64, path: &str) -> HostResult<Option<FileStat>> {
        let path = path.trim_end_matches('/');
        if let Some(content) = self.files.get(path) {
            return Ok(Some(FileStat {
                is_dir: false,
                size: content.len() as u64,
                permissions: self.perms.get(path).copied().unwrap_or(0o644),
            }));
        }
        if self.dirs.contains(path) {
            return Ok(Some(FileStat { is_dir: true, size: 0, permissions: 0o755 }));
        }
        Ok(None)
    }

    fn download(&mut self, _node_id: u64, path: &str) -> HostResult<Vec<u8>> {
        self.files.get(path).cloned().ok_or_else(|| HostApiError::Op(format!("no such file: {path}")))
    }

    fn upload(&mut self, _node_id: u64, path: &str, content: &[u8], _permissions: u32) -> HostResult<()> {
        self.add_file(path, content);
        Ok(())
    }

    fn remove(&mut self, _node_id: u64, path: &str, recursive: bool) -> HostResult<()> {
        let path = path.trim_end_matches('/');
        if self.files.remove(path).is_some() {
            return Ok(());
        }
        if self.dirs.contains(path) {
            if !recursive {
                return Err(HostApiError::Op(format!("directory not empty: {path}")));
            }
            let prefix = format!("{path}/");
            self.dirs.retain(|dir| dir != path && !dir.starts_with(&prefix));
            self.files.retain(|file, _| !file.starts_with(&prefix));
            return Ok(());
        }
        Err(HostApiError::Op(format!("no such file: {path}")))
    }

    fn chmod(&mut self, _node_id: u64, path: &str, permissions: u32) -> HostResult<()> {
        if !self.files.contains_key(path) && !self.dirs.contains(path) {
            return Err(HostApiError::Op(format!("no such file: {path}")));
        }
        self.chmods.push((path.to_string(), permissions));
        self.perms.insert(path.to_string(), permissions);
        Ok(())
    }

    fn mk_dir(&mut self, _node_id: u64, path: &str) -> HostResult<()> {
        self.add_dir(path);
        Ok(())
    }

    fn move_path(&mut self, _node_id: u64, source: &str, destination: &str) -> HostResult<()> {
        let source = source.trim_end_matches('/');
        let destination = destination.trim_end_matches('/');
        if !self.dirs.contains(source) && !self.files.contains_key(source) {
            return Err(HostApiError::Op(format!("no such file: {source}")));
        }
        self.moves.push((source.to_string(), destination.to_string()));
        if let Some(content) = self.files.remove(source) {
            self.add_file(destination, &content);
            return Ok(());
        }
        let src_prefix = format!("{source}/");
        let moved_dirs: Vec<String> =
            self.dirs.iter().filter(|dir| *dir == source || dir.starts_with(&src_prefix)).cloned().collect();
        for dir in moved_dirs {
            self.dirs.remove(&dir);
            self.dirs.insert(format!("{destination}{}", &dir[source.len()..]));
        }
        let moved_files: Vec<String> = self.files.keys().filter(|file| file.starts_with(&src_prefix)).cloned().collect();
        for file in moved_files {
            if let Some(content) = self.files.remove(&file) {
                self.files.insert(format!("{destination}{}", &file[source.len()..]), content);
            }
        }
        Ok(())
    }

    fn exec(&mut self, _node_id: u64, command: &str, work_dir: Option<&str>) -> HostResult<ExecResult> {
        self.execs.push((command.to_string(), work_dir.map(str::to_string)));
        Ok(ExecResult { exit_code: 0, output: String::new() })
    }

    fn http_fetch(&mut self, params: &HttpFetchParams) -> HostResult<HttpFetchResponse> {
        self.http_calls.push(params.url.clone());
        match self.http_responses.get(&params.url) {
            Some((status, body)) => Ok(HttpFetchResponse { status: *status, body: body.clone() }),
            None => Ok(HttpFetchResponse { status: 404, body: Vec::new() }),
        }
    }

    fn storage_get(&mut self, key: &str) -> HostResult<Option<Vec<u8>>> {
        Ok(self.storage.get(key).cloned())
    }

    fn storage_set(&mut self, key: &str, value: &[u8]) -> HostResult<()> {
        self.storage.insert(key.to_string(), value.to_vec());
        Ok(())
    }

    fn restart_server(&mut self, server_id: u64) -> HostResult<()> {
        self.restarts.push(server_id);
        Ok(())
    }

    fn log_info(&mut self, message: &str) {
        self.logs.push(format!("INFO {message}"));
    }

    fn log_error(&mut self, message: &str) {
        self.logs.push(format!("ERROR {message}"));
    }
}

fn params(id: &str) -> Vec<(String, String)> {
    vec![("id".to_string(), id.to_string())]
}

fn body_json(result: ApiResult) -> (u16, Value) {
    let resp: HttpResponse = match result {
        Ok(resp) => resp,
        Err(err) => err.into_response(),
    };
    let value: Value = serde_json::from_slice(&resp.body).expect("json body");
    (resp.status, value)
}

fn with_css(host: &mut MockHost) {
    host.add_dir(&format!("{GAME}/addons/counterstrikesharp"));
    host.add_dir(&format!("{GAME}/addons/counterstrikesharp/plugins"));
}

fn add_plugin(host: &mut MockHost, name: &str) {
    host.add_file(&format!("{GAME}/addons/counterstrikesharp/plugins/{name}/{name}.dll"), b"MZ");
}

fn add_disabled_plugin(host: &mut MockHost, name: &str) {
    host.add_file(&format!("{GAME}/addons/counterstrikesharp/plugins/disabled/{name}/{name}.dll"), b"MZ");
}

const MANIFEST_ABS: &str =
    "/srv/gameap/servers/cs2/game/csgo/addons/counterstrikesharp/configs/plugins/AddonsManager/plugins_meta.json";

const UNWIRED_GI: &[u8] =
    b"\"GameInfo\"\n{\n\tFileSystem\n\t{\n\t\tSearchPaths\n\t\t{\n\t\t\tGame_LowViolence\tcsgo_lv\n\t\t\tGame\tcsgo\n\t\t}\n\t}\n}\n";

fn zip_of(names: &[&str]) -> Vec<u8> {
    let mut cursor = std::io::Cursor::new(Vec::new());
    {
        let mut writer = zip::ZipWriter::new(&mut cursor);
        for name in names {
            writer.start_file(*name, zip::write::SimpleFileOptions::default()).expect("start");
            writer.write_all(b"MZ").expect("write");
        }
        writer.finish().expect("finish");
    }
    cursor.into_inner()
}

fn catalog_zip() -> Vec<u8> {
    zip_of(&["MatchZy/MatchZy.dll"])
}

// ---------------------------------------------------------------- state

#[test]
fn state_assembles_platforms_and_plugins() {
    let mut host = MockHost::cs2();
    with_css(&mut host);
    host.add_dir(&format!("{GAME}/addons/metamod"));
    host.add_file(&format!("{GAME}/gameinfo.gi"), b"SearchPaths { Game csgo/addons/metamod\nGame csgo }");
    add_plugin(&mut host, "MatchZy");
    add_plugin(&mut host, "WeaponPaints");
    add_disabled_plugin(&mut host, "RollTheDice");
    host.add_file(&format!("{GAME}/addons/counterstrikesharp/configs/plugins/MatchZy/MatchZy.json"), b"{}");
    host.add_file(
        MANIFEST_ABS,
        br#"{"MatchZy": {"Comment": "tournament", "Group": "match"},
             "GoneMod": {"Comment": "", "Group": ""}}"#,
    );

    let (status, body) = body_json(cs2_addons::handlers::state::handle(&mut host, &params("3")));
    assert_eq!(status, 200);
    assert_eq!(body["engine"], "source");
    assert_eq!(body["game_dir"], "game/csgo");
    assert_eq!(body["metamod"]["installed"], true);
    assert_eq!(body["metamod"]["dir_present"], true);
    assert_eq!(body["metamod"]["gameinfo_wired"], true);
    assert_eq!(body["css"]["installed"], true);

    let plugins = body["css"]["plugins"].as_array().expect("plugins array");
    assert_eq!(plugins.len(), 4);

    let by_name = |name: &str| plugins.iter().find(|p| p["name"] == name).unwrap_or_else(|| panic!("{name} present"));
    let matchzy = by_name("MatchZy");
    assert_eq!(matchzy["enabled"], true);
    assert_eq!(matchzy["missing"], false);
    assert_eq!(matchzy["comment"], "tournament");
    assert_eq!(matchzy["group"], "match");
    assert_eq!(matchzy["has_config"], true);
    assert_eq!(matchzy["config_path"], "game/csgo/addons/counterstrikesharp/configs/plugins/MatchZy/MatchZy.json");

    let rtd = by_name("RollTheDice");
    assert_eq!(rtd["enabled"], false);
    assert_eq!(rtd["missing"], false);

    let gone = by_name("GoneMod");
    assert_eq!(gone["missing"], true);

    let paints = by_name("WeaponPaints");
    assert_eq!(paints["group_title"], Value::Null);
    assert_eq!(paints["group_index"], u32::MAX as u64);
}

#[test]
fn state_flags_broken_plugin_layout() {
    let mut host = MockHost::cs2();
    with_css(&mut host);
    host.add_file(&format!("{GAME}/addons/counterstrikesharp/plugins/Broken/Other.dll"), b"MZ");

    let (_, body) = body_json(cs2_addons::handlers::state::handle(&mut host, &params("3")));
    let plugins = body["css"]["plugins"].as_array().expect("plugins array");
    assert_eq!(plugins[0]["name"], "Broken");
    assert_eq!(plugins[0]["missing"], true);
}

#[test]
fn state_rejects_non_source2_servers() {
    let mut host = MockHost::cs2();
    if let Some(game) = host.games.get_mut("cs2") {
        game.engine = "goldsource".into();
        game.engine_version = "1".into();
    }
    let (status, body) = body_json(cs2_addons::handlers::state::handle(&mut host, &params("3")));
    assert_eq!(status, 422);
    assert_eq!(body["code"], "UNSUPPORTED_ENGINE");
}

#[test]
fn state_groups_named_groups_alphabetically() {
    let mut host = MockHost::cs2();
    with_css(&mut host);
    add_plugin(&mut host, "A");
    add_plugin(&mut host, "B");
    host.add_file(MANIFEST_ABS, br#"{"A": {"Comment": "", "Group": "zeta"}, "B": {"Comment": "", "Group": "Alpha"}}"#);
    let (_, body) = body_json(cs2_addons::handlers::state::handle(&mut host, &params("3")));
    let plugins = body["css"]["plugins"].as_array().expect("plugins");
    let a = plugins.iter().find(|p| p["name"] == "A").expect("A");
    let b = plugins.iter().find(|p| p["name"] == "B").expect("B");
    assert_eq!(b["group_index"], 0);
    assert_eq!(a["group_index"], 1);
    assert_eq!(a["group_title"], "zeta");
}

#[test]
fn bad_server_ids_are_400() {
    let mut host = MockHost::cs2();
    let (status, _) = body_json(cs2_addons::handlers::state::handle(&mut host, &params("x3")));
    assert_eq!(status, 400);
    let (status, body) = body_json(cs2_addons::handlers::state::handle(&mut host, &params("4")));
    assert_eq!(status, 404);
    assert_eq!(body["code"], "SERVER_NOT_FOUND");
}

// ---------------------------------------------------------------- toggle

#[test]
fn toggle_disable_moves_folder_to_disabled() {
    let mut host = MockHost::cs2();
    with_css(&mut host);
    add_plugin(&mut host, "MatchZy");

    let (status, body) = body_json(cs2_addons::handlers::toggle::handle(
        &mut host,
        &params("3"),
        br#"{"name": "MatchZy", "enabled": false}"#,
        None,
    ));
    assert_eq!(status, 200);
    assert_eq!(body["changed"], true);
    assert_eq!(host.moves.len(), 1, "one native nodefs move, no shell commands");
    assert!(host.file(&format!("{GAME}/addons/counterstrikesharp/plugins/disabled/MatchZy/MatchZy.dll")).is_some());
    assert!(host.file(&format!("{GAME}/addons/counterstrikesharp/plugins/MatchZy/MatchZy.dll")).is_none());
}

#[test]
fn toggle_enable_moves_folder_back() {
    let mut host = MockHost::cs2();
    with_css(&mut host);
    add_disabled_plugin(&mut host, "RollTheDice");

    let (status, body) = body_json(cs2_addons::handlers::toggle::handle(
        &mut host,
        &params("3"),
        br#"{"name": "RollTheDice", "enabled": true}"#,
        None,
    ));
    assert_eq!(status, 200);
    assert_eq!(body["changed"], true);
    assert!(host.file(&format!("{GAME}/addons/counterstrikesharp/plugins/RollTheDice/RollTheDice.dll")).is_some());
}

#[test]
fn toggle_is_idempotent() {
    let mut host = MockHost::cs2();
    with_css(&mut host);
    add_plugin(&mut host, "MatchZy");

    let (status, body) = body_json(cs2_addons::handlers::toggle::handle(
        &mut host,
        &params("3"),
        br#"{"name": "MatchZy", "enabled": true}"#,
        None,
    ));
    assert_eq!(status, 200);
    assert_eq!(body["changed"], false);
    assert!(host.moves.is_empty());
}

#[test]
fn toggle_unknown_plugin_404s() {
    let mut host = MockHost::cs2();
    with_css(&mut host);
    let (status, body) = body_json(cs2_addons::handlers::toggle::handle(
        &mut host,
        &params("3"),
        br#"{"name": "Nope", "enabled": false}"#,
        None,
    ));
    assert_eq!(status, 404);
    assert_eq!(body["code"], "PLUGIN_NOT_FOUND");
}

#[test]
fn toggle_rejects_path_escapes_and_disabled_dir() {
    let mut host = MockHost::cs2();
    with_css(&mut host);
    for name in ["../evil", "a/b", "disabled", ".."] {
        let body = format!(r#"{{"name": "{name}", "enabled": false}}"#);
        let (status, _) = body_json(cs2_addons::handlers::toggle::handle(&mut host, &params("3"), body.as_bytes(), None));
        assert_eq!(status, 400, "{name} must be rejected");
    }
}

#[test]
fn toggle_needs_a_well_formed_body() {
    let mut host = MockHost::cs2();
    with_css(&mut host);
    add_plugin(&mut host, "MatchZy");
    for body in [&b"not json"[..], br#"{"name": "MatchZy"}"#, br#"{"name": 5, "enabled": true}"#] {
        let (status, body) = body_json(cs2_addons::handlers::toggle::handle(&mut host, &params("3"), body, None));
        assert_eq!(status, 400);
        assert_eq!(body["code"], "BAD_REQUEST");
    }
}

// ---------------------------------------------------------------- attributes

#[test]
fn attributes_write_shared_manifest() {
    let mut host = MockHost::cs2();
    with_css(&mut host);
    add_plugin(&mut host, "MatchZy");

    let (status, body) = body_json(cs2_addons::handlers::attributes::handle(
        &mut host,
        &params("3"),
        br#"{"name": "MatchZy", "comment": " tournament cfg ", "group": "match"}"#,
    ));
    assert_eq!(status, 200);
    assert_eq!(body["changed"], true);
    assert_eq!(body["comment"], "tournament cfg");

    let manifest = host.file(MANIFEST_ABS).expect("manifest written");
    let parsed: Value = serde_json::from_slice(manifest).expect("manifest json");
    assert_eq!(parsed["MatchZy"]["Comment"], "tournament cfg");
    assert_eq!(parsed["MatchZy"]["Group"], "match");
}

#[test]
fn attributes_noop_skips_write() {
    let mut host = MockHost::cs2();
    with_css(&mut host);
    add_plugin(&mut host, "MatchZy");
    host.add_file(MANIFEST_ABS, br#"{"MatchZy": {"Comment": "x", "Group": ""}}"#);
    let before = host.file(MANIFEST_ABS).map(<[u8]>::to_vec);

    let (status, body) = body_json(cs2_addons::handlers::attributes::handle(
        &mut host,
        &params("3"),
        br#"{"name": "MatchZy", "comment": "x", "group": null}"#,
    ));
    assert_eq!(status, 200);
    assert_eq!(body["changed"], false);
    assert_eq!(host.file(MANIFEST_ABS).map(<[u8]>::to_vec), before);
}

#[test]
fn attributes_reject_control_characters() {
    let mut host = MockHost::cs2();
    with_css(&mut host);
    add_plugin(&mut host, "MatchZy");
    let (status, _) = body_json(cs2_addons::handlers::attributes::handle(
        &mut host,
        &params("3"),
        b"{\"name\": \"MatchZy\", \"comment\": \"evil\\nline\"}",
    ));
    assert_eq!(status, 400);
}

#[test]
fn attributes_reject_an_overlong_group() {
    let mut host = MockHost::cs2();
    with_css(&mut host);
    add_plugin(&mut host, "MatchZy");
    let body = format!(r#"{{"name": "MatchZy", "group": "{}"}}"#, "g".repeat(65));
    let (status, _) = body_json(cs2_addons::handlers::attributes::handle(&mut host, &params("3"), body.as_bytes()));
    assert_eq!(status, 400);
    let body = format!(r#"{{"name": "MatchZy", "group": "{}"}}"#, "g".repeat(64));
    let (status, _) = body_json(cs2_addons::handlers::attributes::handle(&mut host, &params("3"), body.as_bytes()));
    assert_eq!(status, 200);
}

// ---------------------------------------------------------------- add

#[test]
fn add_registers_uploaded_plugin() {
    let mut host = MockHost::cs2();
    with_css(&mut host);
    add_plugin(&mut host, "CS2-Tags");

    let (status, body) =
        body_json(cs2_addons::handlers::add::handle(&mut host, &params("3"), br#"{"name": "CS2-Tags"}"#, None));
    assert_eq!(status, 201);
    assert_eq!(body["replaced"], false);

    let manifest = host.file(MANIFEST_ABS).expect("manifest written");
    let parsed: Value = serde_json::from_slice(manifest).expect("manifest json");
    assert!(parsed["CS2-Tags"].is_object());
}

#[test]
fn add_requires_uploaded_dll_and_force_for_replace() {
    let mut host = MockHost::cs2();
    with_css(&mut host);

    let (status, body) = body_json(cs2_addons::handlers::add::handle(&mut host, &params("3"), br#"{"name": "Ghost"}"#, None));
    assert_eq!(status, 422);
    assert_eq!(body["code"], "FILE_NOT_UPLOADED");

    add_plugin(&mut host, "MatchZy");
    host.add_file(MANIFEST_ABS, br#"{"MatchZy": {"Comment": "", "Group": ""}}"#);
    let (status, body) =
        body_json(cs2_addons::handlers::add::handle(&mut host, &params("3"), br#"{"name": "MatchZy"}"#, None));
    assert_eq!(status, 409);
    assert_eq!(body["code"], "ALREADY_REGISTERED");

    let (status, body) = body_json(cs2_addons::handlers::add::handle(
        &mut host,
        &params("3"),
        br#"{"name": "MatchZy", "force": true}"#,
        None,
    ));
    assert_eq!(status, 200);
    assert_eq!(body["replaced"], true);
}

#[test]
fn mutations_need_counterstrikesharp() {
    let mut host = MockHost::cs2();
    let (status, body) = body_json(cs2_addons::handlers::add::handle(&mut host, &params("3"), br#"{"name": "X"}"#, None));
    assert_eq!(status, 409);
    assert_eq!(body["code"], "CSS_NOT_INSTALLED");
}

// ---------------------------------------------------------------- remove

#[test]
fn remove_deletes_folder_and_manifest_entry() {
    let mut host = MockHost::cs2();
    with_css(&mut host);
    add_plugin(&mut host, "MatchZy");
    host.add_file(MANIFEST_ABS, br#"{"MatchZy": {"Comment": "x", "Group": ""}, "Other": {"Comment": "", "Group": ""}}"#);

    let (status, body) = body_json(cs2_addons::handlers::remove::handle(
        &mut host,
        &params("3"),
        br#"{"name": "MatchZy"}"#,
        &Vec::new(),
        None,
    ));
    assert_eq!(status, 200);
    assert_eq!(body["folder_deleted"], true);
    assert_eq!(body["entry_removed"], true);
    assert!(host.file(&format!("{GAME}/addons/counterstrikesharp/plugins/MatchZy/MatchZy.dll")).is_none());
    let parsed: Value = serde_json::from_slice(host.file(MANIFEST_ABS).expect("manifest")).expect("json");
    assert!(parsed.get("MatchZy").is_none());
    assert!(parsed.get("Other").is_some());
}

#[test]
fn remove_accepts_query_param_fallback() {
    let mut host = MockHost::cs2();
    with_css(&mut host);
    add_disabled_plugin(&mut host, "RollTheDice");

    let query = vec![("name".to_string(), vec!["RollTheDice".to_string()])];
    let (status, body) = body_json(cs2_addons::handlers::remove::handle(&mut host, &params("3"), b"", &query, None));
    assert_eq!(status, 200);
    assert_eq!(body["folder_deleted"], true);
}

#[test]
fn remove_unknown_plugin_404s() {
    let mut host = MockHost::cs2();
    with_css(&mut host);
    let (status, _) = body_json(cs2_addons::handlers::remove::handle(
        &mut host,
        &params("3"),
        br#"{"name": "Nope"}"#,
        &Vec::new(),
        None,
    ));
    assert_eq!(status, 404);
}

// ---------------------------------------------------------------- dispatch

#[test]
fn dispatch_serves_state_route() {
    let mut host = MockHost::cs2();
    with_css(&mut host);
    let resp = dispatch(
        &mut host,
        &ApiRequest {
            method: "GET".into(),
            path: "/servers/3/state".into(),
            body: Vec::new(),
            query: Vec::new(),
            actor: None,
        },
    );
    assert_eq!(resp.status, 200);

    let resp = dispatch(
        &mut host,
        &ApiRequest {
            method: "GET".into(),
            path: "/servers/3/nope".into(),
            body: Vec::new(),
            query: Vec::new(),
            actor: None,
        },
    );
    assert_eq!(resp.status, 404);
}

#[test]
fn dispatch_answers_bad_ids_and_ignores_method_case() {
    let mut host = MockHost::cs2();
    with_css(&mut host);
    let request = |method: &str, path: &str| ApiRequest {
        method: method.into(),
        path: path.into(),
        body: Vec::new(),
        query: Vec::new(),
        actor: None,
    };
    assert_eq!(dispatch(&mut host, &request("GET", "/servers/abc/state")).status, 400);
    assert_eq!(dispatch(&mut host, &request("get", "servers/3/state/")).status, 200);
    assert_eq!(dispatch(&mut host, &request("PUT", "/servers/3/state")).status, 404);
}

// ---------------------------------------------------------------- gameinfo repair

#[test]
fn repair_wires_gameinfo_and_audits() {
    let mut host = MockHost::cs2();
    host.add_file(&format!("{GAME}/gameinfo.gi"), UNWIRED_GI);

    let (status, body) = body_json(cs2_addons::handlers::repair::handle(&mut host, &params("3"), Some("john")));
    assert_eq!(status, 200);
    assert_eq!(body["changed"], true);
    assert!(is_metamod_wired(host.file(&format!("{GAME}/gameinfo.gi")).expect("gameinfo")));

    let audit = host.storage.get("audit:3").expect("audit stored");
    let entries: Value = serde_json::from_slice(audit).expect("audit json");
    assert_eq!(entries[0]["action"], "gameinfo-repair");
    assert_eq!(entries[0]["user"], "john");

    let (_, body) = body_json(cs2_addons::handlers::repair::handle(&mut host, &params("3"), None));
    assert_eq!(body["changed"], false);
    let entries: Value = serde_json::from_slice(host.storage.get("audit:3").expect("audit")).expect("json");
    assert_eq!(entries.as_array().expect("array").len(), 1);
}

#[test]
fn repair_reports_an_unpatchable_file() {
    let mut host = MockHost::cs2();
    let (status, body) = body_json(cs2_addons::handlers::repair::handle(&mut host, &params("3"), None));
    assert_eq!(status, 422);
    assert_eq!(body["code"], "GAMEINFO_UNPATCHABLE");
}

// ---------------------------------------------------------------- metamod vdf

#[test]
fn metamod_toggle_guards_the_platform_vdf() {
    let mut host = MockHost::cs2();
    with_css(&mut host);
    host.add_file(&format!("{GAME}/addons/metamod/counterstrikesharp.vdf"), b"vdf");

    let (status, body) = body_json(cs2_addons::handlers::metamod::handle(
        &mut host,
        &params("3"),
        br#"{"name": "counterstrikesharp", "enabled": false}"#,
        Some("john"),
    ));
    assert_eq!(status, 409, "{body}");
    assert_eq!(body["code"], "PLATFORM_VDF");
    assert!(host.file(&format!("{GAME}/addons/metamod/counterstrikesharp.vdf")).is_some());

    let (status, body) = body_json(cs2_addons::handlers::metamod::handle(
        &mut host,
        &params("3"),
        br#"{"name": "counterstrikesharp", "enabled": false, "force": true}"#,
        Some("john"),
    ));
    assert_eq!(status, 200, "{body}");
    assert!(host.file(&format!("{GAME}/addons/metamod/counterstrikesharp.vdf.disabled")).is_some());

    let (status, body) = body_json(cs2_addons::handlers::metamod::handle(
        &mut host,
        &params("3"),
        br#"{"name": "counterstrikesharp", "enabled": true}"#,
        Some("john"),
    ));
    assert_eq!(status, 200, "{body}");
}

#[test]
fn metamod_toggle_renames_vdf() {
    let mut host = MockHost::cs2();
    host.add_file(&format!("{GAME}/addons/metamod/cs2fixes.vdf"), b"vdf");

    let (status, body) = body_json(cs2_addons::handlers::metamod::handle(
        &mut host,
        &params("3"),
        br#"{"name": "cs2fixes", "enabled": false}"#,
        None,
    ));
    assert_eq!(status, 200);
    assert_eq!(body["changed"], true);
    assert!(host.file(&format!("{GAME}/addons/metamod/cs2fixes.vdf.disabled")).is_some());
    assert!(host.file(&format!("{GAME}/addons/metamod/cs2fixes.vdf")).is_none());

    let (_, body) = body_json(cs2_addons::handlers::metamod::handle(
        &mut host,
        &params("3"),
        br#"{"name": "cs2fixes", "enabled": true}"#,
        None,
    ));
    assert_eq!(body["changed"], true);
    assert!(host.file(&format!("{GAME}/addons/metamod/cs2fixes.vdf")).is_some());
}

#[test]
fn state_lists_metamod_vdf_plugins() {
    let mut host = MockHost::cs2();
    with_css(&mut host);
    host.add_file(&format!("{GAME}/addons/metamod/counterstrikesharp.vdf"), b"v");
    host.add_file(&format!("{GAME}/addons/metamod/cs2fixes.vdf.disabled"), b"v");
    host.add_file(&format!("{GAME}/addons/metamod/metaplugins.ini"), b";");

    let (_, body) = body_json(cs2_addons::handlers::state::handle(&mut host, &params("3")));
    let mm_plugins = body["metamod"]["plugins"].as_array().expect("vdf list");
    assert_eq!(mm_plugins.len(), 2);
    assert_eq!(mm_plugins[0]["name"], "counterstrikesharp");
    assert_eq!(mm_plugins[0]["enabled"], true);
    assert_eq!(mm_plugins[1]["name"], "cs2fixes");
    assert_eq!(mm_plugins[1]["enabled"], false);
}

// ---------------------------------------------------------------- restart

#[test]
fn restart_calls_servercontrol() {
    let mut host = MockHost::cs2();
    let (status, body) = body_json(cs2_addons::handlers::restart::handle(&mut host, &params("3"), Some("john")));
    assert_eq!(status, 200);
    assert_eq!(body["restarted"], true);
    assert_eq!(host.restarts, vec![3]);
}

// ---------------------------------------------------------------- logs

#[test]
fn logs_tail_newest_file() {
    let mut host = MockHost::cs2();
    with_css(&mut host);
    host.add_file(&format!("{GAME}/addons/counterstrikesharp/logs/log_20260101.txt"), b"old line\n");
    host.add_file(&format!("{GAME}/addons/counterstrikesharp/logs/log_20260817.txt"), b"line one\nline two\n");

    let (status, body) = body_json(cs2_addons::handlers::logs::handle(&mut host, &params("3")));
    assert_eq!(status, 200);
    assert_eq!(body["file"], "game/csgo/addons/counterstrikesharp/logs/log_20260817.txt");
    let lines = body["lines"].as_array().expect("lines");
    assert_eq!(lines.len(), 2);
    assert_eq!(lines[1], "line two");
}

#[test]
fn logs_empty_without_logs_dir() {
    let mut host = MockHost::cs2();
    with_css(&mut host);
    let (status, body) = body_json(cs2_addons::handlers::logs::handle(&mut host, &params("3")));
    assert_eq!(status, 200);
    assert_eq!(body["file"], Value::Null);
}

#[test]
fn logs_keep_only_the_tail_of_a_big_file() {
    let mut host = MockHost::cs2();
    let mut big = String::new();
    for i in 0..1000 {
        big.push_str(&format!("line {i}\n"));
    }
    host.add_file(&format!("{GAME}/addons/counterstrikesharp/logs/log_1.txt"), big.as_bytes());
    let (_, body) = body_json(cs2_addons::handlers::logs::handle(&mut host, &params("3")));
    let lines = body["lines"].as_array().expect("lines");
    assert_eq!(lines.len(), 400);
    assert_eq!(lines[399], "line 999");
    assert_eq!(lines[0], "line 600");
}

// ---------------------------------------------------------------- snapshots

#[test]
fn snapshot_create_list_restore_delete() {
    let mut host = MockHost::cs2();
    with_css(&mut host);
    add_plugin(&mut host, "MatchZy");

    let (status, body) = body_json(cs2_addons::handlers::snapshots::handle_create(&mut host, &params("3"), Some("john")));
    assert_eq!(status, 200);
    let name = body["snapshot"]["name"].as_str().expect("name").to_string();
    assert!(name.starts_with("snap-"));

    let (tar_cmd, work_dir) = host.execs.first().expect("tar ran").clone();
    assert!(tar_cmd.starts_with("tar -cf"));
    assert!(tar_cmd.ends_with(" plugins"), "configs/plugins absent: {tar_cmd}");
    assert_eq!(work_dir.as_deref(), Some(&format!("{GAME}/addons/counterstrikesharp")[..]));

    let tar_abs = format!("{GAME}/addons/counterstrikesharp/backups/{name}.tar");
    host.add_file(&tar_abs, b"TAR");

    let (status, body) = body_json(cs2_addons::handlers::snapshots::handle_list(&mut host, &params("3")));
    assert_eq!(status, 200);
    assert_eq!(body["snapshots"][0]["name"], name.as_str());

    let restore_body = format!(r#"{{"name": "{name}"}}"#);
    let (status, body) =
        body_json(cs2_addons::handlers::snapshots::handle_restore(&mut host, &params("3"), restore_body.as_bytes(), None));
    assert_eq!(status, 200);
    assert_eq!(body["restored"], true);
    assert!(host.file(&format!("{GAME}/addons/counterstrikesharp/plugins/MatchZy/MatchZy.dll")).is_none());
    assert!(host.execs.iter().any(|(cmd, _)| cmd.starts_with("tar -xf")));

    let delete_body = format!(r#"{{"name": "{name}"}}"#);
    let (status, _) =
        body_json(cs2_addons::handlers::snapshots::handle_delete(&mut host, &params("3"), delete_body.as_bytes(), None));
    assert_eq!(status, 200);
    assert!(host.file(&tar_abs).is_none());
}

#[test]
fn snapshot_restore_rejects_bad_names() {
    let mut host = MockHost::cs2();
    with_css(&mut host);
    for bad in ["../../etc", "snap-abc", "x", "snap-1; rm -rf /"] {
        let body = format!(r#"{{"name": "{}"}}"#, bad.replace('\\', ""));
        let (status, _) =
            body_json(cs2_addons::handlers::snapshots::handle_restore(&mut host, &params("3"), body.as_bytes(), None));
        assert_eq!(status, 400, "{bad} must be rejected");
    }
}

#[test]
fn snapshots_list_newest_first() {
    let mut host = MockHost::cs2();
    for ts in ["100", "300", "200"] {
        host.add_file(&format!("{GAME}/addons/counterstrikesharp/backups/snap-{ts}.tar"), b"T");
    }
    host.add_file(&format!("{GAME}/addons/counterstrikesharp/backups/notes.txt"), b"x");
    let (_, body) = body_json(cs2_addons::handlers::snapshots::handle_list(&mut host, &params("3")));
    let names: Vec<&str> = body["snapshots"].as_array().expect("list").iter().map(|s| s["name"].as_str().expect("name")).collect();
    assert_eq!(names, vec!["snap-300", "snap-200", "snap-100"]);
    assert_eq!(body["snapshots"][0]["created_at"], 300);
}

// ---------------------------------------------------------------- archive install

#[test]
fn archive_install_places_shared_assemblies() {
    let mut host = MockHost::cs2();
    with_css(&mut host);
    host.add_file(
        "/srv/gameap/servers/cs2/upload/PlayerSettings.zip",
        &zip_of(&["plugins/PlayerSettings/PlayerSettings.dll", "shared/PlayerSettingsApi/PlayerSettingsApi.dll"]),
    );

    let (status, body) = body_json(cs2_addons::handlers::archive_install::handle(
        &mut host,
        &params("3"),
        br#"{"path": "upload/PlayerSettings.zip"}"#,
        Some("john"),
    ));
    assert_eq!(status, 200, "{body}");
    assert_eq!(body["files_written"], 2);
    assert!(host.file(&format!("{GAME}/addons/counterstrikesharp/plugins/PlayerSettings/PlayerSettings.dll")).is_some());
    assert!(host.file(&format!("{GAME}/addons/counterstrikesharp/shared/PlayerSettingsApi/PlayerSettingsApi.dll")).is_some());
    assert_eq!(body["folders"].as_array().expect("folders").len(), 1);
    assert_eq!(body["folders"][0], "PlayerSettings");
}

#[test]
fn archive_install_puts_bare_folders_under_plugins() {
    let mut host = MockHost::cs2();
    with_css(&mut host);
    host.add_file(
        "/srv/gameap/servers/cs2/upload/MenuManager.zip",
        &zip_of(&["MenuManagerCore/MenuManagerCore.dll", "shared/MenuManagerApi/MenuManagerApi.dll"]),
    );

    let (status, body) = body_json(cs2_addons::handlers::archive_install::handle(
        &mut host,
        &params("3"),
        br#"{"path": "upload/MenuManager.zip"}"#,
        Some("john"),
    ));
    assert_eq!(status, 200, "{body}");
    assert!(host.file(&format!("{GAME}/addons/counterstrikesharp/plugins/MenuManagerCore/MenuManagerCore.dll")).is_some());
    assert!(host.file(&format!("{GAME}/addons/counterstrikesharp/shared/MenuManagerApi/MenuManagerApi.dll")).is_some());
    assert!(host.file(&format!("{GAME}/addons/counterstrikesharp/MenuManagerCore/MenuManagerCore.dll")).is_none());
    assert_eq!(body["folders"].as_array().expect("folders").len(), 1);
    assert_eq!(body["folders"][0], "MenuManagerCore");
}

#[test]
fn archive_install_extracts_registers_and_cleans_up() {
    let mut host = MockHost::cs2();
    with_css(&mut host);
    host.add_file("/srv/gameap/servers/cs2/upload/MatchZy.zip", &catalog_zip());

    let (status, body) = body_json(cs2_addons::handlers::archive_install::handle(
        &mut host,
        &params("3"),
        br#"{"path": "upload/MatchZy.zip"}"#,
        Some("john"),
    ));
    assert_eq!(status, 200, "{body}");
    assert_eq!(body["folders"][0], "MatchZy");
    assert_eq!(body["files_written"], 1);
    assert!(host.file(&format!("{GAME}/addons/counterstrikesharp/plugins/MatchZy/MatchZy.dll")).is_some());
    assert!(host.file("/srv/gameap/servers/cs2/upload/MatchZy.zip").is_none());
    let manifest: Value = serde_json::from_slice(host.file(MANIFEST_ABS).expect("manifest")).expect("json");
    assert!(manifest["MatchZy"].is_object());
}

#[test]
fn archive_install_conflicts_without_force() {
    let mut host = MockHost::cs2();
    with_css(&mut host);
    add_plugin(&mut host, "MatchZy");
    host.add_file("/srv/gameap/servers/cs2/up.zip", &catalog_zip());

    let (status, body) =
        body_json(cs2_addons::handlers::archive_install::handle(&mut host, &params("3"), br#"{"path": "up.zip"}"#, None));
    assert_eq!(status, 409);
    assert_eq!(body["code"], "ALREADY_REGISTERED");

    host.add_file("/srv/gameap/servers/cs2/up.zip", &catalog_zip());
    let (status, _) = body_json(cs2_addons::handlers::archive_install::handle(
        &mut host,
        &params("3"),
        br#"{"path": "up.zip", "force": true}"#,
        None,
    ));
    assert_eq!(status, 200);
}

#[test]
fn archive_install_rejects_escaping_paths() {
    let mut host = MockHost::cs2();
    with_css(&mut host);
    for path in ["../evil.zip", "/abs.zip", "a/../b.zip", "not-a-zip.rar"] {
        let body = format!(r#"{{"path": "{path}"}}"#);
        let (status, _) = body_json(cs2_addons::handlers::archive_install::handle(&mut host, &params("3"), body.as_bytes(), None));
        assert_eq!(status, 400, "{path} must be rejected");
    }
}

#[test]
fn archive_install_refuses_a_corrupt_zip_and_deletes_it() {
    let mut host = MockHost::cs2();
    with_css(&mut host);
    host.add_file("/srv/gameap/servers/cs2/bad.zip", b"not a zip");
    let (status, body) =
        body_json(cs2_addons::handlers::archive_install::handle(&mut host, &params("3"), br#"{"path": "bad.zip"}"#, None));
    assert_eq!(status, 422);
    assert_eq!(body["code"], "BAD_ARCHIVE");
    assert!(host.file("/srv/gameap/servers/cs2/bad.zip").is_none());
}

// ---------------------------------------------------------------- catalog

#[test]
fn catalog_install_downloads_and_registers() {
    let mut host = MockHost::cs2();
    with_css(&mut host);

    let release = br#"{"tag_name": "v0.9.1",
        "html_url": "https://github.com/shobhit-pathak/MatchZy/releases/tag/v0.9.1",
        "assets": [{"name": "MatchZy-0.9.1.zip", "browser_download_url": "https://example.com/MatchZy-0.9.1.zip"}]}"#;
    host.http_responses.insert(
        "https://api.github.com/repos/shobhit-pathak/MatchZy/releases/latest".into(),
        (200, release.to_vec()),
    );
    host.http_responses.insert("https://example.com/MatchZy-0.9.1.zip".into(), (200, catalog_zip()));

    let (status, body) = body_json(cs2_addons::handlers::catalog_routes::handle_install(
        &mut host,
        &params("3"),
        br#"{"key": "matchzy"}"#,
        Some("john"),
    ));
    assert_eq!(status, 200, "{body}");
    assert_eq!(body["folder"], "MatchZy");
    assert_eq!(body["version"], "0.9.1");
    assert_eq!(body["files_written"], 1);
    assert!(host.file(&format!("{GAME}/addons/counterstrikesharp/plugins/MatchZy/MatchZy.dll")).is_some());

    let manifest: Value = serde_json::from_slice(host.file(MANIFEST_ABS).expect("manifest")).expect("json");
    assert!(manifest["MatchZy"].is_object());
}

#[test]
fn catalog_list_serves_entries() {
    let mut host = MockHost::cs2();
    let (status, body) = body_json(cs2_addons::handlers::catalog_routes::handle_list(&mut host, &params("3")));
    assert_eq!(status, 200);
    assert!(body["entries"].as_array().expect("entries").len() >= 4);
    assert_eq!(body["entries"][0]["homepage"], "https://github.com/shobhit-pathak/MatchZy");
}

#[test]
fn catalog_install_rejects_unknown_keys() {
    let mut host = MockHost::cs2();
    with_css(&mut host);
    let (status, body) = body_json(cs2_addons::handlers::catalog_routes::handle_install(
        &mut host,
        &params("3"),
        br#"{"key": "nope"}"#,
        None,
    ));
    assert_eq!(status, 404);
    assert_eq!(body["code"], "CATALOG_KEY_UNKNOWN");
}

#[test]
fn catalog_install_snapshots_first() {
    let mut host = MockHost::cs2();
    with_css(&mut host);
    add_plugin(&mut host, "Existing");

    let release = br#"{"tag_name": "v1.0.0",
        "html_url": "https://github.com/shobhit-pathak/MatchZy/releases/tag/v1.0.0",
        "assets": [{"name": "MatchZy-1.0.0.zip", "browser_download_url": "https://example.com/mz.zip"}]}"#;
    host.http_responses.insert(
        "https://api.github.com/repos/shobhit-pathak/MatchZy/releases/latest".into(),
        (200, release.to_vec()),
    );
    host.http_responses.insert("https://example.com/mz.zip".into(), (200, catalog_zip()));

    let (status, _) = body_json(cs2_addons::handlers::catalog_routes::handle_install(
        &mut host,
        &params("3"),
        br#"{"key": "matchzy"}"#,
        Some("john"),
    ));
    assert_eq!(status, 200);
    assert!(host.execs.iter().any(|(cmd, _)| cmd.starts_with("tar -cf")), "an automatic snapshot must run before the install");
    let audit: Value = serde_json::from_slice(host.storage.get("audit:3").expect("audit")).expect("json");
    let actions: Vec<&str> = audit.as_array().expect("array").iter().filter_map(|entry| entry["action"].as_str()).collect();
    assert!(actions.contains(&"snapshot-auto"));
    assert!(actions.contains(&"catalog-install"));
}

// ---------------------------------------------------------------- updates

#[test]
fn updates_caches_and_serves_versions() {
    let mut host = MockHost::cs2();
    host.http_responses.insert(
        "https://mms.alliedmods.net/mmsdrop/2.0/mmsource-latest-linux".into(),
        (200, b"mmsource-2.0.0-git1359-linux.tar.gz".to_vec()),
    );
    let css_release = br#"{"tag_name": "v1.0.305",
        "html_url": "https://github.com/roflmuffin/CounterStrikeSharp/releases/tag/v1.0.305",
        "assets": [{"name": "counterstrikesharp-with-runtime-linux-1.0.305.zip", "browser_download_url": "https://example.com/css.zip"}]}"#;
    host.http_responses.insert(
        "https://api.github.com/repos/roflmuffin/CounterStrikeSharp/releases/latest".into(),
        (200, css_release.to_vec()),
    );

    let (status, body) = body_json(cs2_addons::handlers::updates::handle(&mut host, &params("3"), &Vec::new()));
    assert_eq!(status, 200);
    assert_eq!(body["metamod"]["version"], "2.0.0-git1359");
    assert_eq!(
        body["metamod"]["download_url"],
        "https://mms.alliedmods.net/mmsdrop/2.0/mmsource-2.0.0-git1359-linux.tar.gz"
    );
    assert_eq!(body["css"]["version"], "1.0.305");
    assert_eq!(body["stale"], false);

    let calls_before = host.http_calls.len();
    let (status, _) = body_json(cs2_addons::handlers::updates::handle(&mut host, &params("3"), &Vec::new()));
    assert_eq!(status, 200);
    assert_eq!(host.http_calls.len(), calls_before);

    // ?refresh=1 forces a fetch.
    let query = vec![("refresh".to_string(), vec!["1".to_string()])];
    let (status, _) = body_json(cs2_addons::handlers::updates::handle(&mut host, &params("3"), &query));
    assert_eq!(status, 200);
    assert!(host.http_calls.len() > calls_before);
}

// ---------------------------------------------------------------- platform install

#[test]
fn platform_install_metamod_downloads_on_node() {
    let mut host = MockHost::cs2();
    host.add_file(&format!("{GAME}/gameinfo.gi"), UNWIRED_GI);
    host.http_responses.insert(
        "https://mms.alliedmods.net/mmsdrop/2.0/mmsource-latest-linux".into(),
        (200, b"mmsource-2.0.0-git1359-linux.tar.gz".to_vec()),
    );
    host.add_file("/srv/gameap/servers/cs2/.cs2addons/mmsource.tar.gz", b"TARGZ");

    let (status, body) =
        body_json(cs2_addons::handlers::platform::handle(&mut host, &params("3"), br#"{"kind": "metamod"}"#, Some("john")));
    assert_eq!(status, 200, "{body}");
    assert_eq!(body["version"], "2.0.0-git1359");
    assert_eq!(body["gameinfo_patched"], true);

    let commands: Vec<&str> = host.execs.iter().map(|(cmd, _)| cmd.as_str()).collect();
    assert!(commands.iter().any(|cmd| cmd.starts_with("curl ")));
    assert!(commands.iter().any(|cmd| cmd.starts_with("tar -xzf")));
    assert!(is_metamod_wired(host.file(&format!("{GAME}/gameinfo.gi")).expect("gameinfo")));
}

#[test]
fn platform_install_refuses_paths_that_would_split_wrong() {
    let mut host = MockHost::cs2();
    if let Some(server) = host.servers.get_mut(&3) {
        server.dir = "servers/cs 2".into();
    }
    host.add_file("/srv/gameap/servers/cs 2/game/csgo/gameinfo.gi", b"SearchPaths\n{\n\tGame\tcsgo\n}\n");
    host.http_responses.insert(
        "https://mms.alliedmods.net/mmsdrop/2.0/mmsource-latest-linux".into(),
        (200, b"mmsource-2.0.0-git1359-linux.tar.gz".to_vec()),
    );

    let (status, body) =
        body_json(cs2_addons::handlers::platform::handle(&mut host, &params("3"), br#"{"kind": "metamod"}"#, None));
    assert_eq!(status, 422);
    assert_eq!(body["code"], "UNSAFE_PATH");
    assert!(host.execs.is_empty(), "no node command may run on an unsafe path");
}

#[test]
fn platform_install_rejects_unknown_kind() {
    let mut host = MockHost::cs2();
    let (status, _) =
        body_json(cs2_addons::handlers::platform::handle(&mut host, &params("3"), br#"{"kind": "sourcemod"}"#, None));
    assert_eq!(status, 400);
}

// ---------------------------------------------------------------- doctor

#[test]
fn doctor_flags_misplaced_folders_and_names_the_shared_dll() {
    let mut host = MockHost::cs2();
    with_css(&mut host);
    add_plugin(&mut host, "MatchZy");
    host.add_file(&format!("{GAME}/addons/counterstrikesharp/MenuManagerCore/MenuManagerCore.dll"), b"MZ");
    host.add_file(&format!("{GAME}/addons/counterstrikesharp/shared/GoldKingZ/GoldKingZ.Api.dll"), b"MZ");

    let (status, body) = body_json(cs2_addons::handlers::doctor::handle(&mut host, &params("3")));
    assert_eq!(status, 200);
    let checks = body["checks"].as_array().expect("checks");
    let by_id = |id: &str| checks.iter().find(|c| c["id"] == id).unwrap_or_else(|| panic!("{id} check present"));

    assert_eq!(by_id("stray")["status"], "fail");
    let stray_detail = by_id("stray")["detail"].as_str().expect("detail");
    assert!(stray_detail.contains("MenuManagerCore"), "{stray_detail}");

    assert_eq!(by_id("shared")["status"], "warn");
    let shared_detail = by_id("shared")["detail"].as_str().expect("detail");
    assert!(shared_detail.contains("GoldKingZ.Api.dll"), "{shared_detail}");
    assert!(shared_detail.contains("rename the folder to GoldKingZ.Api"), "{shared_detail}");
}

#[test]
fn doctor_flags_duplicates_and_unwired_gameinfo() {
    let mut host = MockHost::cs2();
    with_css(&mut host);
    host.add_dir(&format!("{GAME}/addons/metamod"));
    host.add_file(&format!("{GAME}/gameinfo.gi"), UNWIRED_GI);
    add_plugin(&mut host, "MatchZy");
    add_disabled_plugin(&mut host, "MatchZy");

    let (status, body) = body_json(cs2_addons::handlers::doctor::handle(&mut host, &params("3")));
    assert_eq!(status, 200);
    let checks = body["checks"].as_array().expect("checks");
    let by_id = |id: &str| checks.iter().find(|c| c["id"] == id).unwrap_or_else(|| panic!("{id} check present"));
    assert_eq!(by_id("gameinfo")["status"], "fail");
    assert_eq!(by_id("duplicates")["status"], "fail");
    assert_eq!(by_id("metamod")["status"], "ok");
    assert_eq!(by_id("css")["status"], "ok");
    assert_eq!(by_id("layout")["status"], "ok");
}

#[test]
fn doctor_all_green_on_healthy_server() {
    let mut host = MockHost::cs2();
    with_css(&mut host);
    host.add_dir(&format!("{GAME}/addons/metamod"));
    host.add_file(&format!("{GAME}/gameinfo.gi"), b"SearchPaths\n{\n\tGame\tcsgo/addons/metamod\n\tGame\tcsgo\n}\n");
    add_plugin(&mut host, "MatchZy");

    let (_, body) = body_json(cs2_addons::handlers::doctor::handle(&mut host, &params("3")));
    let checks = body["checks"].as_array().expect("checks");
    assert!(checks.iter().all(|c| c["status"] == "ok"), "expected all ok, got {body}");
}

// ---------------------------------------------------------------- audit route

#[test]
fn audit_route_returns_recorded_entries() {
    let mut host = MockHost::cs2();
    with_css(&mut host);
    add_plugin(&mut host, "MatchZy");

    let _ = body_json(cs2_addons::handlers::toggle::handle(
        &mut host,
        &params("3"),
        br#"{"name": "MatchZy", "enabled": false}"#,
        Some("john"),
    ));

    let (status, body) = body_json(cs2_addons::handlers::audit::handle(&mut host, &params("3")));
    assert_eq!(status, 200);
    assert_eq!(body["entries"][0]["action"], "plugin-disable");
    assert_eq!(body["entries"][0]["subject"], "MatchZy");
    assert_eq!(body["entries"][0]["user"], "john");
}

#[test]
fn audit_log_keeps_the_newest_hundred() {
    let mut host = MockHost::cs2();
    for i in 0..105 {
        cs2_addons::handlers::audit::record(&mut host, 3, None, "x", &format!("s{i}"));
    }
    let entries: Value = serde_json::from_slice(host.storage.get("audit:3").expect("audit")).expect("json");
    let entries = entries.as_array().expect("array");
    assert_eq!(entries.len(), 100);
    assert_eq!(entries[0]["subject"], "s104");
    assert_eq!(entries[0]["user"], "unknown");
}

// ------------------------------------------- archive entry size guard

fn sized_entry(path: &str, len: u64) -> ArchiveEntry {
    ArchiveEntry { path: path.to_string(), data: vec![0u8; len as usize], mode: 0o644 }
}

#[test]
fn an_entry_over_the_panel_inline_limit_is_refused_before_anything_is_written() {
    let mut host = MockHost::cs2();
    with_css(&mut host);
    let ctx = ServerCtx::resolve(&mut host, &params("3")).ok().expect("ctx");
    let before = host.files.len();

    let entries = vec![
        sized_entry("ok.txt", 8),
        sized_entry("huge.bin", cs2_addons::handlers::PANEL_MAX_INLINE_BYTES + 1),
    ];

    let err = cs2_addons::handlers::write_archive_entries(&mut host, &ctx, &entries, &InstallRoot::GameDir)
        .err()
        .expect("an entry over the inline limit must be refused");

    assert_eq!(err.status, 422);
    assert_eq!(host.files.len(), before, "nothing may be written");
}

#[test]
fn an_entry_exactly_at_the_panel_inline_limit_is_written() {
    let mut host = MockHost::cs2();
    with_css(&mut host);
    let ctx = ServerCtx::resolve(&mut host, &params("3")).ok().expect("ctx");

    let entries = vec![sized_entry("exact.bin", cs2_addons::handlers::PANEL_MAX_INLINE_BYTES)];

    let written = cs2_addons::handlers::write_archive_entries(&mut host, &ctx, &entries, &InstallRoot::GameDir)
        .ok()
        .expect("the boundary value is not over the limit");

    assert_eq!(written, 1);
}

// ---------------------------------------------------------------- maintenance

#[test]
fn sweep_repairs_only_unwired_servers_with_metamod() {
    let mut host = MockHost::cs2();
    host.add_dir(&format!("{GAME}/addons/metamod"));
    host.add_file(&format!("{GAME}/gameinfo.gi"), b"SearchPaths\n{\n\tGame\tcsgo\n}\n");

    let stats = autorepair_sweep(&mut host);
    assert_eq!(stats.checked, 1);
    assert_eq!(stats.repaired, 1);
    assert_eq!(stats.failed, 0);

    let patched = host.file(&format!("{GAME}/gameinfo.gi")).expect("gameinfo");
    assert!(is_metamod_wired(patched));

    let again = autorepair_sweep(&mut host);
    assert_eq!(again.repaired, 0);
}

#[test]
fn sweep_skips_servers_without_metamod() {
    let mut host = MockHost::cs2();
    host.add_file(&format!("{GAME}/gameinfo.gi"), b"SearchPaths\n{\n\tGame\tcsgo\n}\n");
    let stats = autorepair_sweep(&mut host);
    assert_eq!(stats.checked, 1);
    assert_eq!(stats.repaired, 0);
}

#[test]
fn failure_texts_carry_the_exit_code() {
    assert_eq!(i32_text(-2147483648), "-2147483648");
    assert_eq!(i32_text(0), "0");
    assert_eq!(exit_failure(2, "boom"), "exit 2: boom");
    assert_eq!(tar_failure(-1, "no space"), "tar failed (exit -1): no space");
}

#[test]
fn toggle_refuses_to_overwrite_an_existing_target() {
    let mut host = MockHost::cs2();
    with_css(&mut host);
    add_plugin(&mut host, "MatchZy");
    add_disabled_plugin(&mut host, "MatchZy");
    let (status, body) = body_json(cs2_addons::handlers::toggle::handle(
        &mut host,
        &params("3"),
        br#"{"name": "MatchZy", "enabled": false}"#,
        None,
    ));
    assert_eq!(status, 409);
    assert_eq!(body["code"], "TARGET_EXISTS");
    assert!(host.moves.is_empty());
}

#[test]
fn snapshot_create_with_no_member_dirs_is_refused() {
    let mut host = MockHost::cs2();
    host.add_dir(&format!("{GAME}/addons/counterstrikesharp"));
    let (status, body) = body_json(cs2_addons::handlers::snapshots::handle_create(&mut host, &params("3"), None));
    assert_eq!(status, 422);
    assert_eq!(body["code"], "NOTHING_TO_SNAPSHOT");
    assert!(host.execs.is_empty());
}

#[test]
fn snapshot_restore_of_a_missing_archive_is_404() {
    let mut host = MockHost::cs2();
    with_css(&mut host);
    add_plugin(&mut host, "MatchZy");
    let (status, body) = body_json(cs2_addons::handlers::snapshots::handle_restore(
        &mut host,
        &params("3"),
        br#"{"name": "snap-1"}"#,
        None,
    ));
    assert_eq!(status, 404);
    assert_eq!(body["code"], "SNAPSHOT_NOT_FOUND");
    assert!(host.execs.is_empty());
    assert!(host.file(&format!("{GAME}/addons/counterstrikesharp/plugins/MatchZy/MatchZy.dll")).is_some());
}

#[test]
fn resolve_scans_game_for_the_folder_holding_gameinfo() {
    let mut host = MockHost::default();
    host.servers.insert(7, ServerInfo { id: 7, game_code: "mygame".into(), node_id: 1, dir: "servers/x".into() });
    host.games.insert(
        "mygame".into(),
        GameInfo { code: "mygame".into(), name: "Mod".into(), engine: "Source".into(), engine_version: "2.0".into() },
    );
    host.nodes.insert(1, NodeInfo { id: 1, os: "linux".into(), work_path: "/srv".into() });
    host.add_dir("/srv/servers/x/game/core");
    host.add_file("/srv/servers/x/game/mod/gameinfo.gi", b"\"GameInfo\"\n{\n}\n");
    let ctx = ServerCtx::resolve(&mut host, &params("7")).ok().expect("resolved");
    assert_eq!(ctx.game_dir, "game/mod");
    assert_eq!(ctx.game_abs, "/srv/servers/x/game/mod");
}

#[test]
fn resolve_without_gameinfo_is_422() {
    let mut host = MockHost::default();
    host.servers.insert(7, ServerInfo { id: 7, game_code: "mygame".into(), node_id: 1, dir: "servers/x".into() });
    host.games.insert(
        "mygame".into(),
        GameInfo { code: "mygame".into(), name: "Mod".into(), engine: "source".into(), engine_version: "2".into() },
    );
    host.nodes.insert(1, NodeInfo { id: 1, os: "linux".into(), work_path: "/srv".into() });
    host.add_dir("/srv/servers/x/game/core");
    let (status, body) = body_json(cs2_addons::handlers::state::handle(&mut host, &params("7")));
    assert_eq!(status, 422);
    assert_eq!(body["code"], "GAME_DIR_NOT_FOUND");
}

#[test]
fn string_equality_compares_characters() {
    assert!(cs2_addons::text::str_eq("MatchZy", "MatchZy"));
    assert!(!cs2_addons::text::str_eq("MatchZy", "matchzy"));
    assert!(!cs2_addons::text::str_eq("", "a"));
}

#[test]
fn snapshot_listing_reports_each_archive_size() {
    let mut host = MockHost::cs2();
    host.add_file(&format!("{GAME}/addons/counterstrikesharp/backups/snap-7.tar"), b"TARBYTES");
    let (status, body) = body_json(cs2_addons::handlers::snapshots::handle_list(&mut host, &params("3")));
    assert_eq!(status, 200);
    assert_eq!(body["snapshots"][0]["name"], "snap-7");
    assert_eq!(body["snapshots"][0]["size"], 8);
}
