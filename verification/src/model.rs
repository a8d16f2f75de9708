//! Request and response bodies of the plugin API, with their JSON shapes.

use vstd::prelude::*;

use crate::http::{body_object, bool_field, opt_str, opt_str_field, parse_object_body, req_bool, req_str, str_field, ApiError};
use crate::json::{jnum, jstr, number_as_u64, Json};

verus! {

pub fn jbool(b: bool) -> (j: Json)
    ensures
        j == Json::Bool(b),
{
    Json::Bool(b)
}

/// `null` for `None`, a string otherwise.
pub fn jopt(s: &Option<String>) -> (j: Json)
    ensures
        s is None ==> j == Json::Null,
        s matches Some(t) ==> (j matches Json::Str(u) && u@ == t@),
{
    match s {
        Some(t) => jstr(t.as_str()),
        None => Json::Null,
    }
}

/// A member `key: value`.
pub fn kv(key: &str, value: Json) -> (m: (String, Json))
    ensures
        m.0@ == key@,
        m.1 == value,
{
    (key.to_owned(), value)
}

/// The keys of an object's members, in order.
pub open spec fn member_keys(m: Seq<(String, Json)>) -> Seq<Seq<char>> {
    m.map_values(|p: (String, Json)| p.0@)
}

/// `j` is the JSON string `s`.
pub open spec fn str_json(j: Json, s: Seq<char>) -> bool {
    j matches Json::Str(t) && t@ == s
}

/// `j` is a JSON number that reads as `x`.
pub open spec fn u64_json(j: Json, x: u64) -> bool {
    j matches Json::Number(n) && number_as_u64(n) == Some(x)
}

/// `j` is `null` for `None` and the JSON string otherwise.
pub open spec fn opt_json(j: Json, o: Option<String>) -> bool {
    match o {
        Some(t) => str_json(j, t@),
        None => j == Json::Null,
    }
}

/// `j` is the JSON array of the strings `items`.
pub open spec fn strs_json(j: Json, items: Seq<String>) -> bool {
    j matches Json::Array(v) && v@.len() == items.len() && forall|i: int| 0 <= i < v@.len() ==> #[trigger] str_json(v@[i], items[i]@)
}

/// An array of strings.
pub fn jstrs(items: &Vec<String>) -> (j: Json)
    ensures
        strs_json(j, items@),
{
    let mut v: Vec<Json> = Vec::new();
    let mut i: usize = 0;
    while i < items.len()
        invariant
            i <= items@.len(),
            v@.len() == i,
            forall|k: int| 0 <= k < i ==> #[trigger] str_json(v@[k], items@[k]@),
        decreases items@.len() - i,
    {
        v.push(jstr(items[i].as_str()));
        i = i + 1;
    }
    Json::Array(v)
}

// ---------------------------------------------------------------- requests

pub struct ToggleRequest {
    /// Plugin folder name inside addons/counterstrikesharp/plugins.
    pub name: String,
    pub enabled: bool,
}

/// `{name: string, enabled: bool}`.
pub open spec fn toggle_request(body: Seq<u8>) -> Option<(Seq<char>, bool)> {
    match body_object(body) {
        Some(m) => match (str_field(m, "name"@), bool_field(m, "enabled"@, None)) {
            (Some(n), Some(e)) => Some((n, e)),
            _ => None,
        },
        None => None,
    }
}

impl ToggleRequest {
    pub fn parse(body: &[u8]) -> (r: Result<ToggleRequest, ApiError>)
        ensures
            toggle_request(body@) is Some ==> (r matches Ok(q) && (q.name@, q.enabled) == toggle_request(body@).unwrap()),
            toggle_request(body@) is None ==> (r matches Err(e) && e.status == 400),
    {
        let m = parse_object_body(body)?;
        let name = req_str(&m, "name")?;
        let enabled = req_bool(&m, "enabled", None)?;
        Ok(ToggleRequest { name, enabled })
    }
}

/// A request naming one thing: `{<key>: string}`.
pub open spec fn name_request(body: Seq<u8>, key: Seq<char>) -> Option<Seq<char>> {
    match body_object(body) {
        Some(m) => str_field(m, key),
        None => None,
    }
}

/// A request naming one thing with an optional `force` flag.
pub open spec fn forced_request(body: Seq<u8>, key: Seq<char>) -> Option<(Seq<char>, bool)> {
    match body_object(body) {
        Some(m) => match (str_field(m, key), bool_field(m, "force"@, Some(false))) {
            (Some(n), Some(f)) => Some((n, f)),
            _ => None,
        },
        None => None,
    }
}

/// The string field `key` of a request body; 400 when it is missing.
pub fn parse_name(body: &[u8], key: &str) -> (r: Result<String, ApiError>)
    ensures
        name_request(body@, key@) is Some ==> (r matches Ok(n) && n@ == name_request(body@, key@).unwrap()),
        name_request(body@, key@) is None ==> (r matches Err(e) && e.status == 400),
{
    let m = parse_object_body(body)?;
    req_str(&m, key)
}

/// The string field `key` and the `force` flag (default false).
pub fn parse_forced(body: &[u8], key: &str) -> (r: Result<(String, bool), ApiError>)
    ensures
        forced_request(body@, key@) is Some ==> (r matches Ok(q) && (q.0@, q.1) == forced_request(body@, key@).unwrap()),
        forced_request(body@, key@) is None ==> (r matches Err(e) && e.status == 400),
{
    let m = parse_object_body(body)?;
    let name = req_str(&m, key)?;
    let force = req_bool(&m, "force", Some(false))?;
    Ok((name, force))
}

pub struct SetAttributesRequest {
    pub name: String,
    /// Full desired comment; `null`/absent clears it.
    pub comment: Option<String>,
    /// Full desired group; `null`/absent clears it.
    pub group: Option<String>,
}

pub open spec fn attributes_request(body: Seq<u8>) -> Option<(Seq<char>, Option<Seq<char>>, Option<Seq<char>>)> {
    match body_object(body) {
        Some(m) => match (str_field(m, "name"@), opt_str_field(m, "comment"@), opt_str_field(m, "group"@)) {
            (Some(n), Some(c), Some(g)) => Some((n, c, g)),
            _ => None,
        },
        None => None,
    }
}

pub open spec fn opt_view(s: Option<String>) -> Option<Seq<char>> {
    match s {
        Some(t) => Some(t@),
        None => None,
    }
}

impl SetAttributesRequest {
    pub fn parse(body: &[u8]) -> (r: Result<SetAttributesRequest, ApiError>)
        ensures
            attributes_request(body@) is Some ==> (r matches Ok(q)
                && (q.name@, opt_view(q.comment), opt_view(q.group)) == attributes_request(body@).unwrap()),
            attributes_request(body@) is None ==> (r matches Err(e) && e.status == 400),
    {
        let m = parse_object_body(body)?;
        let name = req_str(&m, "name")?;
        let comment = opt_str(&m, "comment")?;
        let group = opt_str(&m, "group")?;
        Ok(SetAttributesRequest { name, comment, group })
    }
}

pub struct MetamodToggleRequest {
    /// VDF stem inside addons/metamod (no extension).
    pub name: String,
    pub enabled: bool,
    /// Required to disable the CounterStrikeSharp alias, which is a
    /// platform-wide off switch rather than a per-plugin one.
    pub force: bool,
}

pub open spec fn metamod_request(body: Seq<u8>) -> Option<(Seq<char>, bool, bool)> {
    match body_object(body) {
        Some(m) => match (str_field(m, "name"@), bool_field(m, "enabled"@, None), bool_field(m, "force"@, Some(false))) {
            (Some(n), Some(e), Some(f)) => Some((n, e, f)),
            _ => None,
        },
        None => None,
    }
}

impl MetamodToggleRequest {
    pub fn parse(body: &[u8]) -> (r: Result<MetamodToggleRequest, ApiError>)
        ensures
            metamod_request(body@) is Some ==> (r matches Ok(q) && (q.name@, q.enabled, q.force) == metamod_request(body@).unwrap()),
            metamod_request(body@) is None ==> (r matches Err(e) && e.status == 400),
    {
        let m = parse_object_body(body)?;
        let name = req_str(&m, "name")?;
        let enabled = req_bool(&m, "enabled", None)?;
        let force = req_bool(&m, "force", Some(false))?;
        Ok(MetamodToggleRequest { name, enabled, force })
    }
}

pub struct AddPluginRequest {
    /// Plugin folder name; `<name>/<name>.dll` must already be uploaded.
    pub name: String,
    /// Re-register an already known plugin instead of failing with 409.
    pub force: bool,
}

impl AddPluginRequest {
    pub fn parse(body: &[u8]) -> (r: Result<AddPluginRequest, ApiError>)
        ensures
            forced_request(body@, "name"@) is Some ==> (r matches Ok(q) && (q.name@, q.force) == forced_request(body@, "name"@).unwrap()),
            forced_request(body@, "name"@) is None ==> (r matches Err(e) && e.status == 400),
    {
        let (name, force) = parse_forced(body, "name")?;
        Ok(AddPluginRequest { name, force })
    }
}

pub struct RemovePluginRequest {
    pub name: String,
}

impl RemovePluginRequest {
    pub fn parse(body: &[u8]) -> (r: Result<RemovePluginRequest, ApiError>)
        ensures
            name_request(body@, "name"@) is Some ==> (r matches Ok(q) && q.name@ == name_request(body@, "name"@).unwrap()),
            name_request(body@, "name"@) is None ==> (r matches Err(e) && e.status == 400),
    {
        let name = parse_name(body, "name")?;
        Ok(RemovePluginRequest { name })
    }
}

pub struct CatalogInstallRequest {
    pub key: String,
}

impl CatalogInstallRequest {
    pub fn parse(body: &[u8]) -> (r: Result<CatalogInstallRequest, ApiError>)
        ensures
            name_request(body@, "key"@) is Some ==> (r matches Ok(q) && q.key@ == name_request(body@, "key"@).unwrap()),
            name_request(body@, "key"@) is None ==> (r matches Err(e) && e.status == 400),
    {
        let key = parse_name(body, "key")?;
        Ok(CatalogInstallRequest { key })
    }
}

pub struct PlatformInstallRequest {
    /// "metamod" or "css".
    pub kind: String,
}

impl PlatformInstallRequest {
    pub fn parse(body: &[u8]) -> (r: Result<PlatformInstallRequest, ApiError>)
        ensures
            name_request(body@, "kind"@) is Some ==> (r matches Ok(q) && q.kind@ == name_request(body@, "kind"@).unwrap()),
            name_request(body@, "kind"@) is None ==> (r matches Err(e) && e.status == 400),
    {
        let kind = parse_name(body, "kind")?;
        Ok(PlatformInstallRequest { kind })
    }
}

pub struct SnapshotNameRequest {
    pub name: String,
}

impl SnapshotNameRequest {
    pub fn parse(body: &[u8]) -> (r: Result<SnapshotNameRequest, ApiError>)
        ensures
            name_request(body@, "name"@) is Some ==> (r matches Ok(q) && q.name@ == name_request(body@, "name"@).unwrap()),
            name_request(body@, "name"@) is None ==> (r matches Err(e) && e.status == 400),
    {
        let name = parse_name(body, "name")?;
        Ok(SnapshotNameRequest { name })
    }
}

pub struct InstallArchiveRequest {
    /// Server-dir-relative path of the uploaded .zip.
    pub path: String,
    /// Overwrite already-installed plugins instead of failing with 409.
    pub force: bool,
}

impl InstallArchiveRequest {
    pub fn parse(body: &[u8]) -> (r: Result<InstallArchiveRequest, ApiError>)
        ensures
            forced_request(body@, "path"@) is Some ==> (r matches Ok(q) && (q.path@, q.force) == forced_request(body@, "path"@).unwrap()),
            forced_request(body@, "path"@) is None ==> (r matches Err(e) && e.status == 400),
    {
        let (path, force) = parse_forced(body, "path")?;
        Ok(InstallArchiveRequest { path, force })
    }
}

// ---------------------------------------------------------------- responses

pub struct StateResponse {
    pub server_id: u64,
    pub game_code: String,
    pub engine: String,
    pub engine_version: String,
    /// Server-dir-relative game directory, e.g. "game/csgo".
    pub game_dir: String,
    pub paths: StatePaths,
    pub metamod: MetamodState,
    pub css: CssState,
}

impl StateResponse {
    /// Whether `j` is this value's JSON object: its fields in declaration
    /// order, each under its own name.
    pub open spec fn json_is(&self, j: Json) -> bool {
        match j {
            Json::Object(m) => {
                &&& member_keys(m@) == seq!["server_id"@, "game_code"@, "engine"@, "engine_version"@, "game_dir"@, "paths"@, "metamod"@, "css"@]
                &&& u64_json(m@[0].1, self.server_id)
                &&& str_json(m@[1].1, self.game_code@)
                &&& str_json(m@[2].1, self.engine@)
                &&& str_json(m@[3].1, self.engine_version@)
                &&& str_json(m@[4].1, self.game_dir@)
                &&& self.paths.json_is(m@[5].1)
                &&& self.metamod.json_is(m@[6].1)
                &&& self.css.json_is(m@[7].1)
            },
            _ => false,
        }
    }

    /// The JSON object of the fields, in declaration order.
    pub fn to_json(&self) -> (j: Json)
        ensures
            self.json_is(j),
    {
        let mut m: Vec<(String, Json)> = Vec::new();
        m.push(kv("server_id", jnum(self.server_id)));
        m.push(kv("game_code", jstr(self.game_code.as_str())));
        m.push(kv("engine", jstr(self.engine.as_str())));
        m.push(kv("engine_version", jstr(self.engine_version.as_str())));
        m.push(kv("game_dir", jstr(self.game_dir.as_str())));
        m.push(kv("paths", self.paths.to_json()));
        m.push(kv("metamod", self.metamod.to_json()));
        m.push(kv("css", self.css.to_json()));
        proof {
            assert(member_keys(m@) =~= seq!["server_id"@, "game_code"@, "engine"@, "engine_version"@, "game_dir"@, "paths"@, "metamod"@, "css"@]);
        }
        Json::Object(m)
    }
}

/// All paths are relative to the server directory, ready for the panel
/// file-manager API as they are.
pub struct StatePaths {
    pub gameinfo: String,
    pub metamod_dir: String,
    pub css_dir: String,
    pub css_plugins_dir: String,
    pub css_disabled_dir: String,
    pub css_configs_dir: String,
    pub meta_manifest: String,
}

impl StatePaths {
    /// Whether `j` is this value's JSON object: its fields in declaration
    /// order, each under its own name.
    pub open spec fn json_is(&self, j: Json) -> bool {
        match j {
            Json::Object(m) => {
                &&& member_keys(m@) == seq!["gameinfo"@, "metamod_dir"@, "css_dir"@, "css_plugins_dir"@, "css_disabled_dir"@, "css_configs_dir"@, "meta_manifest"@]
                &&& str_json(m@[0].1, self.gameinfo@)
                &&& str_json(m@[1].1, self.metamod_dir@)
                &&& str_json(m@[2].1, self.css_dir@)
                &&& str_json(m@[3].1, self.css_plugins_dir@)
                &&& str_json(m@[4].1, self.css_disabled_dir@)
                &&& str_json(m@[5].1, self.css_configs_dir@)
                &&& str_json(m@[6].1, self.meta_manifest@)
            },
            _ => false,
        }
    }

    /// The JSON object of the fields, in declaration order.
    pub fn to_json(&self) -> (j: Json)
        ensures
            self.json_is(j),
    {
        let mut m: Vec<(String, Json)> = Vec::new();
        m.push(kv("gameinfo", jstr(self.gameinfo.as_str())));
        m.push(kv("metamod_dir", jstr(self.metamod_dir.as_str())));
        m.push(kv("css_dir", jstr(self.css_dir.as_str())));
        m.push(kv("css_plugins_dir", jstr(self.css_plugins_dir.as_str())));
        m.push(kv("css_disabled_dir", jstr(self.css_disabled_dir.as_str())));
        m.push(kv("css_configs_dir", jstr(self.css_configs_dir.as_str())));
        m.push(kv("meta_manifest", jstr(self.meta_manifest.as_str())));
        proof {
            assert(member_keys(m@) =~= seq!["gameinfo"@, "metamod_dir"@, "css_dir"@, "css_plugins_dir"@, "css_disabled_dir"@, "css_configs_dir"@, "meta_manifest"@]);
        }
        Json::Object(m)
    }
}

pub struct MetamodState {
    /// addons/metamod exists and gameinfo.gi loads it.
    pub installed: bool,
    /// The addons/metamod directory exists.
    pub dir_present: bool,
    /// gameinfo.gi holds the csgo/addons/metamod search path.
    pub gameinfo_wired: bool,
    /// Binary Metamod plugins registered through addons/metamod/*.vdf.
    pub plugins: Vec<MetamodPluginEntry>,
}

impl MetamodState {
    /// Whether `j` is this value's JSON object: its fields in declaration
    /// order, each under its own name.
    pub open spec fn json_is(&self, j: Json) -> bool {
        match j {
            Json::Object(m) => {
                &&& member_keys(m@) == seq!["installed"@, "dir_present"@, "gameinfo_wired"@, "plugins"@]
                &&& m@[0].1 == Json::Bool(self.installed)
                &&& m@[1].1 == Json::Bool(self.dir_present)
                &&& m@[2].1 == Json::Bool(self.gameinfo_wired)
                &&& (m@[3].1 matches Json::Array(items) && items@.len() == self.plugins@.len() && forall|i: int| 0 <= i < items@.len() ==> #[trigger] self.plugins@[i].json_is(items@[i]))
            },
            _ => false,
        }
    }

    /// The JSON object of the fields, in declaration order.
    pub fn to_json(&self) -> (j: Json)
        ensures
            self.json_is(j),
    {
        let mut items_plugins: Vec<Json> = Vec::new();
        let mut i_plugins: usize = 0;
        while i_plugins < self.plugins.len()
            invariant
                i_plugins <= self.plugins@.len(),
                items_plugins@.len() == i_plugins,
                forall|i: int| 0 <= i < i_plugins ==> #[trigger] self.plugins@[i].json_is(items_plugins@[i]),
            decreases self.plugins@.len() - i_plugins,
        {
            items_plugins.push(self.plugins[i_plugins].to_json());
            i_plugins = i_plugins + 1;
        }
        let mut m: Vec<(String, Json)> = Vec::new();
        m.push(kv("installed", jbool(self.installed)));
        m.push(kv("dir_present", jbool(self.dir_present)));
        m.push(kv("gameinfo_wired", jbool(self.gameinfo_wired)));
        m.push(kv("plugins", Json::Array(items_plugins)));
        proof {
            assert(member_keys(m@) =~= seq!["installed"@, "dir_present"@, "gameinfo_wired"@, "plugins"@]);
        }
        Json::Object(m)
    }
}

/// A Metamod plugin registered through a `.vdf` alias.
pub struct MetamodPluginEntry {
    /// VDF file stem, e.g. "counterstrikesharp".
    pub name: String,
    /// The .vdf is live (not renamed to .vdf.disabled).
    pub enabled: bool,
    /// This alias is CounterStrikeSharp itself; switching it off unloads
    /// the platform.
    pub platform: bool,
}

impl MetamodPluginEntry {
    /// Whether `j` is this value's JSON object: its fields in declaration
    /// order, each under its own name.
    pub open spec fn json_is(&self, j: Json) -> bool {
        match j {
            Json::Object(m) => {
                &&& member_keys(m@) == seq!["name"@, "enabled"@, "platform"@]
                &&& str_json(m@[0].1, self.name@)
                &&& m@[1].1 == Json::Bool(self.enabled)
                &&& m@[2].1 == Json::Bool(self.platform)
            },
            _ => false,
        }
    }

    /// The JSON object of the fields, in declaration order.
    pub fn to_json(&self) -> (j: Json)
        ensures
            self.json_is(j),
    {
        let mut m: Vec<(String, Json)> = Vec::new();
        m.push(kv("name", jstr(self.name.as_str())));
        m.push(kv("enabled", jbool(self.enabled)));
        m.push(kv("platform", jbool(self.platform)));
        proof {
            assert(member_keys(m@) =~= seq!["name"@, "enabled"@, "platform"@]);
        }
        Json::Object(m)
    }
}

pub struct CssState {
    /// addons/counterstrikesharp exists.
    pub installed: bool,
    pub plugins: Vec<CssPluginEntry>,
}

impl CssState {
    /// Whether `j` is this value's JSON object: its fields in declaration
    /// order, each under its own name.
    pub open spec fn json_is(&self, j: Json) -> bool {
        match j {
            Json::Object(m) => {
                &&& member_keys(m@) == seq!["installed"@, "plugins"@]
                &&& m@[0].1 == Json::Bool(self.installed)
                &&& (m@[1].1 matches Json::Array(items) && items@.len() == self.plugins@.len() && forall|i: int| 0 <= i < items@.len() ==> #[trigger] self.plugins@[i].json_is(items@[i]))
            },
            _ => false,
        }
    }

    /// The JSON object of the fields, in declaration order.
    pub fn to_json(&self) -> (j: Json)
        ensures
            self.json_is(j),
    {
        let mut items_plugins: Vec<Json> = Vec::new();
        let mut i_plugins: usize = 0;
        while i_plugins < self.plugins.len()
            invariant
                i_plugins <= self.plugins@.len(),
                items_plugins@.len() == i_plugins,
                forall|i: int| 0 <= i < i_plugins ==> #[trigger] self.plugins@[i].json_is(items_plugins@[i]),
            decreases self.plugins@.len() - i_plugins,
        {
            items_plugins.push(self.plugins[i_plugins].to_json());
            i_plugins = i_plugins + 1;
        }
        let mut m: Vec<(String, Json)> = Vec::new();
        m.push(kv("installed", jbool(self.installed)));
        m.push(kv("plugins", Json::Array(items_plugins)));
        proof {
            assert(member_keys(m@) =~= seq!["installed"@, "plugins"@]);
        }
        Json::Object(m)
    }
}

/// A plugin folder row of the state response.
pub struct CssPluginEntry {
    /// Plugin folder name, the stable identity of a CounterStrikeSharp plugin.
    pub name: String,
    /// The folder is in plugins/ (not parked in plugins/disabled/).
    pub enabled: bool,
    /// `<name>/<name>.dll` is missing, or, for manifest-only entries, the
    /// whole folder is gone.
    pub missing: bool,
    /// Free-text note from plugins_meta.json.
    pub comment: Option<String>,
    /// Group name from plugins_meta.json.
    pub group: Option<String>,
    pub has_config: bool,
    /// Server-dir-relative path of `configs/plugins/<name>/<name>.json`.
    pub config_path: Option<String>,
    /// Index of the display group; ungrouped entries share `u32::MAX`.
    pub group_index: u32,
    /// Header of the display group, `None` for the common "Other" group.
    pub group_title: Option<String>,
}

impl CssPluginEntry {
    /// Whether `j` is this value's JSON object: its fields in declaration
    /// order, each under its own name.
    pub open spec fn json_is(&self, j: Json) -> bool {
        match j {
            Json::Object(m) => {
                &&& member_keys(m@) == seq!["name"@, "enabled"@, "missing"@, "comment"@, "group"@, "has_config"@, "config_path"@, "group_index"@, "group_title"@]
                &&& str_json(m@[0].1, self.name@)
                &&& m@[1].1 == Json::Bool(self.enabled)
                &&& m@[2].1 == Json::Bool(self.missing)
                &&& opt_json(m@[3].1, self.comment)
                &&& opt_json(m@[4].1, self.group)
                &&& m@[5].1 == Json::Bool(self.has_config)
                &&& opt_json(m@[6].1, self.config_path)
                &&& u64_json(m@[7].1, self.group_index as u64)
                &&& opt_json(m@[8].1, self.group_title)
            },
            _ => false,
        }
    }

    /// The JSON object of the fields, in declaration order.
    pub fn to_json(&self) -> (j: Json)
        ensures
            self.json_is(j),
    {
        let mut m: Vec<(String, Json)> = Vec::new();
        m.push(kv("name", jstr(self.name.as_str())));
        m.push(kv("enabled", jbool(self.enabled)));
        m.push(kv("missing", jbool(self.missing)));
        m.push(kv("comment", jopt(&self.comment)));
        m.push(kv("group", jopt(&self.group)));
        m.push(kv("has_config", jbool(self.has_config)));
        m.push(kv("config_path", jopt(&self.config_path)));
        m.push(kv("group_index", jnum(self.group_index as u64)));
        m.push(kv("group_title", jopt(&self.group_title)));
        proof {
            assert(member_keys(m@) =~= seq!["name"@, "enabled"@, "missing"@, "comment"@, "group"@, "has_config"@, "config_path"@, "group_index"@, "group_title"@]);
        }
        Json::Object(m)
    }
}

pub struct ToggleResponse {
    pub name: String,
    pub enabled: bool,
    pub changed: bool,
}

impl ToggleResponse {
    /// Whether `j` is this value's JSON object: its fields in declaration
    /// order, each under its own name.
    pub open spec fn json_is(&self, j: Json) -> bool {
        match j {
            Json::Object(m) => {
                &&& member_keys(m@) == seq!["name"@, "enabled"@, "changed"@]
                &&& str_json(m@[0].1, self.name@)
                &&& m@[1].1 == Json::Bool(self.enabled)
                &&& m@[2].1 == Json::Bool(self.changed)
            },
            _ => false,
        }
    }

    /// The JSON object of the fields, in declaration order.
    pub fn to_json(&self) -> (j: Json)
        ensures
            self.json_is(j),
    {
        let mut m: Vec<(String, Json)> = Vec::new();
        m.push(kv("name", jstr(self.name.as_str())));
        m.push(kv("enabled", jbool(self.enabled)));
        m.push(kv("changed", jbool(self.changed)));
        proof {
            assert(member_keys(m@) =~= seq!["name"@, "enabled"@, "changed"@]);
        }
        Json::Object(m)
    }
}

pub struct AddPluginResponse {
    pub name: String,
    /// True when the plugin was already known (force re-register).
    pub replaced: bool,
}

impl AddPluginResponse {
    /// Whether `j` is this value's JSON object: its fields in declaration
    /// order, each under its own name.
    pub open spec fn json_is(&self, j: Json) -> bool {
        match j {
            Json::Object(m) => {
                &&& member_keys(m@) == seq!["name"@, "replaced"@]
                &&& str_json(m@[0].1, self.name@)
                &&& m@[1].1 == Json::Bool(self.replaced)
            },
            _ => false,
        }
    }

    /// The JSON object of the fields, in declaration order.
    pub fn to_json(&self) -> (j: Json)
        ensures
            self.json_is(j),
    {
        let mut m: Vec<(String, Json)> = Vec::new();
        m.push(kv("name", jstr(self.name.as_str())));
        m.push(kv("replaced", jbool(self.replaced)));
        proof {
            assert(member_keys(m@) =~= seq!["name"@, "replaced"@]);
        }
        Json::Object(m)
    }
}

pub struct RemovePluginResponse {
    pub name: String,
    pub folder_deleted: bool,
    pub entry_removed: bool,
}

impl RemovePluginResponse {
    /// Whether `j` is this value's JSON object: its fields in declaration
    /// order, each under its own name.
    pub open spec fn json_is(&self, j: Json) -> bool {
        match j {
            Json::Object(m) => {
                &&& member_keys(m@) == seq!["name"@, "folder_deleted"@, "entry_removed"@]
                &&& str_json(m@[0].1, self.name@)
                &&& m@[1].1 == Json::Bool(self.folder_deleted)
                &&& m@[2].1 == Json::Bool(self.entry_removed)
            },
            _ => false,
        }
    }

    /// The JSON object of the fields, in declaration order.
    pub fn to_json(&self) -> (j: Json)
        ensures
            self.json_is(j),
    {
        let mut m: Vec<(String, Json)> = Vec::new();
        m.push(kv("name", jstr(self.name.as_str())));
        m.push(kv("folder_deleted", jbool(self.folder_deleted)));
        m.push(kv("entry_removed", jbool(self.entry_removed)));
        proof {
            assert(member_keys(m@) =~= seq!["name"@, "folder_deleted"@, "entry_removed"@]);
        }
        Json::Object(m)
    }
}

pub struct SetAttributesResponse {
    pub name: String,
    pub comment: Option<String>,
    pub group: Option<String>,
    pub changed: bool,
}

impl SetAttributesResponse {
    /// Whether `j` is this value's JSON object: its fields in declaration
    /// order, each under its own name.
    pub open spec fn json_is(&self, j: Json) -> bool {
        match j {
            Json::Object(m) => {
                &&& member_keys(m@) == seq!["name"@, "comment"@, "group"@, "changed"@]
                &&& str_json(m@[0].1, self.name@)
                &&& opt_json(m@[1].1, self.comment)
                &&& opt_json(m@[2].1, self.group)
                &&& m@[3].1 == Json::Bool(self.changed)
            },
            _ => false,
        }
    }

    /// The JSON object of the fields, in declaration order.
    pub fn to_json(&self) -> (j: Json)
        ensures
            self.json_is(j),
    {
        let mut m: Vec<(String, Json)> = Vec::new();
        m.push(kv("name", jstr(self.name.as_str())));
        m.push(kv("comment", jopt(&self.comment)));
        m.push(kv("group", jopt(&self.group)));
        m.push(kv("changed", jbool(self.changed)));
        proof {
            assert(member_keys(m@) =~= seq!["name"@, "comment"@, "group"@, "changed"@]);
        }
        Json::Object(m)
    }
}

pub struct RepairGameinfoResponse {
    /// False when gameinfo.gi was already wired and nothing was written.
    pub changed: bool,
}

impl RepairGameinfoResponse {
    /// Whether `j` is this value's JSON object: its fields in declaration
    /// order, each under its own name.
    pub open spec fn json_is(&self, j: Json) -> bool {
        match j {
            Json::Object(m) => {
                &&& member_keys(m@) == seq!["changed"@]
                &&& m@[0].1 == Json::Bool(self.changed)
            },
            _ => false,
        }
    }

    /// The JSON object of the fields, in declaration order.
    pub fn to_json(&self) -> (j: Json)
        ensures
            self.json_is(j),
    {
        let mut m: Vec<(String, Json)> = Vec::new();
        m.push(kv("changed", jbool(self.changed)));
        proof {
            assert(member_keys(m@) =~= seq!["changed"@]);
        }
        Json::Object(m)
    }
}

pub struct MetamodToggleResponse {
    pub name: String,
    pub enabled: bool,
    pub changed: bool,
}

impl MetamodToggleResponse {
    /// Whether `j` is this value's JSON object: its fields in declaration
    /// order, each under its own name.
    pub open spec fn json_is(&self, j: Json) -> bool {
        match j {
            Json::Object(m) => {
                &&& member_keys(m@) == seq!["name"@, "enabled"@, "changed"@]
                &&& str_json(m@[0].1, self.name@)
                &&& m@[1].1 == Json::Bool(self.enabled)
                &&& m@[2].1 == Json::Bool(self.changed)
            },
            _ => false,
        }
    }

    /// The JSON object of the fields, in declaration order.
    pub fn to_json(&self) -> (j: Json)
        ensures
            self.json_is(j),
    {
        let mut m: Vec<(String, Json)> = Vec::new();
        m.push(kv("name", jstr(self.name.as_str())));
        m.push(kv("enabled", jbool(self.enabled)));
        m.push(kv("changed", jbool(self.changed)));
        proof {
            assert(member_keys(m@) =~= seq!["name"@, "enabled"@, "changed"@]);
        }
        Json::Object(m)
    }
}

pub struct LogsResponse {
    /// Server-dir-relative path of the log file that was read, if any.
    pub file: Option<String>,
    pub lines: Vec<String>,
}

impl LogsResponse {
    /// Whether `j` is this value's JSON object: its fields in declaration
    /// order, each under its own name.
    pub open spec fn json_is(&self, j: Json) -> bool {
        match j {
            Json::Object(m) => {
                &&& member_keys(m@) == seq!["file"@, "lines"@]
                &&& opt_json(m@[0].1, self.file)
                &&& strs_json(m@[1].1, self.lines@)
            },
            _ => false,
        }
    }

    /// The JSON object of the fields, in declaration order.
    pub fn to_json(&self) -> (j: Json)
        ensures
            self.json_is(j),
    {
        let mut m: Vec<(String, Json)> = Vec::new();
        m.push(kv("file", jopt(&self.file)));
        m.push(kv("lines", jstrs(&self.lines)));
        proof {
            assert(member_keys(m@) =~= seq!["file"@, "lines"@]);
        }
        Json::Object(m)
    }
}

pub struct RestartResponse {
    pub restarted: bool,
}

impl RestartResponse {
    /// Whether `j` is this value's JSON object: its fields in declaration
    /// order, each under its own name.
    pub open spec fn json_is(&self, j: Json) -> bool {
        match j {
            Json::Object(m) => {
                &&& member_keys(m@) == seq!["restarted"@]
                &&& m@[0].1 == Json::Bool(self.restarted)
            },
            _ => false,
        }
    }

    /// The JSON object of the fields, in declaration order.
    pub fn to_json(&self) -> (j: Json)
        ensures
            self.json_is(j),
    {
        let mut m: Vec<(String, Json)> = Vec::new();
        m.push(kv("restarted", jbool(self.restarted)));
        proof {
            assert(member_keys(m@) =~= seq!["restarted"@]);
        }
        Json::Object(m)
    }
}

pub struct PlatformRelease {
    pub version: String,
    pub download_url: String,
}

impl PlatformRelease {
    /// Whether `j` is this value's JSON object: its fields in declaration
    /// order, each under its own name.
    pub open spec fn json_is(&self, j: Json) -> bool {
        match j {
            Json::Object(m) => {
                &&& member_keys(m@) == seq!["version"@, "download_url"@]
                &&& str_json(m@[0].1, self.version@)
                &&& str_json(m@[1].1, self.download_url@)
            },
            _ => false,
        }
    }

    /// The JSON object of the fields, in declaration order.
    pub fn to_json(&self) -> (j: Json)
        ensures
            self.json_is(j),
    {
        let mut m: Vec<(String, Json)> = Vec::new();
        m.push(kv("version", jstr(self.version.as_str())));
        m.push(kv("download_url", jstr(self.download_url.as_str())));
        proof {
            assert(member_keys(m@) =~= seq!["version"@, "download_url"@]);
        }
        Json::Object(m)
    }
}

pub struct PluginRelease {
    pub version: String,
    pub release_url: String,
    pub download_url: Option<String>,
}

impl PluginRelease {
    /// Whether `j` is this value's JSON object: its fields in declaration
    /// order, each under its own name.
    pub open spec fn json_is(&self, j: Json) -> bool {
        match j {
            Json::Object(m) => {
                &&& member_keys(m@) == seq!["version"@, "release_url"@, "download_url"@]
                &&& str_json(m@[0].1, self.version@)
                &&& str_json(m@[1].1, self.release_url@)
                &&& opt_json(m@[2].1, self.download_url)
            },
            _ => false,
        }
    }

    /// The JSON object of the fields, in declaration order.
    pub fn to_json(&self) -> (j: Json)
        ensures
            self.json_is(j),
    {
        let mut m: Vec<(String, Json)> = Vec::new();
        m.push(kv("version", jstr(self.version.as_str())));
        m.push(kv("release_url", jstr(self.release_url.as_str())));
        m.push(kv("download_url", jopt(&self.download_url)));
        proof {
            assert(member_keys(m@) =~= seq!["version"@, "release_url"@, "download_url"@]);
        }
        Json::Object(m)
    }
}

pub struct UpdatesResponse {
    pub fetched_at: u64,
    pub stale: bool,
    pub metamod: Option<PlatformRelease>,
    pub css: Option<PlatformRelease>,
    /// Catalog entries with their latest release; `folder` is the plugin
    /// folder the release belongs to.
    pub plugins: Vec<PluginUpdateInfo>,
}

impl UpdatesResponse {
    /// Whether `j` is this value's JSON object: its fields in declaration
    /// order, each under its own name.
    pub open spec fn json_is(&self, j: Json) -> bool {
        match j {
            Json::Object(m) => {
                &&& member_keys(m@) == seq!["fetched_at"@, "stale"@, "metamod"@, "css"@, "plugins"@]
                &&& u64_json(m@[0].1, self.fetched_at)
                &&& m@[1].1 == Json::Bool(self.stale)
                &&& (match self.metamod { Some(x) => x.json_is(m@[2].1), None => m@[2].1 == Json::Null })
                &&& (match self.css { Some(x) => x.json_is(m@[3].1), None => m@[3].1 == Json::Null })
                &&& (m@[4].1 matches Json::Array(items) && items@.len() == self.plugins@.len() && forall|i: int| 0 <= i < items@.len() ==> #[trigger] self.plugins@[i].json_is(items@[i]))
            },
            _ => false,
        }
    }

    /// The JSON object of the fields, in declaration order.
    pub fn to_json(&self) -> (j: Json)
        ensures
            self.json_is(j),
    {
        let mut items_plugins: Vec<Json> = Vec::new();
        let mut i_plugins: usize = 0;
        while i_plugins < self.plugins.len()
            invariant
                i_plugins <= self.plugins@.len(),
                items_plugins@.len() == i_plugins,
                forall|i: int| 0 <= i < i_plugins ==> #[trigger] self.plugins@[i].json_is(items_plugins@[i]),
            decreases self.plugins@.len() - i_plugins,
        {
            items_plugins.push(self.plugins[i_plugins].to_json());
            i_plugins = i_plugins + 1;
        }
        let mut m: Vec<(String, Json)> = Vec::new();
        m.push(kv("fetched_at", jnum(self.fetched_at)));
        m.push(kv("stale", jbool(self.stale)));
        m.push(kv("metamod", match &self.metamod { Some(v) => v.to_json(), None => Json::Null }));
        m.push(kv("css", match &self.css { Some(v) => v.to_json(), None => Json::Null }));
        m.push(kv("plugins", Json::Array(items_plugins)));
        proof {
            assert(member_keys(m@) =~= seq!["fetched_at"@, "stale"@, "metamod"@, "css"@, "plugins"@]);
        }
        Json::Object(m)
    }
}

pub struct PluginUpdateInfo {
    pub key: String,
    pub folder: String,
    pub version: String,
    pub release_url: String,
}

impl PluginUpdateInfo {
    /// Whether `j` is this value's JSON object: its fields in declaration
    /// order, each under its own name.
    pub open spec fn json_is(&self, j: Json) -> bool {
        match j {
            Json::Object(m) => {
                &&& member_keys(m@) == seq!["key"@, "folder"@, "version"@, "release_url"@]
                &&& str_json(m@[0].1, self.key@)
                &&& str_json(m@[1].1, self.folder@)
                &&& str_json(m@[2].1, self.version@)
                &&& str_json(m@[3].1, self.release_url@)
            },
            _ => false,
        }
    }

    /// The JSON object of the fields, in declaration order.
    pub fn to_json(&self) -> (j: Json)
        ensures
            self.json_is(j),
    {
        let mut m: Vec<(String, Json)> = Vec::new();
        m.push(kv("key", jstr(self.key.as_str())));
        m.push(kv("folder", jstr(self.folder.as_str())));
        m.push(kv("version", jstr(self.version.as_str())));
        m.push(kv("release_url", jstr(self.release_url.as_str())));
        proof {
            assert(member_keys(m@) =~= seq!["key"@, "folder"@, "version"@, "release_url"@]);
        }
        Json::Object(m)
    }
}

pub struct CatalogResponse {
    pub entries: Vec<CatalogEntryInfo>,
}

impl CatalogResponse {
    /// Whether `j` is this value's JSON object: its fields in declaration
    /// order, each under its own name.
    pub open spec fn json_is(&self, j: Json) -> bool {
        match j {
            Json::Object(m) => {
                &&& member_keys(m@) == seq!["entries"@]
                &&& (m@[0].1 matches Json::Array(items) && items@.len() == self.entries@.len() && forall|i: int| 0 <= i < items@.len() ==> #[trigger] self.entries@[i].json_is(items@[i]))
            },
            _ => false,
        }
    }

    /// The JSON object of the fields, in declaration order.
    pub fn to_json(&self) -> (j: Json)
        ensures
            self.json_is(j),
    {
        let mut items_entries: Vec<Json> = Vec::new();
        let mut i_entries: usize = 0;
        while i_entries < self.entries.len()
            invariant
                i_entries <= self.entries@.len(),
                items_entries@.len() == i_entries,
                forall|i: int| 0 <= i < i_entries ==> #[trigger] self.entries@[i].json_is(items_entries@[i]),
            decreases self.entries@.len() - i_entries,
        {
            items_entries.push(self.entries[i_entries].to_json());
            i_entries = i_entries + 1;
        }
        let mut m: Vec<(String, Json)> = Vec::new();
        m.push(kv("entries", Json::Array(items_entries)));
        proof {
            assert(member_keys(m@) =~= seq!["entries"@]);
        }
        Json::Object(m)
    }
}

pub struct CatalogEntryInfo {
    pub key: String,
    pub name: String,
    pub description: String,
    pub homepage: String,
    /// Plugin folder the install creates (row identity after install).
    pub folder: String,
}

impl CatalogEntryInfo {
    /// Whether `j` is this value's JSON object: its fields in declaration
    /// order, each under its own name.
    pub open spec fn json_is(&self, j: Json) -> bool {
        match j {
            Json::Object(m) => {
                &&& member_keys(m@) == seq!["key"@, "name"@, "description"@, "homepage"@, "folder"@]
                &&& str_json(m@[0].1, self.key@)
                &&& str_json(m@[1].1, self.name@)
                &&& str_json(m@[2].1, self.description@)
                &&& str_json(m@[3].1, self.homepage@)
                &&& str_json(m@[4].1, self.folder@)
            },
            _ => false,
        }
    }

    /// The JSON object of the fields, in declaration order.
    pub fn to_json(&self) -> (j: Json)
        ensures
            self.json_is(j),
    {
        let mut m: Vec<(String, Json)> = Vec::new();
        m.push(kv("key", jstr(self.key.as_str())));
        m.push(kv("name", jstr(self.name.as_str())));
        m.push(kv("description", jstr(self.description.as_str())));
        m.push(kv("homepage", jstr(self.homepage.as_str())));
        m.push(kv("folder", jstr(self.folder.as_str())));
        proof {
            assert(member_keys(m@) =~= seq!["key"@, "name"@, "description"@, "homepage"@, "folder"@]);
        }
        Json::Object(m)
    }
}

pub struct CatalogInstallResponse {
    pub key: String,
    pub folder: String,
    pub version: String,
    pub files_written: u32,
}

impl CatalogInstallResponse {
    /// Whether `j` is this value's JSON object: its fields in declaration
    /// order, each under its own name.
    pub open spec fn json_is(&self, j: Json) -> bool {
        match j {
            Json::Object(m) => {
                &&& member_keys(m@) == seq!["key"@, "folder"@, "version"@, "files_written"@]
                &&& str_json(m@[0].1, self.key@)
                &&& str_json(m@[1].1, self.folder@)
                &&& str_json(m@[2].1, self.version@)
                &&& u64_json(m@[3].1, self.files_written as u64)
            },
            _ => false,
        }
    }

    /// The JSON object of the fields, in declaration order.
    pub fn to_json(&self) -> (j: Json)
        ensures
            self.json_is(j),
    {
        let mut m: Vec<(String, Json)> = Vec::new();
        m.push(kv("key", jstr(self.key.as_str())));
        m.push(kv("folder", jstr(self.folder.as_str())));
        m.push(kv("version", jstr(self.version.as_str())));
        m.push(kv("files_written", jnum(self.files_written as u64)));
        proof {
            assert(member_keys(m@) =~= seq!["key"@, "folder"@, "version"@, "files_written"@]);
        }
        Json::Object(m)
    }
}

pub struct PlatformInstallResponse {
    pub kind: String,
    pub version: String,
    /// True when gameinfo.gi was patched as part of the install.
    pub gameinfo_patched: bool,
}

impl PlatformInstallResponse {
    /// Whether `j` is this value's JSON object: its fields in declaration
    /// order, each under its own name.
    pub open spec fn json_is(&self, j: Json) -> bool {
        match j {
            Json::Object(m) => {
                &&& member_keys(m@) == seq!["kind"@, "version"@, "gameinfo_patched"@]
                &&& str_json(m@[0].1, self.kind@)
                &&& str_json(m@[1].1, self.version@)
                &&& m@[2].1 == Json::Bool(self.gameinfo_patched)
            },
            _ => false,
        }
    }

    /// The JSON object of the fields, in declaration order.
    pub fn to_json(&self) -> (j: Json)
        ensures
            self.json_is(j),
    {
        let mut m: Vec<(String, Json)> = Vec::new();
        m.push(kv("kind", jstr(self.kind.as_str())));
        m.push(kv("version", jstr(self.version.as_str())));
        m.push(kv("gameinfo_patched", jbool(self.gameinfo_patched)));
        proof {
            assert(member_keys(m@) =~= seq!["kind"@, "version"@, "gameinfo_patched"@]);
        }
        Json::Object(m)
    }
}

pub struct SnapshotInfo {
    pub name: String,
    /// Unix seconds parsed from the snapshot name.
    pub created_at: u64,
    pub size: u64,
    /// Server-dir-relative path (for file-manager download).
    pub path: String,
}

impl SnapshotInfo {
    /// Whether `j` is this value's JSON object: its fields in declaration
    /// order, each under its own name.
    pub open spec fn json_is(&self, j: Json) -> bool {
        match j {
            Json::Object(m) => {
                &&& member_keys(m@) == seq!["name"@, "created_at"@, "size"@, "path"@]
                &&& str_json(m@[0].1, self.name@)
                &&& u64_json(m@[1].1, self.created_at)
                &&& u64_json(m@[2].1, self.size)
                &&& str_json(m@[3].1, self.path@)
            },
            _ => false,
        }
    }

    /// The JSON object of the fields, in declaration order.
    pub fn to_json(&self) -> (j: Json)
        ensures
            self.json_is(j),
    {
        let mut m: Vec<(String, Json)> = Vec::new();
        m.push(kv("name", jstr(self.name.as_str())));
        m.push(kv("created_at", jnum(self.created_at)));
        m.push(kv("size", jnum(self.size)));
        m.push(kv("path", jstr(self.path.as_str())));
        proof {
            assert(member_keys(m@) =~= seq!["name"@, "created_at"@, "size"@, "path"@]);
        }
        Json::Object(m)
    }
}

pub struct SnapshotListResponse {
    pub snapshots: Vec<SnapshotInfo>,
}

impl SnapshotListResponse {
    /// Whether `j` is this value's JSON object: its fields in declaration
    /// order, each under its own name.
    pub open spec fn json_is(&self, j: Json) -> bool {
        match j {
            Json::Object(m) => {
                &&& member_keys(m@) == seq!["snapshots"@]
                &&& (m@[0].1 matches Json::Array(items) && items@.len() == self.snapshots@.len() && forall|i: int| 0 <= i < items@.len() ==> #[trigger] self.snapshots@[i].json_is(items@[i]))
            },
            _ => false,
        }
    }

    /// The JSON object of the fields, in declaration order.
    pub fn to_json(&self) -> (j: Json)
        ensures
            self.json_is(j),
    {
        let mut items_snapshots: Vec<Json> = Vec::new();
        let mut i_snapshots: usize = 0;
        while i_snapshots < self.snapshots.len()
            invariant
                i_snapshots <= self.snapshots@.len(),
                items_snapshots@.len() == i_snapshots,
                forall|i: int| 0 <= i < i_snapshots ==> #[trigger] self.snapshots@[i].json_is(items_snapshots@[i]),
            decreases self.snapshots@.len() - i_snapshots,
        {
            items_snapshots.push(self.snapshots[i_snapshots].to_json());
            i_snapshots = i_snapshots + 1;
        }
        let mut m: Vec<(String, Json)> = Vec::new();
        m.push(kv("snapshots", Json::Array(items_snapshots)));
        proof {
            assert(member_keys(m@) =~= seq!["snapshots"@]);
        }
        Json::Object(m)
    }
}

pub struct SnapshotCreateResponse {
    pub snapshot: SnapshotInfo,
    /// Older snapshots deleted to honor the retention cap.
    pub pruned: Vec<String>,
}

impl SnapshotCreateResponse {
    /// Whether `j` is this value's JSON object: its fields in declaration
    /// order, each under its own name.
    pub open spec fn json_is(&self, j: Json) -> bool {
        match j {
            Json::Object(m) => {
                &&& member_keys(m@) == seq!["snapshot"@, "pruned"@]
                &&& self.snapshot.json_is(m@[0].1)
                &&& strs_json(m@[1].1, self.pruned@)
            },
            _ => false,
        }
    }

    /// The JSON object of the fields, in declaration order.
    pub fn to_json(&self) -> (j: Json)
        ensures
            self.json_is(j),
    {
        let mut m: Vec<(String, Json)> = Vec::new();
        m.push(kv("snapshot", self.snapshot.to_json()));
        m.push(kv("pruned", jstrs(&self.pruned)));
        proof {
            assert(member_keys(m@) =~= seq!["snapshot"@, "pruned"@]);
        }
        Json::Object(m)
    }
}

pub struct SnapshotRestoreResponse {
    pub name: String,
    pub restored: bool,
}

impl SnapshotRestoreResponse {
    /// Whether `j` is this value's JSON object: its fields in declaration
    /// order, each under its own name.
    pub open spec fn json_is(&self, j: Json) -> bool {
        match j {
            Json::Object(m) => {
                &&& member_keys(m@) == seq!["name"@, "restored"@]
                &&& str_json(m@[0].1, self.name@)
                &&& m@[1].1 == Json::Bool(self.restored)
            },
            _ => false,
        }
    }

    /// The JSON object of the fields, in declaration order.
    pub fn to_json(&self) -> (j: Json)
        ensures
            self.json_is(j),
    {
        let mut m: Vec<(String, Json)> = Vec::new();
        m.push(kv("name", jstr(self.name.as_str())));
        m.push(kv("restored", jbool(self.restored)));
        proof {
            assert(member_keys(m@) =~= seq!["name"@, "restored"@]);
        }
        Json::Object(m)
    }
}

pub struct InstallArchiveResponse {
    /// Plugin folders the archive created or updated.
    pub folders: Vec<String>,
    pub files_written: u32,
}

impl InstallArchiveResponse {
    /// Whether `j` is this value's JSON object: its fields in declaration
    /// order, each under its own name.
    pub open spec fn json_is(&self, j: Json) -> bool {
        match j {
            Json::Object(m) => {
                &&& member_keys(m@) == seq!["folders"@, "files_written"@]
                &&& strs_json(m@[0].1, self.folders@)
                &&& u64_json(m@[1].1, self.files_written as u64)
            },
            _ => false,
        }
    }

    /// The JSON object of the fields, in declaration order.
    pub fn to_json(&self) -> (j: Json)
        ensures
            self.json_is(j),
    {
        let mut m: Vec<(String, Json)> = Vec::new();
        m.push(kv("folders", jstrs(&self.folders)));
        m.push(kv("files_written", jnum(self.files_written as u64)));
        proof {
            assert(member_keys(m@) =~= seq!["folders"@, "files_written"@]);
        }
        Json::Object(m)
    }
}

pub struct DoctorCheck {
    pub id: String,
    /// "ok", "warn" or "fail".
    pub status: String,
    pub detail: String,
}

impl DoctorCheck {
    /// Whether `j` is this value's JSON object: its fields in declaration
    /// order, each under its own name.
    pub open spec fn json_is(&self, j: Json) -> bool {
        match j {
            Json::Object(m) => {
                &&& member_keys(m@) == seq!["id"@, "status"@, "detail"@]
                &&& str_json(m@[0].1, self.id@)
                &&& str_json(m@[1].1, self.status@)
                &&& str_json(m@[2].1, self.detail@)
            },
            _ => false,
        }
    }

    /// The JSON object of the fields, in declaration order.
    pub fn to_json(&self) -> (j: Json)
        ensures
            self.json_is(j),
    {
        let mut m: Vec<(String, Json)> = Vec::new();
        m.push(kv("id", jstr(self.id.as_str())));
        m.push(kv("status", jstr(self.status.as_str())));
        m.push(kv("detail", jstr(self.detail.as_str())));
        proof {
            assert(member_keys(m@) =~= seq!["id"@, "status"@, "detail"@]);
        }
        Json::Object(m)
    }
}

pub struct DoctorResponse {
    pub checks: Vec<DoctorCheck>,
}

impl DoctorResponse {
    /// Whether `j` is this value's JSON object: its fields in declaration
    /// order, each under its own name.
    pub open spec fn json_is(&self, j: Json) -> bool {
        match j {
            Json::Object(m) => {
                &&& member_keys(m@) == seq!["checks"@]
                &&& (m@[0].1 matches Json::Array(items) && items@.len() == self.checks@.len() && forall|i: int| 0 <= i < items@.len() ==> #[trigger] self.checks@[i].json_is(items@[i]))
            },
            _ => false,
        }
    }

    /// The JSON object of the fields, in declaration order.
    pub fn to_json(&self) -> (j: Json)
        ensures
            self.json_is(j),
    {
        let mut items_checks: Vec<Json> = Vec::new();
        let mut i_checks: usize = 0;
        while i_checks < self.checks.len()
            invariant
                i_checks <= self.checks@.len(),
                items_checks@.len() == i_checks,
                forall|i: int| 0 <= i < i_checks ==> #[trigger] self.checks@[i].json_is(items_checks@[i]),
            decreases self.checks@.len() - i_checks,
        {
            items_checks.push(self.checks[i_checks].to_json());
            i_checks = i_checks + 1;
        }
        let mut m: Vec<(String, Json)> = Vec::new();
        m.push(kv("checks", Json::Array(items_checks)));
        proof {
            assert(member_keys(m@) =~= seq!["checks"@]);
        }
        Json::Object(m)
    }
}

pub struct AuditEntry {
    /// Unix seconds.
    pub ts: u64,
    pub user: String,
    pub action: String,
    pub subject: String,
}

impl AuditEntry {
    /// Whether `j` is this value's JSON object: its fields in declaration
    /// order, each under its own name.
    pub open spec fn json_is(&self, j: Json) -> bool {
        match j {
            Json::Object(m) => {
                &&& member_keys(m@) == seq!["ts"@, "user"@, "action"@, "subject"@]
                &&& u64_json(m@[0].1, self.ts)
                &&& str_json(m@[1].1, self.user@)
                &&& str_json(m@[2].1, self.action@)
                &&& str_json(m@[3].1, self.subject@)
            },
            _ => false,
        }
    }

    /// The JSON object of the fields, in declaration order.
    pub fn to_json(&self) -> (j: Json)
        ensures
            self.json_is(j),
    {
        let mut m: Vec<(String, Json)> = Vec::new();
        m.push(kv("ts", jnum(self.ts)));
        m.push(kv("user", jstr(self.user.as_str())));
        m.push(kv("action", jstr(self.action.as_str())));
        m.push(kv("subject", jstr(self.subject.as_str())));
        proof {
            assert(member_keys(m@) =~= seq!["ts"@, "user"@, "action"@, "subject"@]);
        }
        Json::Object(m)
    }
}

pub struct AuditResponse {
    pub entries: Vec<AuditEntry>,
}

impl AuditResponse {
    /// Whether `j` is this value's JSON object: its fields in declaration
    /// order, each under its own name.
    pub open spec fn json_is(&self, j: Json) -> bool {
        match j {
            Json::Object(m) => {
                &&& member_keys(m@) == seq!["entries"@]
                &&& (m@[0].1 matches Json::Array(items) && items@.len() == self.entries@.len() && forall|i: int| 0 <= i < items@.len() ==> #[trigger] self.entries@[i].json_is(items@[i]))
            },
            _ => false,
        }
    }

    /// The JSON object of the fields, in declaration order.
    pub fn to_json(&self) -> (j: Json)
        ensures
            self.json_is(j),
    {
        let mut items_entries: Vec<Json> = Vec::new();
        let mut i_entries: usize = 0;
        while i_entries < self.entries.len()
            invariant
                i_entries <= self.entries@.len(),
                items_entries@.len() == i_entries,
                forall|i: int| 0 <= i < i_entries ==> #[trigger] self.entries@[i].json_is(items_entries@[i]),
            decreases self.entries@.len() - i_entries,
        {
            items_entries.push(self.entries[i_entries].to_json());
            i_entries = i_entries + 1;
        }
        let mut m: Vec<(String, Json)> = Vec::new();
        m.push(kv("entries", Json::Array(items_entries)));
        proof {
            assert(member_keys(m@) =~= seq!["entries"@]);
        }
        Json::Object(m)
    }
}

} // verus!
