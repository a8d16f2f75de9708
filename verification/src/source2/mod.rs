//! The Counter-Strike 2 side: directory layout, gameinfo.gi, Metamod aliases,
//! plugin archives, the shared plugin manifest and the plugin catalog.

pub mod archive;
pub mod catalog;
pub mod gamedir;
pub mod gameinfo;
pub mod manifest;
pub mod paths;
pub mod vdf;

use vstd::prelude::*;

verus! {

/// CounterStrikeSharp layout relative to the game dir (e.g. game/csgo).
pub const CSS_DIR: &'static str = "addons/counterstrikesharp";
pub const CSS_PLUGINS_DIR: &'static str = "addons/counterstrikesharp/plugins";
pub const CSS_CONFIGS_DIR: &'static str = "addons/counterstrikesharp/configs/plugins";
/// Folder inside the plugins dir where disabled plugins are parked.
/// CounterStrikeSharp only loads `plugins/<Name>/<Name>.dll`, so a nested
/// folder is skipped.
pub const DISABLED_DIR_NAME: &'static str = "disabled";
/// Shared per-plugin annotations manifest, the same file the AddonsManager
/// CounterStrikeSharp plugin maintains in game.
pub const META_MANIFEST: &'static str = "addons/counterstrikesharp/configs/plugins/AddonsManager/plugins_meta.json";
pub const METAMOD_DIR: &'static str = "addons/metamod";
pub const GAMEINFO_FILE: &'static str = "gameinfo.gi";
/// CounterStrikeSharp per-day log files live here.
pub const CSS_LOGS_DIR: &'static str = "addons/counterstrikesharp/logs";
/// Snapshot tarballs of plugins/ + configs/plugins/.
pub const BACKUPS_DIR: &'static str = "addons/counterstrikesharp/backups";
/// Scratch dir for node-side downloads, relative to the server root.
pub const DOWNLOAD_SCRATCH_DIR: &'static str = ".cs2addons";

} // verus!
