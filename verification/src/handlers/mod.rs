//! The route handlers, and what they share: paths, the manifest on the node,
//! plugin folder lookups, folder moves and archive writes.

pub mod add;
pub mod archive_install;
pub mod attributes;
pub mod audit;
pub mod catalog_routes;
pub mod ctx;
pub mod doctor;
pub mod logs;
pub mod metamod;
pub mod platform;
pub mod remove;
pub mod repair;
pub mod restart;
pub mod snapshots;
pub mod state;
pub mod toggle;
pub mod updates;

use vstd::prelude::*;

use crate::json::Json;
use crate::host_api::{grew, is_effect, lemma_reads_only_trans, reads_only, FileStat, HostApi, HostApiError, HostCall};
use crate::http::{host_error, ApiError};
use crate::source2;
use crate::source2::manifest::{parsed_root, Manifest};
use crate::source2::paths::{join, join_spec};
use crate::source2::archive::{is_css_dir_entry, is_css_dir_entry_spec, ArchiveEntry, InstallRoot};
use crate::text::{cat, cat3, chars_of, eq_ic, eq_ignore_case, has_prefix, i32_text, signed_decimal, split_on, split_vec, str_eq, sub_chars, string_of};

use ctx::ServerCtx;
use state::texts;

verus! {

pub const MANIFEST_FILE_PERMISSIONS: u32 = 420;

/// Unix seconds from the system clock (`SystemTime::now` since the epoch),
/// 0 when the clock is before the epoch. Nothing is promised of the value.
#[verifier::external_body]
pub fn now_unix() -> (t: u64) {
    std::time::SystemTime::now()
        .duration_since(std::time::UNIX_EPOCH)
        .map(|d| d.as_secs())
        .unwrap_or(0)
}

/// How a failed node command is reported: `exit <code>: <output>`.
pub fn exit_failure(code: i32, output: &str) -> (s: String)
    ensures
        s@ == "exit "@ + signed_decimal(code as int) + ": "@ + output@,
{
    cat3(cat("exit ", i32_text(code).as_str()).as_str(), ": ", output)
}

/// How a failed tar run is reported: `tar failed (exit <code>): <output>`.
pub fn tar_failure(code: i32, output: &str) -> (s: String)
    ensures
        s@ == "tar failed (exit "@ + signed_decimal(code as int) + "): "@ + output@,
{
    cat3(cat("tar failed (exit ", i32_text(code).as_str()).as_str(), "): ", output)
}

/// Absolute path of the CounterStrikeSharp plugins dir.
pub fn css_plugins_abs(ctx: &ServerCtx) -> (r: String)
    ensures
        r@ == join_spec(ctx.game_abs@, source2::CSS_PLUGINS_DIR@),
{
    join(ctx.game_abs.as_str(), source2::CSS_PLUGINS_DIR)
}

/// Absolute path of the disabled-plugins parking dir.
pub fn css_disabled_abs(ctx: &ServerCtx) -> (r: String)
    ensures
        r@ == join_spec(join_spec(ctx.game_abs@, source2::CSS_PLUGINS_DIR@), source2::DISABLED_DIR_NAME@),
{
    join(css_plugins_abs(ctx).as_str(), source2::DISABLED_DIR_NAME)
}

/// An error that reports a failed host call.
pub open spec fn host_failure(e: ApiError) -> bool {
    exists|h: HostApiError| e == #[trigger] host_error(h)
}

/// A host call's result with its failure as an API error.
pub fn lift<T>(r: Result<T, HostApiError>) -> (o: Result<T, ApiError>)
    ensures
        match r {
            Ok(v) => o == Ok::<T, ApiError>(v),
            Err(h) => o == Err::<T, ApiError>(host_error(h)),
        },
{
    match r {
        Ok(v) => Ok(v),
        Err(h) => Err(ApiError::from_host(h)),
    }
}

/// 409 unless addons/counterstrikesharp exists on the server.
pub fn require_css_installed<H: HostApi>(host: &mut H, ctx: &ServerCtx) -> (r: Result<(), ApiError>)
    ensures
        r matches Err(e) ==> e.status == 409 || e.status == 502,
        r matches Err(e) ==> host_failure(e) || (e.status == 409 && e.code@ == "CSS_NOT_INSTALLED"@),
        reads_only(old(host).trace(), final(host).trace()),
        crate::host_api::no_fetch(old(host).trace(), final(host).trace()),
        final(host).trace().len() == old(host).trace().len() + 1,
        final(host).trace().last() is Stat,
{
    let css_abs = join(ctx.game_abs.as_str(), source2::CSS_DIR);
    let present = match host.stat(ctx.node_id, css_abs.as_str()) {
        Ok(Some(s)) => s.is_dir,
        Ok(None) => false,
        Err(e) => return Err(ApiError::from_host(e)),
    };
    if !present {
        return Err(ApiError::conflict(
            "CSS_NOT_INSTALLED",
            String::from_str("CounterStrikeSharp is not installed on this server"),
        ));
    }
    Ok(())
}

/// Reads plugins_meta.json; a missing file gives an empty manifest.
/// Where plugins_meta.json lives under a game dir.
pub open spec fn manifest_path(game_abs: Seq<char>) -> Seq<char> {
    join_spec(game_abs, source2::META_MANIFEST@)
}

/// A manifest read, between two transcripts: a probe of plugins_meta.json,
/// then, when it is there, its download; `root` is what the bytes parse to,
/// empty when the file is missing.
pub open spec fn manifest_read(t0: Seq<HostCall>, t: Seq<HostCall>, node: u64, game_abs: Seq<char>, root: Seq<(String, Json)>) -> bool {
    &&& t.len() >= t0.len() + 1
    &&& t[t0.len() as int] matches HostCall::Stat(n, p, a)
    &&& n == node && p == manifest_path(game_abs)
    &&& match a {
        Ok(None) => t.len() == t0.len() + 1 && root == Seq::<(String, Json)>::empty(),
        _ => t.len() == t0.len() + 2 && (t[t0.len() as int + 1] matches HostCall::Download(n2, p2, Ok(bytes))
            && n2 == node && p2 == manifest_path(game_abs) && root == parsed_root(bytes@)),
    }
}

pub fn read_manifest<H: HostApi>(host: &mut H, ctx: &ServerCtx) -> (r: Result<Manifest, ApiError>)
    ensures
        r matches Err(e) ==> host_failure(e),
        r matches Ok(m) ==> m.root@.len() == 0 || exists|bytes: Seq<u8>| m.root@ == #[trigger] parsed_root(bytes),
        reads_only(old(host).trace(), final(host).trace()),
        r matches Ok(m) ==> manifest_read(old(host).trace(), final(host).trace(), ctx.node_id, ctx.game_abs@, m.root@),
{
    let manifest_abs = join(ctx.game_abs.as_str(), source2::META_MANIFEST);
    let found = match host.stat(ctx.node_id, manifest_abs.as_str()) {
        Ok(f) => f,
        Err(e) => return Err(ApiError::from_host(e)),
    };
    if found.is_none() {
        return Ok(Manifest::empty());
    }
    let bytes = match host.download(ctx.node_id, manifest_abs.as_str()) {
        Ok(b) => b,
        Err(e) => return Err(ApiError::from_host(e)),
    };
    let m = Manifest::parse(bytes.as_slice());
    assert(m.root@ == parsed_root(bytes@));
    Ok(m)
}

/// Writes plugins_meta.json.
pub fn write_manifest<H: HostApi>(host: &mut H, ctx: &ServerCtx, manifest: &Manifest) -> (r: Result<(), ApiError>)
    ensures
        r matches Err(e) ==> host_failure(e),
        final(host).trace().len() == old(host).trace().len() + 1,
        grew(old(host).trace(), final(host).trace()),
        final(host).trace().last() matches HostCall::Upload(n, p, bytes, _, a)
            && n == ctx.node_id && p == join_spec(ctx.game_abs@, source2::META_MANIFEST@)
            && bytes == crate::json::json_text_pretty(crate::json::Json::Object(manifest.root)).push(10u8) && (a is Ok <==> r is Ok),
{
    let manifest_abs = join(ctx.game_abs.as_str(), source2::META_MANIFEST);
    let bytes = manifest.to_bytes();
    match host.upload(ctx.node_id, manifest_abs.as_str(), bytes.as_slice(), MANIFEST_FILE_PERMISSIONS) {
        Ok(()) => Ok(()),
        Err(e) => Err(ApiError::from_host(e)),
    }
}

/// How a folder lookup of plugin `name` went, from call `b` of `t` on: a
/// probe of plugins/<name>, then, when that is no folder, of
/// plugins/disabled/<name>; `found` is what it concluded: the error of a
/// failed probe, or whether and where (`true`: enabled) the folder is.
pub open spec fn folder_probed(t: Seq<HostCall>, b: int, ctx: ServerCtx, name: Seq<char>, found: Result<Option<bool>, HostApiError>, end: int) -> bool {
    let enabled = join_spec(join_spec(ctx.game_abs@, source2::CSS_PLUGINS_DIR@), name);
    let disabled = join_spec(join_spec(join_spec(ctx.game_abs@, source2::CSS_PLUGINS_DIR@), source2::DISABLED_DIR_NAME@), name);
    &&& 0 <= b < t.len()
    &&& t[b] matches HostCall::Stat(n0, p0, a0)
    &&& n0 == ctx.node_id && p0 == enabled
    &&& match stat_dir(a0) {
        Err(h) => found == Err::<Option<bool>, HostApiError>(h) && end == b + 1,
        Ok(true) => found == Ok::<Option<bool>, HostApiError>(Some(true)) && end == b + 1,
        Ok(false) => {
            &&& b + 1 < t.len()
            &&& t[b + 1] matches HostCall::Stat(n1, p1, a1)
            &&& n1 == ctx.node_id && p1 == disabled
            &&& end == b + 2
            &&& match stat_dir(a1) {
                Err(h) => found == Err::<Option<bool>, HostApiError>(h),
                Ok(true) => found == Ok::<Option<bool>, HostApiError>(Some(false)),
                Ok(false) => found == Ok::<Option<bool>, HostApiError>(None),
            }
        },
    }
}

/// What a folder lookup returned, without the path.
pub open spec fn found_state(r: Result<Option<(String, bool)>, HostApiError>) -> Result<Option<bool>, HostApiError> {
    match r {
        Ok(Some((_, e))) => Ok(Some(e)),
        Ok(None) => Ok(None),
        Err(h) => Err(h),
    }
}

/// The plugin's folder if it exists: (absolute path, currently enabled).
/// Enabled is directly under plugins/, disabled under plugins/disabled/.
pub fn find_plugin_folder<H: HostApi>(host: &mut H, ctx: &ServerCtx, name: &str) -> (r: Result<Option<(String, bool)>, HostApiError>)
    ensures
        r matches Ok(Some((path, true))) ==> path@ == join_spec(join_spec(ctx.game_abs@, source2::CSS_PLUGINS_DIR@), name@),
        r matches Ok(Some((path, false))) ==> path@ == join_spec(join_spec(join_spec(ctx.game_abs@, source2::CSS_PLUGINS_DIR@), source2::DISABLED_DIR_NAME@), name@),
        reads_only(old(host).trace(), final(host).trace()),
        r matches Ok(Some((path, _))) ==> final(host).trace().len() > old(host).trace().len()
            && (final(host).trace().last() matches HostCall::Stat(n, p, a) && n == ctx.node_id && p == path@
                && stat_dir(a) == Ok::<bool, HostApiError>(true)),
        folder_probed(final(host).trace(), old(host).trace().len() as int, *ctx, name@, found_state(r), final(host).trace().len() as int),
{
    let enabled_abs = join(css_plugins_abs(ctx).as_str(), name);
    let first = is_dir_at(host, ctx.node_id, enabled_abs.as_str());
    let ghost t1 = host.trace();
    match first {
        Ok(true) => return Ok(Some((enabled_abs, true))),
        Ok(false) => {},
        Err(h) => return Err(h),
    }
    let disabled_abs = join(css_disabled_abs(ctx).as_str(), name);
    let second = is_dir_at(host, ctx.node_id, disabled_abs.as_str());
    proof {
        lemma_reads_only_trans(old(host).trace(), t1, host.trace());
        assert(host.trace()[old(host).trace().len() as int] == t1[old(host).trace().len() as int]);
    }
    match second {
        Ok(true) => Ok(Some((disabled_abs, false))),
        Ok(false) => Ok(None),
        Err(h) => Err(h),
    }
}

/// What a stat answer says of a directory being there.
pub open spec fn stat_dir(a: Result<Option<FileStat>, HostApiError>) -> Result<bool, HostApiError> {
    match a {
        Ok(Some(s)) => Ok(s.is_dir),
        Ok(None) => Ok(false),
        Err(e) => Err(e),
    }
}

/// What a stat answer says of a file (not a directory) being there.
pub open spec fn stat_file(a: Result<Option<FileStat>, HostApiError>) -> Result<bool, HostApiError> {
    match a {
        Ok(Some(s)) => Ok(!s.is_dir),
        Ok(None) => Ok(false),
        Err(e) => Err(e),
    }
}

/// Whether a directory is at `path`.
pub fn is_dir_at<H: HostApi>(host: &mut H, node_id: u64, path: &str) -> (r: Result<bool, HostApiError>)
    ensures
        reads_only(old(host).trace(), final(host).trace()),
        exists|a: Result<Option<FileStat>, HostApiError>| {
            &&& final(host).trace() == old(host).trace().push(HostCall::Stat(node_id, path@, a))
            &&& r == #[trigger] stat_dir(a)
        },
{
    let a = host.stat(node_id, path);
    let ghost ga = a;
    let r = match a {
        Ok(Some(s)) => Ok(s.is_dir),
        Ok(None) => Ok(false),
        Err(e) => Err(e),
    };
    assert(r == stat_dir(ga));
    r
}

/// Whether a file (not a directory) is at `path`.
pub fn is_file_at<H: HostApi>(host: &mut H, node_id: u64, path: &str) -> (r: Result<bool, HostApiError>)
    ensures
        reads_only(old(host).trace(), final(host).trace()),
        exists|a: Result<Option<FileStat>, HostApiError>| {
            &&& final(host).trace() == old(host).trace().push(HostCall::Stat(node_id, path@, a))
            &&& r == #[trigger] stat_file(a)
        },
{
    let a = host.stat(node_id, path);
    let ghost ga = a;
    let r = match a {
        Ok(Some(s)) => Ok(!s.is_dir),
        Ok(None) => Ok(false),
        Err(e) => Err(e),
    };
    assert(r == stat_file(ga));
    r
}

/// Index of the last `/` of a path.
pub fn last_slash(path: &[char]) -> (r: Option<usize>)
    ensures
        r matches Some(i) ==> i < path@.len() && path@[i as int] == '/' && forall|j: int| i < j < path@.len() ==> path@[j] != '/',
        r is None ==> !path@.contains('/'),
{
    let mut i: usize = path.len();
    while i > 0
        invariant
            i <= path@.len(),
            forall|j: int| i <= j < path@.len() ==> path@[j] != '/',
        decreases i,
    {
        if path[i - 1] == '/' {
            return Some(i - 1);
        }
        i = i - 1;
    }
    None
}

/// Moves a directory with the daemon's native move, creating the
/// destination's parent when missing. Never through a node command: the
/// daemon has no shell.
pub fn move_dir<H: HostApi>(host: &mut H, ctx: &ServerCtx, src_abs: &str, dst_abs: &str) -> (r: Result<(), ApiError>)
    ensures
        !dst_abs@.contains('/') ==> (r matches Err(e) && e.status == 500),
        r matches Err(e) ==> e.status == 500 || host_failure(e),
        grew(old(host).trace(), final(host).trace()),
        forall|i: int| old(host).trace().len() <= i < final(host).trace().len() && is_effect(#[trigger] final(host).trace()[i])
            ==> final(host).trace()[i] is MkDir || final(host).trace()[i] is Move,
        forall|i: int| old(host).trace().len() <= i < final(host).trace().len() && (#[trigger] final(host).trace()[i]) is Move
            ==> i == final(host).trace().len() - 1 && (final(host).trace()[i] matches HostCall::Move(n, s, d, a)
                && n == ctx.node_id && s == src_abs@ && d == dst_abs@ && (a is Ok <==> r is Ok)),
        r is Ok ==> final(host).trace().len() > old(host).trace().len()
            && (final(host).trace().last() matches HostCall::Move(n, s, d, a)
                && n == ctx.node_id && s == src_abs@ && d == dst_abs@ && a is Ok),
{
    let dst = chars_of(dst_abs);
    let parent = match last_slash(dst.as_slice()) {
        Some(i) => string_of(sub_chars(dst.as_slice(), 0, i).as_slice()),
        None => return Err(ApiError::internal(String::from_str("move destination has no parent"))),
    };
    if lift(host.stat(ctx.node_id, parent.as_str()))?.is_none() {
        lift(host.mk_dir(ctx.node_id, parent.as_str()))?;
    }
    let moved = host.move_path(ctx.node_id, src_abs, dst_abs);
    match moved {
        Ok(()) => {
            Ok(())
        },
        Err(e) => Err(ApiError::from_host(e)),
    }
}

/// The panel's per-call limit on an uploaded file's size, inclusive.
pub const PANEL_MAX_INLINE_BYTES: u64 = 33554432;

/// Whether `items` holds `s`.
pub fn has_string(items: &Vec<String>, s: &str) -> (b: bool)
    ensures
        b == exists|k: int| 0 <= k < items@.len() && (#[trigger] items@[k])@ == s@,
{
    let mut k: usize = 0;
    while k < items.len()
        invariant
            k <= items@.len(),
            forall|j: int| 0 <= j < k ==> (#[trigger] items@[j])@ != s@,
        decreases items@.len() - k,
    {
        if str_eq(items[k].as_str(), s) {
            return true;
        }
        k = k + 1;
    }
    false
}

/// The plugin folder an archive entry creates under plugins/, by layout.
pub open spec fn entry_folder_spec(path: Seq<char>, root: InstallRoot) -> Option<Seq<char>> {
    let segs = split_on(path, '/');
    match root {
        InstallRoot::PluginsDir => Some(segs[0]),
        InstallRoot::WrapIntoFolder(folder) => Some(folder@),
        InstallRoot::CssDir => if is_css_dir_entry_spec(path) {
            if segs.len() >= 3 && eq_ic(segs[0], "plugins"@) { Some(segs[1]) } else { None }
        } else if segs.len() >= 2 {
            Some(segs[0])
        } else {
            None
        },
        InstallRoot::GameDir => if segs.len() >= 5 && eq_ic(segs[0], "addons"@) && eq_ic(segs[1], "counterstrikesharp"@)
            && eq_ic(segs[2], "plugins"@) {
            Some(segs[3])
        } else {
            None
        },
    }
}

/// The plugin folder an archive entry creates under plugins/, if any.
pub fn entry_plugin_folder(path: &str, root: &InstallRoot) -> (r: Option<String>)
    ensures
        root matches InstallRoot::WrapIntoFolder(folder) ==> (r matches Some(s) && s@ == folder@),
        root is PluginsDir ==> (r matches Some(s) && s@ == split_on(path@, '/')[0]),
        root is CssDir && split_on(path@, '/').len() >= 3 && eq_ic(split_on(path@, '/')[0], "plugins"@)
            ==> (r matches Some(s) && s@ == split_on(path@, '/')[1]),
        root is GameDir && split_on(path@, '/').len() >= 5 && eq_ic(split_on(path@, '/')[0], "addons"@)
            && eq_ic(split_on(path@, '/')[1], "counterstrikesharp"@) && eq_ic(split_on(path@, '/')[2], "plugins"@)
            ==> (r matches Some(s) && s@ == split_on(path@, '/')[3]),
        match entry_folder_spec(path@, *root) {
            Some(f) => r matches Some(s) && s@ == f,
            None => r is None,
        },
{
    let pv = chars_of(path);
    let segments = split_vec(pv.as_slice(), '/');
    proof {
        crate::text::lemma_split_nonempty(pv@, '/');
        reveal_strlit("plugins");
        let segs = split_on(path@, '/');
        if eq_ic(segs[0], "plugins"@) {
            assert(crate::text::lower_seq("plugins"@) =~= "plugins"@);
            assert(crate::source2::archive::css_dir_root(crate::source2::archive::top_of(path@)));
        }
    }
    match root {
        InstallRoot::PluginsDir => Some(string_of(segments[0].as_slice())),
        InstallRoot::WrapIntoFolder(folder) => Some(folder.clone()),
        InstallRoot::CssDir => {
            if is_css_dir_entry(path) {
                let plugins = chars_of("plugins");
                if segments.len() >= 3 && eq_ignore_case(segments[0].as_slice(), plugins.as_slice()) {
                    Some(string_of(segments[1].as_slice()))
                } else {
                    None
                }
            } else if segments.len() >= 2 {
                Some(string_of(segments[0].as_slice()))
            } else {
                None
            }
        },
        InstallRoot::GameDir => {
            let addons = chars_of("addons");
            let css = chars_of("counterstrikesharp");
            let plugins = chars_of("plugins");
            if segments.len() >= 5 && eq_ignore_case(segments[0].as_slice(), addons.as_slice())
                && eq_ignore_case(segments[1].as_slice(), css.as_slice())
                && eq_ignore_case(segments[2].as_slice(), plugins.as_slice()) {
                Some(string_of(segments[3].as_slice()))
            } else {
                None
            }
        },
    }
}

/// The non-empty plugin folders of the entries, each once, in the order
/// they first appear.
pub open spec fn folders_of(entries: Seq<ArchiveEntry>, root: InstallRoot) -> Seq<Seq<char>>
    decreases entries.len(),
{
    if entries.len() == 0 {
        Seq::empty()
    } else {
        let rest = folders_of(entries.drop_last(), root);
        match entry_folder_spec(entries.last().path@, root) {
            Some(f) => if f.len() > 0 && !rest.contains(f) { rest.push(f) } else { rest },
            None => rest,
        }
    }
}

/// The CounterStrikeSharp plugin folders an archive installs, each once, in
/// the order they first appear.
pub fn archive_plugin_folders(entries: &[ArchiveEntry], root: &InstallRoot) -> (r: Vec<String>)
    ensures
        texts(r@) == folders_of(entries@, *root),
        forall|a: int, b: int| 0 <= a < b < r@.len() ==> (#[trigger] r@[a])@ != (#[trigger] r@[b])@,
{
    let mut folders: Vec<String> = Vec::new();
    let mut i: usize = 0;
    assert(texts(folders@) =~= folders_of(entries@.take(0), *root));
    while i < entries.len()
        invariant
            i <= entries@.len(),
            texts(folders@) == folders_of(entries@.take(i as int), *root),
            forall|a: int, b: int| 0 <= a < b < folders@.len() ==> (#[trigger] folders@[a])@ != (#[trigger] folders@[b])@,
        decreases entries@.len() - i,
    {
        assert(entries@.take(i + 1).drop_last() =~= entries@.take(i as int));
        match entry_plugin_folder(entries[i].path.as_str(), root) {
            Some(folder) => {
                let seen = has_string(&folders, folder.as_str());
                proof {
                    let rest = folders_of(entries@.take(i as int), *root);
                    assert(entries@.take(i + 1).last() == entries@[i as int]);
                    if seen {
                        let k = choose|k: int| 0 <= k < folders@.len() && (#[trigger] folders@[k])@ == folder@;
                        assert(rest[k] == folders@[k]@);
                        assert(rest.contains(folder@));
                    } else {
                        assert forall|k: int| 0 <= k < rest.len() implies rest[k] != folder@ by {
                            assert(rest[k] == folders@[k]@);
                        }
                    }
                }
                if folder.as_str().unicode_len() > 0 && !seen {
                    let ghost before = folders@;
                    folders.push(folder);
                    proof {
                        assert(texts(folders@) =~= texts(before).push(folders@[before.len() as int]@));
                        assert forall|a: int, b: int| 0 <= a < b < folders@.len() implies (#[trigger] folders@[a])@ != (#[trigger] folders@[b])@ by {
                            assert(folders@[a] == before[a] || a == before.len());
                        }
                    }
                }
            },
            None => {
                assert(entries@.take(i + 1).last() == entries@[i as int]);
            },
        }
        i = i + 1;
    }
    assert(entries@.take(entries@.len() as int) =~= entries@);
    folders
}

/// Where an archive entry lands under the game dir `game_abs`, by layout.
pub open spec fn entry_target_spec(game_abs: Seq<char>, root: InstallRoot, path: Seq<char>) -> Seq<char> {
    let plugins = join_spec(game_abs, source2::CSS_PLUGINS_DIR@);
    match root {
        InstallRoot::GameDir => join_spec(game_abs, path),
        InstallRoot::PluginsDir => join_spec(plugins, path),
        InstallRoot::WrapIntoFolder(folder) => join_spec(join_spec(plugins, folder@), path),
        InstallRoot::CssDir => if is_css_dir_entry_spec(path) {
            join_spec(join_spec(game_abs, source2::CSS_DIR@), path)
        } else {
            join_spec(plugins, path)
        },
    }
}

/// Where an archive entry is written, by the archive's layout.
pub fn entry_target(ctx: &ServerCtx, root: &InstallRoot, path: &str) -> (r: String)
    ensures
        root is GameDir ==> r@ == join_spec(ctx.game_abs@, path@),
        root is PluginsDir ==> r@ == join_spec(join_spec(ctx.game_abs@, "addons/counterstrikesharp/plugins"@), path@),
        root matches InstallRoot::WrapIntoFolder(folder) ==> r@ == join_spec(
            join_spec(join_spec(ctx.game_abs@, "addons/counterstrikesharp/plugins"@), folder@), path@),
        root is CssDir && crate::source2::archive::css_top(split_on(path@, '/')[0]) ==> r@ == join_spec(
            join_spec(ctx.game_abs@, "addons/counterstrikesharp"@), path@),
        root is CssDir && !crate::source2::archive::css_top(split_on(path@, '/')[0]) ==> r@ == join_spec(
            join_spec(ctx.game_abs@, "addons/counterstrikesharp/plugins"@), path@),
        r@ == entry_target_spec(ctx.game_abs@, *root, path@),
{
    match root {
        InstallRoot::GameDir => join(ctx.game_abs.as_str(), path),
        InstallRoot::PluginsDir => join(css_plugins_abs(ctx).as_str(), path),
        InstallRoot::WrapIntoFolder(folder) => join(join(css_plugins_abs(ctx).as_str(), folder.as_str()).as_str(), path),
        InstallRoot::CssDir => {
            if is_css_dir_entry(path) {
                join(join(ctx.game_abs.as_str(), source2::CSS_DIR).as_str(), path)
            } else {
                join(css_plugins_abs(ctx).as_str(), path)
            }
        },
    }
}

/// `i` is the last `/` of `p`.
pub open spec fn last_slash_at(p: Seq<char>, i: int) -> bool {
    0 <= i < p.len() && p[i] == '/' && forall|j: int| i < j < p.len() ==> p[j] != '/'
}

/// The directory part of a path: everything before its last `/`.
pub open spec fn parent_path(p: Seq<char>) -> Seq<char> {
    p.take(choose|i: int| last_slash_at(p, i))
}

/// Creates every missing ancestor of `file_abs` (the daemon's mk_dir is not
/// promised to be recursive). Directories already made are remembered: on
/// success the file's directory is among them, and only ancestors of the
/// file are ever added.
pub fn ensure_parent_dirs<H: HostApi>(host: &mut H, node_id: u64, file_abs: &str, ensured: &mut Vec<String>) -> (r: Result<(), HostApiError>)
    ensures
        final(ensured)@.len() >= old(ensured)@.len(),
        final(ensured)@.take(old(ensured)@.len() as int) == old(ensured)@,
        forall|k: int| old(ensured)@.len() <= k < final(ensured)@.len() ==> has_prefix(file_abs@, (#[trigger] final(ensured)@[k])@),
        r is Ok && file_abs@.contains('/') ==> exists|k: int| 0 <= k < final(ensured)@.len() && (#[trigger] final(ensured)@[k])@ == parent_path(file_abs@),
        !file_abs@.contains('/') ==> r is Ok && final(ensured)@ == old(ensured)@ && final(host).trace() == old(host).trace(),
        file_abs@.contains('/') && (exists|k: int| 0 <= k < old(ensured)@.len() && (#[trigger] old(ensured)@[k])@ == parent_path(file_abs@))
            ==> r is Ok && final(ensured)@ == old(ensured)@ && final(host).trace() == old(host).trace(),
        grew(old(host).trace(), final(host).trace()),
        forall|i: int| old(host).trace().len() <= i < final(host).trace().len() && is_effect(#[trigger] final(host).trace()[i])
            ==> (final(host).trace()[i] matches HostCall::MkDir(n, p, _) && n == node_id && has_prefix(file_abs@, p)),
{
    let ghost t0 = host.trace();
    let ghost start = ensured@;
    let path = chars_of(file_abs);
    let parent_end = match last_slash(path.as_slice()) {
        Some(i) => i,
        None => return Ok(()),
    };
    let parent = string_of(sub_chars(path.as_slice(), 0, parent_end).as_slice());
    proof {
        let c = choose|i: int| last_slash_at(file_abs@, i);
        assert(last_slash_at(file_abs@, parent_end as int));
        if c < parent_end {
            assert(file_abs@[parent_end as int] != '/');
        } else if c > parent_end {
            assert(file_abs@[c] != '/');
        }
        assert(parent@ == parent_path(file_abs@));
        assert(has_prefix(file_abs@, parent@));
    }
    if has_string(ensured, parent.as_str()) {
        return Ok(());
    }
    assert(file_abs@.contains('/')) by {
        assert(file_abs@[parent_end as int] == '/');
    }
    let ghost fresh = !(exists|k: int| 0 <= k < old(ensured)@.len() && (#[trigger] old(ensured)@[k])@ == parent_path(file_abs@));
    assert(fresh);
    // Walk up to the longest existing ancestor, then create downwards.
    let mut missing: Vec<String> = Vec::new();
    let mut idx: usize = parent_end;
    loop
        invariant
            idx <= path@.len(),
            path@ == file_abs@,
            forall|m: int| 0 <= m < missing@.len() ==> has_prefix(file_abs@, (#[trigger] missing@[m])@),
            file_abs@.contains('/'),
            fresh == !(exists|k: int| 0 <= k < old(ensured)@.len() && (#[trigger] old(ensured)@[k])@ == parent_path(file_abs@)),
            fresh,
            t0 == old(host).trace(),
            reads_only(t0, host.trace()),
        decreases idx,
    {
        let candidate = string_of(sub_chars(path.as_slice(), 0, idx).as_slice());
        assert(has_prefix(file_abs@, candidate@));
        if has_string(ensured, candidate.as_str()) || host.stat(node_id, candidate.as_str())?.is_some() {
            break;
        }
        missing.push(candidate);
        let prefix = sub_chars(path.as_slice(), 0, idx);
        match last_slash(prefix.as_slice()) {
            Some(next) => {
                if next > 0 {
                    idx = next;
                } else {
                    break;
                }
            },
            None => break,
        }
    }
    let mut k: usize = missing.len();
    while k > 0
        invariant
            k <= missing@.len(),
            start == old(ensured)@,
            ensured@.len() >= start.len(),
            ensured@.take(start.len() as int) == start,
            forall|m: int| 0 <= m < missing@.len() ==> has_prefix(file_abs@, (#[trigger] missing@[m])@),
            forall|q: int| start.len() <= q < ensured@.len() ==> has_prefix(file_abs@, (#[trigger] ensured@[q])@),
            file_abs@.contains('/'),
            fresh == !(exists|k: int| 0 <= k < old(ensured)@.len() && (#[trigger] old(ensured)@[k])@ == parent_path(file_abs@)),
            fresh,
            t0 == old(host).trace(),
            grew(t0, host.trace()),
            forall|i: int| t0.len() <= i < host.trace().len() && is_effect(#[trigger] host.trace()[i])
                ==> (host.trace()[i] matches HostCall::MkDir(n, p, _) && n == node_id && has_prefix(file_abs@, p)),
        decreases k,
    {
        k = k - 1;
        host.mk_dir(node_id, missing[k].as_str())?;
        let ghost before = ensured@;
        ensured.push(missing[k].clone());
        assert(ensured@.take(start.len() as int) =~= before.take(start.len() as int));
    }
    let ghost before = ensured@;
    ensured.push(parent);
    assert(ensured@.take(start.len() as int) =~= before.take(start.len() as int));
    assert(ensured@[ensured@.len() - 1]@ == parent_path(file_abs@));
    Ok(())
}

/// Among the calls between two transcripts is a successful upload of
/// `data` to `path` with `mode`.
pub open spec fn uploaded(t0: Seq<HostCall>, t: Seq<HostCall>, node: u64, path: Seq<char>, data: Seq<u8>, mode: u32) -> bool {
    exists|k: int| t0.len() <= k < t.len() && (#[trigger] t[k] matches HostCall::Upload(n, p, d, m, a)
        && n == node && p == path && d == data && m == mode && a is Ok)
}

/// Whether some entry is larger than the panel takes in one upload.
pub open spec fn has_oversized(entries: Seq<ArchiveEntry>) -> bool {
    exists|k: int| 0 <= k < entries.len() && (#[trigger] entries[k]).data@.len() > PANEL_MAX_INLINE_BYTES
}

/// Writes the extracted entries where the layout puts them; the number of
/// files written. An entry larger than the panel's per-call upload limit is
/// refused (422) before anything is written.
pub fn write_archive_entries<H: HostApi>(host: &mut H, ctx: &ServerCtx, entries: &[ArchiveEntry], root: &InstallRoot) -> (r: Result<u32, ApiError>)
    ensures
        has_oversized(entries@) ==> (r matches Err(e) && e.status == 422),
        r matches Err(e) ==> host_failure(e) || (e.status == 422 && (e.code@ == "ENTRY_TOO_LARGE"@ || e.code@ == "BAD_ARCHIVE"@)),
        r matches Ok(n) ==> n as int == entries@.len(),
        grew(old(host).trace(), final(host).trace()),
        has_oversized(entries@) ==> final(host).trace() == old(host).trace(),
        r is Ok ==> forall|e: int| 0 <= e < entries@.len() ==> #[trigger] uploaded(old(host).trace(), final(host).trace(),
            ctx.node_id, entry_target_spec(ctx.game_abs@, *root, entries@[e].path@), entries@[e].data@, entries@[e].mode),
{
    proof {
        reveal_strlit("ENTRY_TOO_LARGE");
        reveal_strlit("BAD_ARCHIVE");
    }
    let mut i: usize = 0;
    while i < entries.len()
        invariant
            i <= entries@.len(),
            forall|k: int| 0 <= k < i ==> (#[trigger] entries@[k]).data@.len() <= PANEL_MAX_INLINE_BYTES,
        decreases entries@.len() - i,
    {
        if entries[i].data.len() as u64 > PANEL_MAX_INLINE_BYTES {
            return Err(ApiError::unprocessable(
                "ENTRY_TOO_LARGE",
                crate::text::cat3("archive entry ", entries[i].path.as_str(), " is larger than the panel accepts in one upload (32MB)"),
            ));
        }
        i = i + 1;
    }
    assert(!has_oversized(entries@));
    if entries.len() > 4294967295 {
        return Err(ApiError::unprocessable("BAD_ARCHIVE", String::from_str("archive has too many entries")));
    }
    let ghost t0 = host.trace();
    let mut ensured: Vec<String> = Vec::new();
    let mut written: u32 = 0;
    let mut j: usize = 0;
    while j < entries.len()
        invariant
            j <= entries@.len(),
            entries@.len() <= 4294967295,
            written as int == j,
            !has_oversized(entries@),
            t0 == old(host).trace(),
            grew(t0, host.trace()),
            forall|e: int| 0 <= e < j ==> #[trigger] uploaded(t0, host.trace(),
                ctx.node_id, entry_target_spec(ctx.game_abs@, *root, entries@[e].path@), entries@[e].data@, entries@[e].mode),
        decreases entries@.len() - j,
    {
        let target_abs = entry_target(ctx, root, entries[j].path.as_str());
        let ghost ta = host.trace();
        assert(forall|e: int| 0 <= e < j ==> #[trigger] uploaded(t0, ta,
            ctx.node_id, entry_target_spec(ctx.game_abs@, *root, entries@[e].path@), entries@[e].data@, entries@[e].mode));
        let ensured_dirs = ensure_parent_dirs(host, ctx.node_id, target_abs.as_str(), &mut ensured);
        proof { crate::host_api::lemma_grew_trans(t0, ta, host.trace()); }
        match ensured_dirs {
            Ok(()) => {},
            Err(h) => return Err(ApiError::from_host(h)),
        }
        let ghost tb = host.trace();
        let sent = host.upload(ctx.node_id, target_abs.as_str(), entries[j].data.as_slice(), entries[j].mode);
        proof {
            crate::host_api::lemma_grew_trans(t0, tb, host.trace());
            let t = host.trace();
            assert forall|e: int| 0 <= e < j implies #[trigger] uploaded(t0, t,
                ctx.node_id, entry_target_spec(ctx.game_abs@, *root, entries@[e].path@), entries@[e].data@, entries@[e].mode) by {
                assert(uploaded(t0, ta, ctx.node_id, entry_target_spec(ctx.game_abs@, *root, entries@[e].path@), entries@[e].data@, entries@[e].mode));
                let k = choose|k: int| t0.len() <= k < ta.len() && (#[trigger] ta[k] matches HostCall::Upload(n, p, d, m, a)
                    && n == ctx.node_id && p == entry_target_spec(ctx.game_abs@, *root, entries@[e].path@)
                    && d == entries@[e].data@ && m == entries@[e].mode && a is Ok);
                assert(tb[k] == ta[k]);
                assert(t[k] == tb[k]);
            }
        }
        match sent {
            Ok(()) => {},
            Err(h) => return Err(ApiError::from_host(h)),
        }
        proof {
            let t = host.trace();
            assert(t[t.len() - 1] matches HostCall::Upload(n, p, d, m, a) && a is Ok);
        }
        written = written + 1;
        j = j + 1;
    }
    Ok(written)
}

} // verus!
