//! Snapshots of the plugin setup (plugins/ + configs/plugins/) as tarballs
//! in addons/counterstrikesharp/backups/. Created before risky operations,
//! kept to a small retention cap, restorable in one call. The tar itself
//! runs on the node.

use vstd::prelude::*;

use crate::handlers::ctx::{lemma_route_failed, param_id, resolved_at, route_failed, ServerCtx};
use crate::handlers::{audit, host_failure, is_dir_at, is_file_at, now_unix, require_css_installed, tar_failure};
use crate::host_api::{calls_since, grew, is_effect, lemma_grew_trans, lemma_reads_only_trans, reads_only, HostApi, HostApiError, HostCall};
use crate::handlers::{stat_dir, stat_file};
use crate::http::{json_response, ApiError, ApiResult};
use crate::json::{json_text, Json};
use crate::handlers::state::texts;
use crate::model::{
    name_request, SnapshotCreateResponse, SnapshotInfo, SnapshotListResponse, SnapshotNameRequest,
    SnapshotRestoreResponse,
};
use crate::source2;
use crate::source2::paths::{join, join_spec};
use crate::text::{
    cat, cat3, chars_of, decimal, eq_ic, eq_ignore_case, has_prefix, has_suffix, is_whitespace, is_ws,
    is_digit, parse_u64, parse_u64_spec, starts_with, strip_plus, ends_with, sub_chars, u64_text,
};

verus! {

pub const KEEP_SNAPSHOTS: usize = 5;
pub const SNAPSHOT_PREFIX: &'static str = "snap-";
pub const SNAPSHOT_EXT: &'static str = ".tar";

/// "snap-1734567890.tar" is taken at 1734567890.
pub open spec fn snapshot_ts(file_name: Seq<char>) -> Option<u64> {
    if has_prefix(file_name, "snap-"@) && has_suffix(file_name.skip(5), ".tar"@) {
        let rest = file_name.skip(5);
        parse_u64_spec(rest.take(rest.len() - 4))
    } else {
        None
    }
}

/// The archive a snapshot taken at `n` is stored as reads back as taken at
/// `n`; a name without the `snap-` prefix is no snapshot.
pub proof fn lemma_snapshot_name_round_trip(n: u64, other: Seq<char>)
    ensures
        snapshot_ts("snap-"@ + crate::text::decimal(n as nat) + ".tar"@) == Some(n),
        !has_prefix(other, "snap-"@) ==> snapshot_ts(other) is None,
{
    reveal_strlit("snap-");
    reveal_strlit(".tar");
    let d = crate::text::decimal(n as nat);
    let f = "snap-"@ + d + ".tar"@;
    assert(f.take(5) =~= "snap-"@);
    assert(f.skip(5) =~= d + ".tar"@);
    let rest = f.skip(5);
    assert(rest.skip(rest.len() - 4) =~= ".tar"@);
    assert(rest.take(rest.len() - 4) =~= d);
    crate::text::lemma_u64_text_parses(n);
}

pub fn parse_snapshot_ts(file_name: &str) -> (r: Option<u64>)
    ensures
        r == snapshot_ts(file_name@),
        forall|n: u64| file_name@ == "snap-"@ + crate::text::decimal(n as nat) + ".tar"@ ==> r == Some(n),
        !has_prefix(file_name@, "snap-"@) ==> r is None,
{
    proof {
        reveal_strlit("snap-");
        reveal_strlit(".tar");
        assert forall|n: u64| file_name@ == "snap-"@ + crate::text::decimal(n as nat) + ".tar"@
            implies snapshot_ts(file_name@) == Some(n) by {
            lemma_snapshot_name_round_trip(n, file_name@);
        }
    }
    let v = chars_of(file_name);
    let prefix = chars_of(SNAPSHOT_PREFIX);
    let ext = chars_of(SNAPSHOT_EXT);
    if !starts_with(v.as_slice(), prefix.as_slice()) {
        return None;
    }
    let rest = sub_chars(v.as_slice(), 5, v.len());
    assert(rest@ == v@.skip(5));
    if !ends_with(rest.as_slice(), ext.as_slice()) {
        return None;
    }
    let digits = sub_chars(rest.as_slice(), 0, rest.len() - 4);
    assert(digits@ == rest@.take(rest@.len() - 4));
    parse_u64(digits.as_slice())
}

/// A snapshot name a request may use: `snap-<unix seconds>`.
pub open spec fn valid_snapshot_name(name: Seq<char>) -> bool {
    snapshot_ts(name + ".tar"@) is Some
}

pub fn validate_name(name: &str) -> (r: Result<(), ApiError>)
    ensures
        r is Ok <==> valid_snapshot_name(name@),
        r matches Err(e) ==> e.status == 400,
{
    let file = cat(name, SNAPSHOT_EXT);
    if parse_snapshot_ts(file.as_str()).is_none() {
        return Err(ApiError::bad_request(String::from_str("invalid snapshot name")));
    }
    Ok(())
}

pub fn css_abs(ctx: &ServerCtx) -> (r: String)
    ensures
        r@ == join_spec(ctx.game_abs@, source2::CSS_DIR@),
{
    join(ctx.game_abs.as_str(), source2::CSS_DIR)
}

pub fn backups_abs(ctx: &ServerCtx) -> (r: String)
    ensures
        r@ == join_spec(ctx.game_abs@, source2::BACKUPS_DIR@),
{
    join(ctx.game_abs.as_str(), source2::BACKUPS_DIR)
}

/// A path a node-side command can take as one argument: no white space or
/// quotes (the daemon splits commands on them).
pub open spec fn exec_safe(path: Seq<char>) -> bool {
    forall|i: int| 0 <= i < path.len() ==> !is_ws(#[trigger] path[i]) && path[i] != '"' && path[i] != '\''
}

/// A snapshot name that validation accepts can stand in a node-side
/// command: it is `snap-` followed by decimal digits, so it holds no white
/// space and no quote.
pub proof fn lemma_valid_name_exec_safe(name: Seq<char>)
    requires
        valid_snapshot_name(name),
    ensures
        exec_safe(name),
{
    reveal_strlit("snap-");
    reveal_strlit(".tar");
    let file = name + ".tar"@;
    let rest = file.skip(5);
    let digits = rest.take(rest.len() - 4);
    assert(name.len() >= 5);
    assert forall|i: int| 0 <= i < name.len() implies !is_ws(#[trigger] name[i]) && name[i] != '"' && name[i] != '\'' by {
        if i < 5 {
            assert(name[i] == file.take(5)[i]);
            assert(file.take(5) == "snap-"@);
        } else {
            assert(name[i] == digits[i - 5]);
            let d = strip_plus(digits);
            if digits.len() > 0 && digits[0] == '+' {
                if i > 5 {
                    assert(digits[i - 5] == d[i - 6]);
                    assert(is_digit(d[i - 6]));
                }
            } else {
                assert(is_digit(d[i - 5]));
            }
        }
    }
}

pub fn is_exec_safe(path: &str) -> (b: bool)
    ensures
        b == exec_safe(path@),
{
    let v = chars_of(path);
    let mut i: usize = 0;
    while i < v.len()
        invariant
            i <= v@.len(),
            v@ == path@,
            forall|j: int| 0 <= j < i ==> !is_ws(#[trigger] v@[j]) && v@[j] != '"' && v@[j] != '\'',
        decreases v@.len() - i,
    {
        if is_whitespace(v[i]) || v[i] == '"' || v[i] == '\'' {
            return false;
        }
        i = i + 1;
    }
    true
}

/// A node that runs tar: linux (or not reported), and a game path that a
/// node command can take.
pub open spec fn linux_node(os: Seq<char>) -> bool {
    os.len() == 0 || eq_ic(os, "linux"@)
}

pub fn require_linux(ctx: &ServerCtx) -> (r: Result<(), ApiError>)
    ensures
        r is Ok <==> linux_node(ctx.node_os@) && exec_safe(ctx.game_abs@),
        r matches Err(e) ==> e.status == 422,
{
    let os = chars_of(ctx.node_os.as_str());
    let linux = chars_of("linux");
    if os.len() > 0 && !eq_ignore_case(os.as_slice(), linux.as_slice()) {
        return Err(ApiError::unprocessable(
            "LINUX_NODE_REQUIRED",
            String::from_str("snapshots use tar on the node and support linux nodes only"),
        ));
    }
    if !is_exec_safe(ctx.game_abs.as_str()) {
        return Err(ApiError::unprocessable(
            "UNSAFE_PATH",
            String::from_str("server path contains whitespace or quotes; node-side tar cannot handle it safely"),
        ));
    }
    Ok(())
}

/// Inserts keeping the list newest first; among equal times, earlier
/// insertions stay first.
pub fn insert_newest_first(list: &mut Vec<SnapshotInfo>, info: SnapshotInfo)
    requires
        forall|a: int, b: int| 0 <= a < b < old(list)@.len() ==> (#[trigger] old(list)@[a]).created_at >= (#[trigger] old(list)@[b]).created_at,
    ensures
        final(list)@.len() == old(list)@.len() + 1,
        forall|a: int, b: int| 0 <= a < b < final(list)@.len() ==> (#[trigger] final(list)@[a]).created_at >= (#[trigger] final(list)@[b]).created_at,
        exists|p: int| 0 <= p <= old(list)@.len() && final(list)@ == #[trigger] old(list)@.insert(p, info),
{
    let mut p: usize = 0;
    while p < list.len() && list[p].created_at >= info.created_at
        invariant
            p <= list@.len(),
            forall|a: int| 0 <= a < p ==> (#[trigger] list@[a]).created_at >= info.created_at,
        decreases list@.len() - p,
    {
        p = p + 1;
    }
    let ghost before = list@;
    let ghost ts = info.created_at;
    list.insert(p, info);
    proof {
        assert forall|a: int, b: int| 0 <= a < b < list@.len() implies (#[trigger] list@[a]).created_at >= (#[trigger] list@[b]).created_at by {
            if a < p && b < p {
                assert(list@[a] == before[a] && list@[b] == before[b]);
            } else if a < p && b == p {
                assert(list@[a] == before[a]);
            } else if a < p {
                assert(list@[a] == before[a] && list@[b] == before[b - 1]);
            } else if a == p {
                assert(list@[b] == before[b - 1]);
                assert(p < before.len() ==> before[p as int].created_at < ts);
                if p < before.len() {
                    assert(before[p as int].created_at >= before[b - 1].created_at || b - 1 == p);
                }
            } else {
                assert(list@[a] == before[a - 1] && list@[b] == before[b - 1]);
            }
        }
    }
}

/// A listing entry that is a snapshot archive: a file `snap-<u64>.tar`.
pub open spec fn snapshot_file(e: crate::host_api::DirEntry) -> bool {
    !e.is_dir && snapshot_ts(e.name@) is Some
}

/// The listing holds the snapshot stored as `file`.
pub open spec fn lists_file(v: Seq<SnapshotInfo>, file: Seq<char>) -> bool {
    exists|j: int| 0 <= j < v.len() && (#[trigger] v[j]).name@ + ".tar"@ == file
}

/// Among the calls after `t0` is a stat of `path` whose answer gives `size`
/// (zero when nothing is there).
pub open spec fn sized_at(t0: Seq<HostCall>, t: Seq<HostCall>, node: u64, path: Seq<char>, size: u64) -> bool {
    exists|k: int| #![trigger t[k]] t0.len() <= k < t.len() && (t[k] matches HostCall::Stat(n, p, Ok(f))
        && n == node && p == path && size == (match f {
            Some(st) => st.size,
            None => 0u64,
        }))
}

/// A stat seen stays seen as calls are appended.
pub proof fn lemma_sized_grows(t0: Seq<HostCall>, a: Seq<HostCall>, b: Seq<HostCall>, node: u64, path: Seq<char>, size: u64)
    requires
        sized_at(t0, a, node, path, size),
        grew(a, b),
    ensures
        sized_at(t0, b, node, path, size),
{
    let k = choose|k: int| #![trigger a[k]] t0.len() <= k < a.len() && (a[k] matches HostCall::Stat(n, p, Ok(f))
        && n == node && p == path && size == (match f {
            Some(st) => st.size,
            None => 0u64,
        }));
    assert(b[k] == a[k]);
}

/// The snapshots in backups/, newest first.
pub fn list_snapshots<H: HostApi>(host: &mut H, ctx: &ServerCtx) -> (r: Result<Vec<SnapshotInfo>, ApiError>)
    ensures
        r matches Ok(v) ==> forall|a: int, b: int| 0 <= a < b < v@.len() ==> (#[trigger] v@[a]).created_at >= (#[trigger] v@[b]).created_at,
        r matches Ok(v) ==> forall|k: int| 0 <= k < v@.len() ==> snapshot_ts((#[trigger] v@[k]).name@ + ".tar"@) == Some(v@[k].created_at),
        r matches Err(e) ==> host_failure(e),
        r matches Ok(v) ==> forall|k: int| 0 <= k < v@.len() ==> sized_at(old(host).trace(), final(host).trace(), ctx.node_id,
            join_spec(join_spec(ctx.game_abs@, source2::BACKUPS_DIR@), (#[trigger] v@[k]).name@ + ".tar"@), v@[k].size),
        grew(old(host).trace(), final(host).trace()),
        reads_only(old(host).trace(), final(host).trace()),
        final(host).trace().len() > old(host).trace().len(),
        final(host).trace()[old(host).trace().len() as int] matches HostCall::ReadDir(n, p, a)
            && n == ctx.node_id && p == join_spec(ctx.game_abs@, source2::BACKUPS_DIR@)
            && (a matches Ok(None) ==> (r matches Ok(v) && v@.len() == 0))
            && (a matches Ok(Some(es)) ==> (r matches Ok(v) ==> v@.len() <= es@.len()
                && forall|k: int| 0 <= k < es@.len() && snapshot_file(#[trigger] es@[k]) ==> lists_file(v@, es@[k].name@))),
{
    let ghost t0 = host.trace();
    let backups = backups_abs(ctx);
    let listing = match host.read_dir(ctx.node_id, backups.as_str()) {
        Ok(l) => l,
        Err(e) => return Err(ApiError::from_host(e)),
    };
    let entries = match listing {
        Some(e) => e,
        None => return Ok(Vec::new()),
    };
    let mut snapshots: Vec<SnapshotInfo> = Vec::new();
    let mut i: usize = 0;
    while i < entries.len()
        invariant
            i <= entries@.len(),
            forall|a: int, b: int| 0 <= a < b < snapshots@.len() ==> (#[trigger] snapshots@[a]).created_at >= (#[trigger] snapshots@[b]).created_at,
            forall|k: int| 0 <= k < snapshots@.len() ==> snapshot_ts((#[trigger] snapshots@[k]).name@ + ".tar"@) == Some(snapshots@[k].created_at),
            t0 == old(host).trace(),
            grew(t0, host.trace()),
            reads_only(t0, host.trace()),
            host.trace().len() > t0.len(),
            host.trace()[t0.len() as int] == HostCall::ReadDir(ctx.node_id, join_spec(ctx.game_abs@, source2::BACKUPS_DIR@),
                Ok::<Option<Vec<crate::host_api::DirEntry>>, HostApiError>(Some(entries))),
            snapshots@.len() <= i,
            forall|k: int| 0 <= k < i && snapshot_file(#[trigger] entries@[k]) ==> lists_file(snapshots@, entries@[k].name@),
            backups@ == join_spec(ctx.game_abs@, source2::BACKUPS_DIR@),
            forall|k: int| 0 <= k < snapshots@.len() ==> sized_at(t0, host.trace(), ctx.node_id,
                join_spec(backups@, (#[trigger] snapshots@[k]).name@ + ".tar"@), snapshots@[k].size),
        decreases entries@.len() - i,
    {
        if !entries[i].is_dir {
            match parse_snapshot_ts(entries[i].name.as_str()) {
                Some(ts) => {
                    let abs = join(backups.as_str(), entries[i].name.as_str());
                    let ghost ts0 = host.trace();
                    let stat_r = host.stat(ctx.node_id, abs.as_str());
                    let ghost ts1 = host.trace();
                    proof {
                        assert forall|k: int| 0 <= k < snapshots@.len() implies sized_at(t0, ts1, ctx.node_id,
                            join_spec(backups@, (#[trigger] snapshots@[k]).name@ + ".tar"@), snapshots@[k].size) by {
                            lemma_sized_grows(t0, ts0, ts1, ctx.node_id, join_spec(backups@, snapshots@[k].name@ + ".tar"@), snapshots@[k].size);
                        }
                    }
                    let found = match stat_r {
                        Ok(f) => f,
                        Err(e) => return Err(ApiError::from_host(e)),
                    };
                    let size = match found {
                        Some(s) => s.size,
                        None => 0,
                    };
                    let v = chars_of(entries[i].name.as_str());
                    proof {
                        reveal_strlit("snap-");
                        reveal_strlit(".tar");
                        assert(snapshot_ts(v@) is Some);
                        assert(v@.skip(5).len() >= 4);
                    }
                    let name = crate::text::string_of(sub_chars(v.as_slice(), 0, v.len() - 4).as_slice());
                    proof {
                        reveal_strlit(".tar");
                        assert(name@ + ".tar"@ =~= v@);
                        assert(ts1[ts0.len() as int] == HostCall::Stat(ctx.node_id, abs@,
                            Ok::<Option<crate::host_api::FileStat>, HostApiError>(found)));
                        assert(sized_at(t0, ts1, ctx.node_id, join_spec(backups@, name@ + ".tar"@), size));
                    }
                    let info = SnapshotInfo {
                        name,
                        created_at: ts,
                        size,
                        path: ctx.rel(join(source2::BACKUPS_DIR, entries[i].name.as_str()).as_str()),
                    };
                    let ghost before = snapshots@;
                    let ghost inf = info;
                    insert_newest_first(&mut snapshots, info);
                    proof {
                        let p = choose|p: int| 0 <= p <= before.len() && snapshots@ == #[trigger] before.insert(p, inf);
                        assert forall|k: int| 0 <= k < i + 1 && snapshot_file(#[trigger] entries@[k]) implies lists_file(snapshots@, entries@[k].name@) by {
                            if k < i {
                                let j = choose|j: int| 0 <= j < before.len() && (#[trigger] before[j]).name@ + ".tar"@ == entries@[k].name@;
                                if j < p {
                                    assert(snapshots@[j] == before[j]);
                                } else {
                                    assert(snapshots@[j + 1] == before[j]);
                                }
                            } else {
                                assert(snapshots@[p] == inf);
                            }
                        }
                        assert forall|k: int| 0 <= k < snapshots@.len() implies sized_at(t0, host.trace(), ctx.node_id,
                            join_spec(backups@, (#[trigger] snapshots@[k]).name@ + ".tar"@), snapshots@[k].size) by {
                            if k < p {
                                assert(snapshots@[k] == before[k]);
                            } else if k > p {
                                assert(snapshots@[k] == before[k - 1]);
                            }
                        }
                        assert forall|k: int| 0 <= k < snapshots@.len() implies snapshot_ts((#[trigger] snapshots@[k]).name@ + ".tar"@) == Some(snapshots@[k].created_at) by {
                            if k < p {
                                assert(snapshots@[k] == before[k]);
                            } else if k > p {
                                assert(snapshots@[k] == before[k - 1]);
                            }
                        }
                    }
                },
                None => {},
            }
        }
        i = i + 1;
    }
    Ok(snapshots)
}

/// The names of the snapshots retention may delete: all but `protect`.
pub open spec fn unprotected(listed: Seq<SnapshotInfo>, protect: Option<Seq<char>>) -> Seq<Seq<char>>
    decreases listed.len(),
{
    if listed.len() == 0 {
        Seq::empty()
    } else {
        let rest = unprotected(listed.drop_last(), protect);
        if protect == Some(listed.last().name@) {
            rest
        } else {
            rest.push(listed.last().name@)
        }
    }
}

/// What retention deletes from a newest-first listing: the unprotected
/// snapshots past the newest [`KEEP_SNAPSHOTS`], oldest first.
pub open spec fn retention_victims(listed: Seq<SnapshotInfo>, protect: Option<Seq<char>>) -> Seq<Seq<char>> {
    let u = unprotected(listed, protect);
    if u.len() > KEEP_SNAPSHOTS {
        Seq::new((u.len() - KEEP_SNAPSHOTS) as nat, |i: int| u[u.len() - 1 - i])
    } else {
        Seq::empty()
    }
}

/// Retention keeps the newest [`KEEP_SNAPSHOTS`] unprotected snapshots of a
/// newest-first listing and prunes all the others, oldest first.
pub proof fn lemma_retention_keeps_newest(listed: Seq<SnapshotInfo>, protect: Option<Seq<char>>)
    ensures
        unprotected(listed, protect).len() <= KEEP_SNAPSHOTS ==> retention_victims(listed, protect).len() == 0,
        unprotected(listed, protect).len() > KEEP_SNAPSHOTS
            ==> retention_victims(listed, protect).len() + KEEP_SNAPSHOTS == unprotected(listed, protect).len(),
        forall|i: int| 0 <= i < retention_victims(listed, protect).len() ==> #[trigger] retention_victims(listed, protect)[i]
            == unprotected(listed, protect)[unprotected(listed, protect).len() - 1 - i],
{
}

/// Retention never deletes the protected snapshot (a restore's target), and
/// only deletes snapshots of the listing.
pub proof fn lemma_protected_never_pruned(listed: Seq<SnapshotInfo>, protect: Seq<char>)
    ensures
        forall|i: int| 0 <= i < retention_victims(listed, Some(protect)).len()
            ==> #[trigger] retention_victims(listed, Some(protect))[i] != protect,
{
    lemma_unprotected_excludes(listed, protect);
    let u = unprotected(listed, Some(protect));
    assert forall|i: int| 0 <= i < retention_victims(listed, Some(protect)).len()
        implies #[trigger] retention_victims(listed, Some(protect))[i] != protect by {
        assert(retention_victims(listed, Some(protect))[i] == u[u.len() - 1 - i]);
    }
}

proof fn lemma_unprotected_excludes(listed: Seq<SnapshotInfo>, protect: Seq<char>)
    ensures
        forall|i: int| 0 <= i < unprotected(listed, Some(protect)).len() ==> #[trigger] unprotected(listed, Some(protect))[i] != protect,
    decreases listed.len(),
{
    if listed.len() > 0 {
        lemma_unprotected_excludes(listed.drop_last(), protect);
        let rest = unprotected(listed.drop_last(), Some(protect));
        let u = unprotected(listed, Some(protect));
        assert forall|i: int| 0 <= i < u.len() implies #[trigger] u[i] != protect by {
            if i < rest.len() {
                assert(u[i] == rest[i]);
            } else {
                assert(u[i] == listed.last().name@);
                assert(Some(protect) != Some(listed.last().name@));
            }
        }
    }
}

/// The retention candidates of a newest-first listing, oldest first.
pub fn prune_candidates(listed: &Vec<SnapshotInfo>, protect: Option<&str>) -> (r: Vec<String>)
    ensures
        texts(r@) == retention_victims(listed@, match protect { Some(p) => Some(p@), None => None }),
{
    let ghost pv: Option<Seq<char>> = match protect { Some(p) => Some(p@), None => None };
    let mut kept: Vec<String> = Vec::new();
    let mut k: usize = 0;
    assert(listed@.take(0) =~= Seq::<SnapshotInfo>::empty());
    assert(texts(kept@) =~= unprotected(listed@.take(0), pv));
    while k < listed.len()
        invariant
            k <= listed@.len(),
            pv == match protect { Some(p) => Some(p@), None => None::<Seq<char>> },
            texts(kept@) == unprotected(listed@.take(k as int), pv),
        decreases listed@.len() - k,
    {
        assert(listed@.take(k + 1).drop_last() =~= listed@.take(k as int));
        let protected = match protect {
            Some(p) => crate::text::str_eq(listed[k].name.as_str(), p),
            None => false,
        };
        if !protected {
            let ghost before = kept@;
            kept.push(listed[k].name.clone());
            proof {
                assert(texts(kept@) =~= texts(before).push(listed@[k as int].name@));
            }
        }
        k = k + 1;
    }
    assert(listed@.take(listed@.len() as int) =~= listed@);
    let ghost u = texts(kept@);
    let mut victims: Vec<String> = Vec::new();
    while kept.len() > KEEP_SNAPSHOTS
        invariant
            u == unprotected(listed@, pv),
            kept@.len() <= u.len(),
            texts(kept@) == u.take(kept@.len() as int),
            u.len() > KEEP_SNAPSHOTS ==> kept@.len() >= KEEP_SNAPSHOTS,
            u.len() <= KEEP_SNAPSHOTS ==> kept@.len() == u.len(),
            victims@.len() == u.len() - kept@.len(),
            forall|i: int| 0 <= i < victims@.len() ==> (#[trigger] victims@[i])@ == u[u.len() - 1 - i],
        decreases kept@.len(),
    {
        let ghost before = kept@;
        let oldest = kept.pop();
        match oldest {
            Some(o) => {
                proof {
                    assert(texts(before)[before.len() - 1] == before[before.len() - 1]@);
                    assert(o@ == u[before.len() - 1]);
                    assert(texts(kept@) =~= u.take(kept@.len() as int));
                }
                victims.push(o);
            },
            None => {},
        }
    }
    proof {
        let w = retention_victims(listed@, pv);
        assert(texts(victims@).len() == w.len());
        assert forall|i: int| 0 <= i < w.len() implies texts(victims@)[i] == w[i] by {
            assert(texts(victims@)[i] == victims@[i]@);
        }
        assert(texts(victims@) =~= w);
    }
    victims
}

pub struct CreatedSnapshot {
    pub info: SnapshotInfo,
    pub pruned: Vec<String>,
}

/// The tar command that archives `members` (relative to the working
/// directory) into `archive`.
pub open spec fn tar_create(archive: Seq<char>, members: Seq<Seq<char>>) -> Seq<char>
    decreases members.len(),
{
    if members.len() == 0 {
        "tar -cf "@ + archive
    } else {
        tar_create(archive, members.drop_last()) + " "@ + members.last()
    }
}

/// Builds [`tar_create`].
pub fn tar_create_command(archive: &str, members: &Vec<&'static str>) -> (c: String)
    ensures
        c@ == tar_create(archive@, members@.map_values(|m: &'static str| m@)),
{
    let mut command = cat("tar -cf ", archive);
    let mut m: usize = 0;
    assert(members@.take(0).map_values(|x: &'static str| x@) =~= Seq::<Seq<char>>::empty());
    while m < members.len()
        invariant
            m <= members@.len(),
            command@ == tar_create(archive@, members@.take(m as int).map_values(|x: &'static str| x@)),
        decreases members@.len() - m,
    {
        let ghost before = members@.take(m as int).map_values(|x: &'static str| x@);
        let ghost after = members@.take(m + 1).map_values(|x: &'static str| x@);
        assert(after =~= before.push(members@[m as int]@));
        assert(after.drop_last() =~= before);
        command = cat3(command.as_str(), " ", members[m]);
        assert(command@ == tar_create(archive@, after));
        m = m + 1;
    }
    assert(members@.take(members@.len() as int) =~= members@);
    command
}

/// The snapshot members, relative to addons/counterstrikesharp, that the
/// three probes found as directories: plugins/, configs/plugins/, shared/.
pub open spec fn present_members(a0: Result<Option<crate::host_api::FileStat>, HostApiError>,
    a1: Result<Option<crate::host_api::FileStat>, HostApiError>, a2: Result<Option<crate::host_api::FileStat>, HostApiError>) -> Seq<Seq<char>>
{
    (if stat_dir(a0) == Ok::<bool, HostApiError>(true) { seq!["plugins"@] } else { Seq::empty() })
    + (if stat_dir(a1) == Ok::<bool, HostApiError>(true) { seq!["configs/plugins"@] } else { Seq::empty() })
    + (if stat_dir(a2) == Ok::<bool, HostApiError>(true) { seq!["shared"@] } else { Seq::empty() })
}

/// The first three calls after `t0` are the probes of the snapshot members
/// plugins/, configs/plugins/ and shared/ under addons/counterstrikesharp.
pub open spec fn snapshot_probed(t0: Seq<HostCall>, t: Seq<HostCall>, ctx: ServerCtx) -> bool {
    let b = t0.len() as int;
    let css = join_spec(ctx.game_abs@, source2::CSS_DIR@);
    &&& t.len() >= b + 3
    &&& t[b] matches HostCall::Stat(n0, p0, _)
    &&& t[b + 1] matches HostCall::Stat(n1, p1, _)
    &&& t[b + 2] matches HostCall::Stat(n2, p2, _)
    &&& n0 == ctx.node_id && n1 == ctx.node_id && n2 == ctx.node_id
    &&& p0 == join_spec(css, "plugins"@) && p1 == join_spec(css, "configs/plugins"@) && p2 == join_spec(css, "shared"@)
}

/// The members the three probes after `t0` found.
pub open spec fn probed_members(t0: Seq<HostCall>, t: Seq<HostCall>) -> Seq<Seq<char>> {
    let b = t0.len() as int;
    present_members(t[b]->Stat_2, t[b + 1]->Stat_2, t[b + 2]->Stat_2)
}

/// The three probes after `t0` were all answered.
pub open spec fn probes_answered(t0: Seq<HostCall>, t: Seq<HostCall>) -> bool {
    let b = t0.len() as int;
    &&& stat_dir(t[b]->Stat_2) is Ok
    &&& stat_dir(t[b + 1]->Stat_2) is Ok
    &&& stat_dir(t[b + 2]->Stat_2) is Ok
}

/// The archive path of the snapshot taken at `stamp`.
pub open spec fn snapshot_archive(ctx: ServerCtx, stamp: u64) -> Seq<char> {
    join_spec(join_spec(ctx.game_abs@, source2::BACKUPS_DIR@), "snap-"@ + decimal(stamp as nat) + ".tar"@)
}

/// A tar run that archives `members` into some snapshot of `ctx`.
pub open spec fn snapshot_tar(ctx: ServerCtx, cmd: Seq<char>, members: Seq<Seq<char>>) -> bool {
    exists|stamp: u64| cmd == #[trigger] tar_create(snapshot_archive(ctx, stamp), members)
}

/// What a snapshot may change, between two transcripts: every call that
/// changes something is the creation of the backups dir, a tar run in the
/// CounterStrikeSharp dir that archives `members` into a snapshot, or the
/// non-recursive removal of a file in the backups dir; and there is at most
/// one command run.
pub open spec fn snapshot_effects(t0: Seq<HostCall>, t: Seq<HostCall>, ctx: ServerCtx, members: Seq<Seq<char>>) -> bool {
    let backups = join_spec(ctx.game_abs@, source2::BACKUPS_DIR@);
    &&& forall|i: int| t0.len() <= i < t.len() && is_effect(#[trigger] t[i]) ==> {
        ||| t[i] matches HostCall::MkDir(n, p, _) && n == ctx.node_id && p == backups
        ||| t[i] matches HostCall::Exec(n, cmd, wd, _) && n == ctx.node_id
            && wd == Some(join_spec(ctx.game_abs@, source2::CSS_DIR@)) && snapshot_tar(ctx, cmd, members)
        ||| t[i] matches HostCall::Remove(n, p, rec, _) && n == ctx.node_id && !rec
            && exists|f: Seq<char>| p == #[trigger] join_spec(backups, f)
    }
    &&& forall|i: int, j: int| t0.len() <= i < t.len() && t0.len() <= j < t.len()
        && (#[trigger] t[i]) is Exec && (#[trigger] t[j]) is Exec ==> i == j
}

/// Among the calls after `t0` is a tar run that the node answered with a
/// non-zero exit code.
pub open spec fn tar_refused(t0: Seq<HostCall>, t: Seq<HostCall>) -> bool {
    exists|k: int| #![trigger t[k]] t0.len() <= k < t.len()
        && (t[k] matches HostCall::Exec(_, _, _, Ok(res)) && res.exit_code != 0)
}

/// What making a snapshot did, between two transcripts: it probed the three
/// member dirs first, and among its later calls is the one tar run, in the
/// CounterStrikeSharp dir, that archived the members found into
/// `backups/snap-<created_at>.tar`, and it succeeded.
pub open spec fn snapshot_made(t0: Seq<HostCall>, t: Seq<HostCall>, ctx: ServerCtx, created_at: u64) -> bool {
    let b = t0.len() as int;
    let css = join_spec(ctx.game_abs@, source2::CSS_DIR@);
    &&& snapshot_probed(t0, t, ctx)
    &&& exists|k: int| #![trigger t[k]] b + 3 <= k < t.len() && (t[k] matches HostCall::Exec(n, cmd, wd, Ok(res))
        && n == ctx.node_id && wd == Some(css) && res.exit_code == 0
        && cmd == tar_create(snapshot_archive(ctx, created_at), probed_members(t0, t)))
}

/// [`snapshot_effects`] while a snapshot is being made, with its one tar
/// run at `kexec`.
pub open spec fn effects_so_far(t0: Seq<HostCall>, t: Seq<HostCall>, ctx: ServerCtx, members: Seq<Seq<char>>, kexec: int) -> bool {
    &&& snapshot_effects(t0, t, ctx, members)
    &&& t0.len() <= kexec < t.len()
    &&& forall|i: int| t0.len() <= i < t.len() && (#[trigger] t[i]) is Exec ==> i == kexec
}

proof fn lemma_reads_keep_effects(t0: Seq<HostCall>, a: Seq<HostCall>, b: Seq<HostCall>, ctx: ServerCtx, members: Seq<Seq<char>>, kexec: int)
    requires
        effects_so_far(t0, a, ctx, members, kexec),
        reads_only(a, b),
    ensures
        effects_so_far(t0, b, ctx, members, kexec),
{
    assert forall|i: int| t0.len() <= i < b.len() && (#[trigger] b[i]) is Exec implies i == kexec by {
        if i >= a.len() {
            assert(!is_effect(b[i]));
        } else {
            assert(b[i] == a[i]);
        }
    }
    assert forall|i: int| t0.len() <= i < b.len() && is_effect(#[trigger] b[i]) implies {
        let backups = join_spec(ctx.game_abs@, source2::BACKUPS_DIR@);
        ||| b[i] matches HostCall::MkDir(n, p, _) && n == ctx.node_id && p == backups
        ||| b[i] matches HostCall::Exec(n, cmd, wd, _) && n == ctx.node_id
            && wd == Some(join_spec(ctx.game_abs@, source2::CSS_DIR@)) && snapshot_tar(ctx, cmd, members)
        ||| b[i] matches HostCall::Remove(n, p, rec, _) && n == ctx.node_id && !rec
            && exists|f: Seq<char>| p == #[trigger] join_spec(backups, f)
    } by {
        assert(i < a.len());
        assert(b[i] == a[i]);
    }
}

proof fn lemma_remove_keeps_effects(t0: Seq<HostCall>, a: Seq<HostCall>, b: Seq<HostCall>, ctx: ServerCtx, members: Seq<Seq<char>>, kexec: int, f: Seq<char>)
    requires
        effects_so_far(t0, a, ctx, members, kexec),
        grew(a, b),
        b.len() == a.len() + 1,
        b.last() matches HostCall::Remove(n, p, rec, _) && n == ctx.node_id && !rec
            && p == join_spec(join_spec(ctx.game_abs@, source2::BACKUPS_DIR@), f),
    ensures
        effects_so_far(t0, b, ctx, members, kexec),
{
    let backups = join_spec(ctx.game_abs@, source2::BACKUPS_DIR@);
    assert forall|i: int| t0.len() <= i < b.len() && (#[trigger] b[i]) is Exec implies i == kexec by {
        if i < a.len() {
            assert(b[i] == a[i]);
        }
    }
    assert forall|i: int| t0.len() <= i < b.len() && is_effect(#[trigger] b[i]) implies {
        ||| b[i] matches HostCall::MkDir(n, p, _) && n == ctx.node_id && p == backups
        ||| b[i] matches HostCall::Exec(n, cmd, wd, _) && n == ctx.node_id
            && wd == Some(join_spec(ctx.game_abs@, source2::CSS_DIR@)) && snapshot_tar(ctx, cmd, members)
        ||| b[i] matches HostCall::Remove(n, p, rec, _) && n == ctx.node_id && !rec
            && exists|f: Seq<char>| p == #[trigger] join_spec(backups, f)
    } by {
        if i < a.len() {
            assert(b[i] == a[i]);
        } else {
            assert(b[i] == b.last());
        }
    }
}

/// Among the calls between two transcripts is a successful non-recursive
/// removal of `path`.
pub open spec fn removed_file(t0: Seq<HostCall>, t: Seq<HostCall>, node: u64, path: Seq<char>) -> bool {
    exists|k: int| #![trigger t[k]] t0.len() <= k < t.len() && (t[k] matches HostCall::Remove(n, p, rec, a)
        && n == node && p == path && !rec && a is Ok)
}

/// The snapshot core, shared by the explicit route and the automatic
/// pre-operation snapshots. `protect` exempts one snapshot from retention
/// pruning: a restore never prunes the snapshot it is about to restore.
#[verifier::rlimit(80)]
#[verifier::spinoff_prover]
pub fn create_snapshot_now<H: HostApi>(host: &mut H, ctx: &ServerCtx, protect: Option<&str>) -> (r: Result<CreatedSnapshot, ApiError>)
    ensures
        !(linux_node(ctx.node_os@) && exec_safe(ctx.game_abs@)) ==> (r matches Err(e) && e.status == 422)
            && final(host).trace() == old(host).trace(),
        linux_node(ctx.node_os@) && exec_safe(ctx.game_abs@) ==> snapshot_probed(old(host).trace(), final(host).trace(), *ctx),
        linux_node(ctx.node_os@) && exec_safe(ctx.game_abs@) && probes_answered(old(host).trace(), final(host).trace())
            && probed_members(old(host).trace(), final(host).trace()).len() == 0
            ==> (r matches Err(e) && e.status == 422 && e.code@ == "NOTHING_TO_SNAPSHOT"@),
        r matches Err(e) ==> !(linux_node(ctx.node_os@) && exec_safe(ctx.game_abs@)) || host_failure(e)
            || (e.status == 422 && e.code@ == "NOTHING_TO_SNAPSHOT"@ && probes_answered(old(host).trace(), final(host).trace())
                && probed_members(old(host).trace(), final(host).trace()).len() == 0)
            || (e.status == 422 && e.code@ == "SNAPSHOT_FAILED"@ && tar_refused(old(host).trace(), final(host).trace())),
        tar_refused(old(host).trace(), final(host).trace()) ==> (r matches Err(e) && e.code@ == "SNAPSHOT_FAILED"@),
        r matches Ok(c) ==> (protect matches Some(p) ==> forall|j: int| 0 <= j < c.pruned@.len() ==> (#[trigger] c.pruned@[j])@ != p@),
        r matches Ok(c) ==> valid_snapshot_name(c.info.name@) && snapshot_ts(c.info.name@ + ".tar"@) == Some(c.info.created_at),
        grew(old(host).trace(), final(host).trace()),
        snapshot_effects(old(host).trace(), final(host).trace(), *ctx, probed_members(old(host).trace(), final(host).trace())),
        r matches Ok(c) ==> snapshot_made(old(host).trace(), final(host).trace(), *ctx, c.info.created_at),
        r matches Ok(c) ==> forall|j: int| 0 <= j < c.pruned@.len() ==> #[trigger] removed_file(old(host).trace(), final(host).trace(),
            ctx.node_id, join_spec(join_spec(ctx.game_abs@, source2::BACKUPS_DIR@), c.pruned@[j]@ + ".tar"@)),
{
    require_linux(ctx)?;
    let ghost t0 = host.trace();

    let css = css_abs(ctx);
    let mut members: Vec<&'static str> = Vec::new();
    let has_plugins = is_dir_at(host, ctx.node_id, join(css.as_str(), "plugins").as_str());
    let has_configs = is_dir_at(host, ctx.node_id, join(css.as_str(), "configs/plugins").as_str());
    let has_shared = is_dir_at(host, ctx.node_id, join(css.as_str(), "shared").as_str());
    let ghost t3 = host.trace();
    let ghost mem = probed_members(t0, t3);
    proof {
        reveal_strlit("plugins");
        reveal_strlit("configs/plugins");
        reveal_strlit("shared");
    }
    let has_plugins = match has_plugins { Ok(b) => b, Err(h) => return Err(ApiError::from_host(h)) };
    let has_configs = match has_configs { Ok(b) => b, Err(h) => return Err(ApiError::from_host(h)) };
    let has_shared = match has_shared { Ok(b) => b, Err(h) => return Err(ApiError::from_host(h)) };
    if has_plugins {
        members.push("plugins");
    }
    if has_configs {
        members.push("configs/plugins");
    }
    if has_shared {
        members.push("shared");
    }
    proof {
        let a0 = t3[t0.len() as int]->Stat_2;
        let a1 = t3[t0.len() as int + 1]->Stat_2;
        let a2 = t3[t0.len() as int + 2]->Stat_2;
        assert(members@.map_values(|m: &'static str| m@) =~= present_members(a0, a1, a2));
    }
    if members.len() == 0 {
        return Err(ApiError::unprocessable(
            "NOTHING_TO_SNAPSHOT",
            String::from_str("none of plugins/, configs/plugins/ or shared/ exists yet"),
        ));
    }

    let backups = backups_abs(ctx);
    let found = match host.stat(ctx.node_id, backups.as_str()) {
        Ok(f) => f,
        Err(h) => return Err(ApiError::from_host(h)),
    };
    if found.is_none() {
        match host.mk_dir(ctx.node_id, backups.as_str()) {
            Ok(()) => {},
            Err(h) => return Err(ApiError::from_host(h)),
        }
    }
    let ghost t3b = host.trace();
    assert(grew(t3, t3b) && t3b.len() >= t3.len());
    assert(forall|i: int| t0.len() <= i < t3b.len() ==> !((#[trigger] t3b[i]) is Exec));
    assert(snapshot_effects(t0, t3b, *ctx, mem));
    assert(probed_members(t0, t3b) == mem) by {
        assert(t3b[t0.len() as int] == t3[t0.len() as int]);
        assert(t3b[t0.len() as int + 1] == t3[t0.len() as int + 1]);
        assert(t3b[t0.len() as int + 2] == t3[t0.len() as int + 2]);
    }
    let stamp = now_unix();
    let name = cat(SNAPSHOT_PREFIX, u64_text(stamp).as_str());
    let file_name = cat(name.as_str(), SNAPSHOT_EXT);
    proof {
        reveal_strlit("snap-");
        reveal_strlit(".tar");
        crate::text::lemma_u64_text_parses(stamp);
        let f = file_name@;
        assert(f =~= "snap-"@ + decimal(stamp as nat) + ".tar"@);
        assert(f.take(5) =~= "snap-"@);
        let rest = f.skip(5);
        assert(rest =~= decimal(stamp as nat) + ".tar"@);
        assert(rest.skip(rest.len() - 4) =~= ".tar"@);
        assert(rest.take(rest.len() - 4) =~= decimal(stamp as nat));
        assert(snapshot_ts(f) == Some(stamp));
    }
    let archive_abs = join(backups.as_str(), file_name.as_str());
    let command = tar_create_command(archive_abs.as_str(), &members);
    assert(command@ == tar_create(snapshot_archive(*ctx, stamp), mem));
    let ran = host.exec(ctx.node_id, command.as_str(), Some(css.as_str()));
    let ghost t4 = host.trace();
    let ghost kexec = t4.len() - 1;
    assert(snapshot_tar(*ctx, command@, mem));
    assert(probed_members(t0, t4) == mem) by {
        assert(t4[t0.len() as int] == t3[t0.len() as int]);
        assert(t4[t0.len() as int + 1] == t3[t0.len() as int + 1]);
        assert(t4[t0.len() as int + 2] == t3[t0.len() as int + 2]);
    }
    assert(effects_so_far(t0, t4, *ctx, mem, kexec)) by {
        assert(t4[kexec] matches HostCall::Exec(n, cmd, wd, _) && n == ctx.node_id
            && wd == Some(join_spec(ctx.game_abs@, source2::CSS_DIR@)) && snapshot_tar(*ctx, cmd, mem));
        assert forall|i: int| t0.len() <= i < t4.len() && (#[trigger] t4[i]) is Exec implies i == kexec by {
            if i < t3b.len() {
                assert(t4[i] == t3b[i]);
            }
        }
        assert forall|i: int| t0.len() <= i < t4.len() && i < kexec implies #[trigger] t4[i] == t3b[i] by {}
    }
    let result = match ran {
        Ok(res) => res,
        Err(h) => return Err(ApiError::from_host(h)),
    };
    if result.exit_code != 0 {
        assert(t4[kexec] matches HostCall::Exec(_, _, _, Ok(res)) && res.exit_code != 0);
        return Err(ApiError::unprocessable(
            "SNAPSHOT_FAILED",
            tar_failure(result.exit_code, result.output.as_str()),
        ));
    }

    let size = match host.stat(ctx.node_id, archive_abs.as_str()) {
        Ok(Some(s)) => s.size,
        Ok(None) => 0,
        Err(h) => return Err(ApiError::from_host(h)),
    };

    // Retention: keep the newest KEEP_SNAPSHOTS, delete the rest.
    let ghost t5 = host.trace();
    proof {
        assert(reads_only(t4, t5));
        lemma_reads_keep_effects(t0, t4, t5, *ctx, mem, kexec);
    }
    let listed = list_snapshots(host, ctx);
    proof {
        lemma_reads_keep_effects(t0, t5, host.trace(), *ctx, mem, kexec);
    }
    let listed = match listed {
        Ok(l) => l,
        Err(e) => return Err(e),
    };
    let victims = prune_candidates(&listed, protect);
    proof {
        match protect {
            Some(p) => {
                lemma_protected_never_pruned(listed@, p@);
                assert forall|i: int| 0 <= i < victims@.len() implies (#[trigger] victims@[i])@ != p@ by {
                    assert(texts(victims@)[i] == victims@[i]@);
                }
            },
            None => {},
        }
    }
    let mut pruned: Vec<String> = Vec::new();
    let mut v: usize = 0;
    while v < victims.len()
        invariant
            v <= victims@.len(),
            protect matches Some(p) ==> forall|i: int| 0 <= i < victims@.len() ==> (#[trigger] victims@[i])@ != p@,
            protect matches Some(p) ==> forall|j: int| 0 <= j < pruned@.len() ==> (#[trigger] pruned@[j])@ != p@,
            grew(t4, host.trace()),
            t0.len() + 3 <= kexec < t4.len(),
            grew(t0, t4),
            t4[kexec] matches HostCall::Exec(_, _, _, Ok(res)) && res.exit_code == 0,
            backups@ == join_spec(ctx.game_abs@, source2::BACKUPS_DIR@),
            effects_so_far(t0, host.trace(), *ctx, mem, kexec),
            forall|j: int| 0 <= j < pruned@.len() ==> #[trigger] removed_file(t0, host.trace(),
                ctx.node_id, join_spec(backups@, pruned@[j]@ + ".tar"@)),
        decreases victims@.len() - v,
    {
        let path_abs = join(backups.as_str(), cat(victims[v].as_str(), SNAPSHOT_EXT).as_str());
        let ghost ta = host.trace();
        let gone = host.remove(ctx.node_id, path_abs.as_str(), false).is_ok();
        proof {
            let t = host.trace();
            assert forall|j: int| 0 <= j < pruned@.len() implies #[trigger] removed_file(t0, t,
                ctx.node_id, join_spec(backups@, pruned@[j]@ + ".tar"@)) by {
                assert(removed_file(t0, ta, ctx.node_id, join_spec(backups@, pruned@[j]@ + ".tar"@)));
                let k = choose|k: int| #![trigger ta[k]] t0.len() <= k < ta.len() && (ta[k] matches HostCall::Remove(n, p, rec, a)
                    && n == ctx.node_id && p == join_spec(backups@, pruned@[j]@ + ".tar"@) && !rec && a is Ok);
                assert(t[k] == ta[k]);
            }
            if gone {
                assert(t[t.len() - 1] matches HostCall::Remove(n, p, rec, a) && a is Ok);
            }
            lemma_remove_keeps_effects(t0, ta, t, *ctx, mem, kexec, victims@[v as int]@ + ".tar"@);
        }
        if gone {
            let ghost before = pruned@;
            pruned.push(victims[v].clone());
            proof {
                let t = host.trace();
                assert(removed_file(t0, t, ctx.node_id, join_spec(backups@, victims@[v as int]@ + ".tar"@)));
                assert forall|j: int| 0 <= j < pruned@.len() implies #[trigger] removed_file(t0, t,
                    ctx.node_id, join_spec(backups@, pruned@[j]@ + ".tar"@)) by {
                    if j < before.len() {
                        assert(pruned@[j] == before[j]);
                    }
                }
            }
        }
        v = v + 1;
    }

    let created_at = match parse_snapshot_ts(file_name.as_str()) {
        Some(t) => t,
        None => 0,
    };
    proof {
        let t = host.trace();
        assert(created_at == stamp);
        assert(t[kexec] == t4[kexec]);
        assert(t[t0.len() as int] == t3[t0.len() as int]);
        assert(t[t0.len() as int + 1] == t3[t0.len() as int + 1]);
        assert(t[t0.len() as int + 2] == t3[t0.len() as int + 2]);
        assert(archive_abs@ == join_spec(join_spec(ctx.game_abs@, source2::BACKUPS_DIR@), "snap-"@ + decimal(created_at as nat) + ".tar"@));
        assert(snapshot_made(t0, t, *ctx, created_at));
    }
    Ok(CreatedSnapshot {
        info: SnapshotInfo {
            name,
            created_at,
            size,
            path: ctx.rel(join(source2::BACKUPS_DIR, file_name.as_str()).as_str()),
        },
        pruned,
    })
}

/// A change an automatic snapshot may make: the backups dir, the tar run
/// that archives some members, the pruning of an old snapshot file, and the
/// audit entry that records it.
pub open spec fn auto_snapshot_effect(c: HostCall, ctx: ServerCtx) -> bool {
    let backups = join_spec(ctx.game_abs@, source2::BACKUPS_DIR@);
    ||| c matches HostCall::MkDir(n, p, _) && n == ctx.node_id && p == backups
    ||| c matches HostCall::Exec(n, cmd, wd, _) && n == ctx.node_id && wd == Some(join_spec(ctx.game_abs@, source2::CSS_DIR@))
        && exists|m: Seq<Seq<char>>| #[trigger] snapshot_tar(ctx, cmd, m)
    ||| c matches HostCall::Remove(n, p, rec, _) && n == ctx.node_id && !rec && exists|f: Seq<char>| p == #[trigger] join_spec(backups, f)
    ||| c matches HostCall::StorageSet(k, _, _) && k == "audit:"@ + decimal(ctx.server_id as nat)
}

/// Every change between two transcripts is one an automatic snapshot may make.
pub open spec fn auto_snapshot_effects(t0: Seq<HostCall>, t: Seq<HostCall>, ctx: ServerCtx) -> bool {
    forall|i: int| t0.len() <= i < t.len() && is_effect(#[trigger] t[i]) ==> auto_snapshot_effect(t[i], ctx)
}

/// A snapshot made stays made as calls are appended.
pub proof fn lemma_snapshot_made_grows(t0: Seq<HostCall>, a: Seq<HostCall>, b: Seq<HostCall>, ctx: ServerCtx, created_at: u64)
    requires
        snapshot_made(t0, a, ctx, created_at),
        grew(a, b),
    ensures
        snapshot_made(t0, b, ctx, created_at),
{
    let base = t0.len() as int;
    assert(b[base] == a[base] && b[base + 1] == a[base + 1] && b[base + 2] == a[base + 2]);
    assert(probed_members(t0, b) == probed_members(t0, a));
    let css = join_spec(ctx.game_abs@, source2::CSS_DIR@);
    let k = choose|k: int| #![trigger a[k]] base + 3 <= k < a.len() && (a[k] matches HostCall::Exec(n, cmd, wd, Ok(res))
        && n == ctx.node_id && wd == Some(css) && res.exit_code == 0
        && cmd == tar_create(snapshot_archive(ctx, created_at), probed_members(t0, a)));
    assert(b[k] == a[k]);
}

/// Best-effort snapshot before a destructive operation: skipped quietly
/// when there is nothing to protect, logged and passed over when it fails.
/// On a node that can run it, it always starts with the member probes; a
/// snapshot it names was made.
pub fn try_auto_snapshot<H: HostApi>(host: &mut H, ctx: &ServerCtx, actor: Option<&str>, protect: Option<&str>) -> (r: Option<String>)
    ensures
        r matches Some(n) ==> valid_snapshot_name(n@),
        !(linux_node(ctx.node_os@) && exec_safe(ctx.game_abs@)) ==> r is None && final(host).trace() == old(host).trace(),
        linux_node(ctx.node_os@) && exec_safe(ctx.game_abs@) ==> snapshot_probed(old(host).trace(), final(host).trace(), *ctx),
        r matches Some(n) ==> snapshot_made(old(host).trace(), final(host).trace(), *ctx, snapshot_ts(n@ + ".tar"@).unwrap()),
        grew(old(host).trace(), final(host).trace()),
        auto_snapshot_effects(old(host).trace(), final(host).trace(), *ctx),
{
    let ghost t0 = host.trace();
    let made = create_snapshot_now(host, ctx, protect);
    let ghost t1 = host.trace();
    proof {
        let m = probed_members(t0, t1);
        assert forall|i: int| t0.len() <= i < t1.len() && is_effect(#[trigger] t1[i]) implies auto_snapshot_effect(t1[i], *ctx) by {
            if t1[i] is Exec {
                let cmd = t1[i]->Exec_1;
                assert(snapshot_tar(*ctx, cmd, m));
            }
        }
    }
    match made {
        Ok(created) => {
            audit::record(host, ctx.server_id, actor, "snapshot-auto", created.info.name.as_str());
            proof {
                let t = host.trace();
                lemma_snapshot_made_grows(t0, t1, t, *ctx, created.info.created_at);
                let c = calls_since(t1, t);
                assert(c[0] == t[t1.len() as int]);
                assert(c[1] == t[t1.len() as int + 1]);
                assert forall|i: int| t0.len() <= i < t.len() && is_effect(#[trigger] t[i]) implies auto_snapshot_effect(t[i], *ctx) by {
                    if i < t1.len() {
                        assert(t[i] == t1[i]);
                    } else {
                        assert(t[i] == c[i - t1.len()]);
                    }
                }
                assert(snapshot_probed(t0, t, *ctx)) by {
                    assert(t[t0.len() as int] == t1[t0.len() as int]);
                    assert(t[t0.len() as int + 1] == t1[t0.len() as int + 1]);
                    assert(t[t0.len() as int + 2] == t1[t0.len() as int + 2]);
                }
            }
            Some(created.info.name)
        },
        Err(err) => {
            let server = cat3(u64_text(ctx.server_id).as_str(), ": ", err.message.as_str());
            host.log_info(cat("auto-snapshot skipped for server ", server.as_str()).as_str());
            None
        },
    }
}

/// The answer of a restore or delete: the snapshot's name and whether it
/// was restored.
pub open spec fn answers_snapshot(body: Seq<u8>, name: Seq<char>, restored: bool) -> bool {
    exists|t: SnapshotRestoreResponse, j: Json| #[trigger] t.json_is(j) && body == json_text(j) && t.name@ == name
        && t.restored == restored
}

/// The answer of a create: the new snapshot, under a name that restore and
/// delete accept.
pub open spec fn answers_created(body: Seq<u8>) -> bool {
    exists|t: SnapshotCreateResponse, j: Json| #[trigger] t.json_is(j) && body == json_text(j)
        && valid_snapshot_name(t.snapshot.name@)
}

/// The answer of a listing: the snapshots, newest first.
pub open spec fn answers_listing(body: Seq<u8>) -> bool {
    exists|t: SnapshotListResponse, j: Json| #[trigger] t.json_is(j) && body == json_text(j)
        && forall|a: int, b: int| 0 <= a < b < t.snapshots@.len()
            ==> (#[trigger] t.snapshots@[a]).created_at >= (#[trigger] t.snapshots@[b]).created_at
}

pub fn handle_create<H: HostApi>(host: &mut H, params: &Vec<(String, String)>, actor: Option<&str>) -> (r: ApiResult)
    ensures
        param_id(params@) is None ==> (r matches Err(e) && e.status == 400),
        r matches Ok(resp) ==> resp.status == 200 && answers_created(resp.body@),
        r matches Err(e) ==> route_failed(old(host).trace(), final(host).trace(), params@, e,
            |x: ApiError| x.status == 409 || x.status == 422 || host_failure(x)),
{
    let ghost t0 = host.trace();
    let ctx = ServerCtx::resolve(host, params)?;
    let ghost tm = host.trace();
    assert(resolved_at(t0, tm, ctx.server_id, ctx));
    let ghost allowed: spec_fn(ApiError) -> bool = |x: ApiError| x.status == 409 || x.status == 422 || host_failure(x);
    match require_css_installed(host, &ctx) {
        Ok(()) => {},
        Err(e) => {
            proof {
                lemma_route_failed(t0, tm, host.trace(), params@, ctx, e, allowed);
            }
            return Err(e);
        },
    }
    let ghost t1 = host.trace();
    let made = create_snapshot_now(host, &ctx, None);
    let created = match made {
        Ok(c) => c,
        Err(e) => {
            proof {
                lemma_grew_trans(tm, t1, host.trace());
                lemma_route_failed(t0, tm, host.trace(), params@, ctx, e, allowed);
            }
            return Err(e);
        },
    };
    audit::record(host, ctx.server_id, actor, "snapshot-create", created.info.name.as_str());
    let response = SnapshotCreateResponse { snapshot: created.info, pruned: created.pruned };
    let j = response.to_json();
    let resp = json_response(200, &j);
    assert(response.json_is(j) && resp.body@ == json_text(j));
    Ok(resp)
}

pub fn handle_list<H: HostApi>(host: &mut H, params: &Vec<(String, String)>) -> (r: ApiResult)
    ensures
        param_id(params@) is None ==> (r matches Err(e) && e.status == 400),
        r matches Ok(resp) ==> resp.status == 200 && answers_listing(resp.body@),
        r matches Err(e) ==> route_failed(old(host).trace(), final(host).trace(), params@, e, |x: ApiError| host_failure(x)),
{
    let ghost t0 = host.trace();
    let ctx = ServerCtx::resolve(host, params)?;
    let ghost tm = host.trace();
    assert(resolved_at(t0, tm, ctx.server_id, ctx));
    let listed = list_snapshots(host, &ctx);
    let snapshots = match listed {
        Ok(v) => v,
        Err(e) => {
            proof {
                lemma_route_failed(t0, tm, host.trace(), params@, ctx, e, |x: ApiError| host_failure(x));
            }
            return Err(e);
        },
    };
    let response = SnapshotListResponse { snapshots };
    let j = response.to_json();
    let resp = json_response(200, &j);
    assert(response.json_is(j) && resp.body@ == json_text(j));
    Ok(resp)
}

/// The live dirs a restore replaces, under addons/counterstrikesharp.
pub open spec fn live_dir(ctx: ServerCtx, p: Seq<char>) -> bool {
    let css = join_spec(ctx.game_abs@, source2::CSS_DIR@);
    p == join_spec(css, "plugins"@) || p == join_spec(css, "configs/plugins"@) || p == join_spec(css, "shared"@)
}

/// The command that unpacks snapshot `name` in the CounterStrikeSharp dir.
pub open spec fn tar_extract(ctx: ServerCtx, name: Seq<char>) -> Seq<char> {
    "tar -xf "@ + join_spec(join_spec(ctx.game_abs@, source2::BACKUPS_DIR@), name + ".tar"@)
}

/// A change a restore of `name` may make: those of its automatic snapshot,
/// the recursive removal of a live dir, and the unpacking of the snapshot.
pub open spec fn restore_effect(c: HostCall, ctx: ServerCtx, name: Seq<char>) -> bool {
    ||| auto_snapshot_effect(c, ctx)
    ||| c matches HostCall::Remove(n, p, rec, _) && n == ctx.node_id && rec && live_dir(ctx, p)
    ||| c matches HostCall::Exec(n, cmd, wd, _) && n == ctx.node_id && wd == Some(join_spec(ctx.game_abs@, source2::CSS_DIR@))
        && cmd == tar_extract(ctx, name)
}

/// The calls after `t0` hold a tar run unpacking `name` that the node
/// answered, with exit code 0 when `ok` and another one when not.
pub open spec fn extracted(t0: Seq<HostCall>, t: Seq<HostCall>, ctx: ServerCtx, name: Seq<char>, ok: bool) -> bool {
    exists|k: int| #![trigger t[k]] t0.len() <= k < t.len() && (t[k] matches HostCall::Exec(n, cmd, wd, Ok(res))
        && n == ctx.node_id && cmd == tar_extract(ctx, name)
        && wd == Some(join_spec(ctx.game_abs@, source2::CSS_DIR@)) && (res.exit_code == 0) == ok)
}

/// At most one call after `t0` unpacks `name`.
pub open spec fn one_extract(t0: Seq<HostCall>, t: Seq<HostCall>, ctx: ServerCtx, name: Seq<char>) -> bool {
    forall|i: int, j: int| t0.len() <= i < t.len() && t0.len() <= j < t.len()
        && (#[trigger] t[i] matches HostCall::Exec(_, c1, _, _) && c1 == tar_extract(ctx, name))
        && (#[trigger] t[j] matches HostCall::Exec(_, c2, _, _) && c2 == tar_extract(ctx, name)) ==> i == j
}

/// A restore of `name` on a resolved server: a successful unpacking of the
/// snapshot of that server's game dir.
pub open spec fn restored_from(t0: Seq<HostCall>, t: Seq<HostCall>, id: u64, name: Seq<char>) -> bool {
    exists|tm: Seq<HostCall>, c: ServerCtx| #[trigger] resolved_at(t0, tm, id, c) && grew(tm, t) && extracted(tm, t, c, name, true)
}

/// The snapshot name of a restore request, when it is one restore accepts.
pub open spec fn restore_name(body: Seq<u8>) -> Option<Seq<char>> {
    match name_request(body, "name"@) {
        Some(n) => if valid_snapshot_name(n) { Some(n) } else { None },
        None => None,
    }
}

/// A restore's first call after `t0` probes the archive of `name`: when it
/// is not a file the answer is 404, when the probe failed it is the host's
/// failure, and nothing more is called either way.
pub open spec fn archive_probed(t0: Seq<HostCall>, t: Seq<HostCall>, ctx: ServerCtx, name: Seq<char>, r: ApiResult) -> bool {
    &&& t.len() > t0.len()
    &&& t[t0.len() as int] matches HostCall::Stat(nd, p, a)
    &&& nd == ctx.node_id && p == join_spec(join_spec(ctx.game_abs@, source2::BACKUPS_DIR@), name + ".tar"@)
    &&& stat_file(a) == Ok::<bool, HostApiError>(false) ==> (r matches Err(e) && e.status == 404
        && e.code@ == "SNAPSHOT_NOT_FOUND"@ && t.len() == t0.len() + 1)
    &&& stat_file(a) is Err ==> (r matches Err(e) && host_failure(e) && t.len() == t0.len() + 1)
}

/// Removes the live dirs that exist, recursively.
fn wipe_live_dirs<H: HostApi>(host: &mut H, ctx: &ServerCtx) -> (r: Result<(), ApiError>)
    ensures
        grew(old(host).trace(), final(host).trace()),
        forall|i: int| old(host).trace().len() <= i < final(host).trace().len() && is_effect(#[trigger] final(host).trace()[i])
            ==> (final(host).trace()[i] matches HostCall::Remove(n, p, rec, _) && n == ctx.node_id && rec && live_dir(*ctx, p)),
        forall|i: int| old(host).trace().len() <= i < final(host).trace().len() ==> !((#[trigger] final(host).trace()[i]) is Exec),
        r matches Err(e) ==> host_failure(e),
{
    let css = css_abs(ctx);
    let plugins_abs = join(css.as_str(), "plugins");
    let configs_abs = join(css.as_str(), "configs/plugins");
    let shared_abs = join(css.as_str(), "shared");
    let dirs: Vec<String> = vec![plugins_abs, configs_abs, shared_abs];
    let ghost t0 = host.trace();
    let mut d: usize = 0;
    while d < dirs.len()
        invariant
            d <= dirs@.len(),
            dirs@.len() == 3,
            forall|k: int| 0 <= k < 3 ==> live_dir(*ctx, (#[trigger] dirs@[k])@),
            t0 == old(host).trace(),
            grew(t0, host.trace()),
            forall|i: int| t0.len() <= i < host.trace().len() && is_effect(#[trigger] host.trace()[i])
                ==> (host.trace()[i] matches HostCall::Remove(n, p, rec, _) && n == ctx.node_id && rec && live_dir(*ctx, p)),
            forall|i: int| t0.len() <= i < host.trace().len() ==> !((#[trigger] host.trace()[i]) is Exec),
        decreases dirs@.len() - d,
    {
        let found = match host.stat(ctx.node_id, dirs[d].as_str()) {
            Ok(f) => f,
            Err(h) => return Err(ApiError::from_host(h)),
        };
        if found.is_some() {
            match host.remove(ctx.node_id, dirs[d].as_str(), true) {
                Ok(()) => {},
                Err(h) => return Err(ApiError::from_host(h)),
            }
        }
        d = d + 1;
    }
    Ok(())
}

/// Restores snapshot `name` (from the request body) on a resolved server:
/// Linux node with safe paths (else 422), a valid name (else 400), the
/// archive present (else 404); then an automatic snapshot, the live dirs
/// removed and the archive unpacked, which fails the restore (422) when tar
/// exits non-zero.
#[verifier::rlimit(60)]
#[verifier::spinoff_prover]
pub fn restore_snapshot<H: HostApi>(host: &mut H, ctx: &ServerCtx, body: &[u8], actor: Option<&str>) -> (r: ApiResult)
    ensures
        grew(old(host).trace(), final(host).trace()),
        !(linux_node(ctx.node_os@) && exec_safe(ctx.game_abs@)) ==> (r matches Err(e) && e.status == 422)
            && final(host).trace() == old(host).trace(),
        linux_node(ctx.node_os@) && exec_safe(ctx.game_abs@) && restore_name(body@) is None
            ==> (r matches Err(e) && e.status == 400) && final(host).trace() == old(host).trace(),
        linux_node(ctx.node_os@) && exec_safe(ctx.game_abs@) && restore_name(body@) is Some
            ==> archive_probed(old(host).trace(), final(host).trace(), *ctx, restore_name(body@).unwrap(), r),
        r is Ok ==> restore_name(body@) is Some
            && extracted(old(host).trace(), final(host).trace(), *ctx, restore_name(body@).unwrap(), true),
        r matches Ok(resp) ==> resp.status == 200 && answers_snapshot(resp.body@, name_request(body@, "name"@).unwrap(), true),
        restore_name(body@) is Some && extracted(old(host).trace(), final(host).trace(), *ctx, restore_name(body@).unwrap(), false)
            ==> (r matches Err(e) && e.status == 422 && e.code@ == "RESTORE_FAILED"@),
        r matches Err(e) ==> e.status == 400 || e.status == 404 || host_failure(e)
            || !(linux_node(ctx.node_os@) && exec_safe(ctx.game_abs@))
            || (e.code@ == "RESTORE_FAILED"@ && restore_name(body@) is Some
                && extracted(old(host).trace(), final(host).trace(), *ctx, restore_name(body@).unwrap(), false)),
        forall|i: int| old(host).trace().len() <= i < final(host).trace().len() && is_effect(#[trigger] final(host).trace()[i])
            ==> restore_effect(final(host).trace()[i], *ctx, name_request(body@, "name"@).unwrap()),
        one_extract(old(host).trace(), final(host).trace(), *ctx, name_request(body@, "name"@).unwrap()),
{
    let ghost t0 = host.trace();
    require_linux(ctx)?;
    let name = match SnapshotNameRequest::parse(body) {
        Ok(q) => q.name,
        Err(e) => return Err(e),
    };
    match validate_name(name.as_str()) {
        Ok(()) => {},
        Err(e) => return Err(e),
    }
    let ghost n = name@;

    let archive_abs = join(backups_abs(ctx).as_str(), cat(name.as_str(), SNAPSHOT_EXT).as_str());
    proof {
        reveal_strlit(".tar");
    }
    let present = is_file_at(host, ctx.node_id, archive_abs.as_str());
    let ghost t1 = host.trace();
    match present {
        Ok(true) => {},
        Ok(false) => return Err(ApiError::not_found("SNAPSHOT_NOT_FOUND", String::from_str("snapshot not found"))),
        Err(h) => return Err(ApiError::from_host(h)),
    }

    // The pre-restore state gets its own automatic snapshot, so a restore is
    // itself reversible. The target is protected from retention pruning.
    try_auto_snapshot(host, ctx, actor, Some(name.as_str()));
    let ghost t2 = host.trace();

    // Wipe the live dirs so files deleted since the snapshot do not survive.
    let wiped = wipe_live_dirs(host, ctx);
    let ghost t3 = host.trace();
    proof {
        lemma_grew_trans(t1, t2, t3);
        assert forall|i: int| t0.len() <= i < t3.len() && is_effect(#[trigger] t3[i]) implies restore_effect(t3[i], *ctx, n) by {
            if i < t2.len() {
                assert(t3[i] == t2[i]);
                if i >= t1.len() {
                    assert(auto_snapshot_effect(t2[i], *ctx));
                }
            }
        }
        assert forall|k: int| t0.len() <= k < t3.len() implies !(#[trigger] t3[k] matches HostCall::Exec(_, cmd, _, _) && cmd == tar_extract(*ctx, n)) by {
            if k < t2.len() && k >= t1.len() {
                assert(t3[k] == t2[k]);
                if t2[k] is Exec {
                    assert(is_effect(t2[k]));
                    assert(auto_snapshot_effect(t2[k], *ctx));
                    lemma_snapshot_tar_not_extract(*ctx, t2[k]->Exec_1, n);
                }
            } else if k < t1.len() {
                assert(t3[k] == t1[k]);
            }
        }
    }
    match wiped {
        Ok(()) => {},
        Err(e) => return Err(e),
    }

    let css = css_abs(ctx);
    let command = cat("tar -xf ", archive_abs.as_str());
    let ran = host.exec(ctx.node_id, command.as_str(), Some(css.as_str()));
    let ghost t4 = host.trace();
    let ghost kexec = t4.len() - 1;
    proof {
        assert(t4[kexec] matches HostCall::Exec(nd, cmd, wd, _) && cmd == tar_extract(*ctx, n));
        assert forall|i: int| t0.len() <= i < t4.len() && is_effect(#[trigger] t4[i]) implies restore_effect(t4[i], *ctx, n) by {
            if i < t3.len() {
                assert(t4[i] == t3[i]);
            }
        }
        assert forall|k: int| t0.len() <= k < t4.len() && (#[trigger] t4[k] matches HostCall::Exec(_, cmd, _, _) && cmd == tar_extract(*ctx, n))
            implies k == kexec by {
            if k < t3.len() {
                assert(t4[k] == t3[k]);
            }
        }
    }
    let result = match ran {
        Ok(res) => res,
        Err(h) => return Err(ApiError::from_host(h)),
    };
    if result.exit_code != 0 {
        assert(extracted(t0, t4, *ctx, n, false));
        return Err(ApiError::unprocessable("RESTORE_FAILED", tar_failure(result.exit_code, result.output.as_str())));
    }

    audit::record(host, ctx.server_id, actor, "snapshot-restore", name.as_str());
    proof {
        let t = host.trace();
        let c = calls_since(t4, t);
        assert(t[kexec] == t4[kexec]);
        assert(extracted(t0, t, *ctx, n, true));
        assert(c[0] == t[t4.len() as int]);
        assert(c[1] == t[t4.len() as int + 1]);
        assert forall|i: int| t0.len() <= i < t.len() && is_effect(#[trigger] t[i]) implies restore_effect(t[i], *ctx, n) by {
            if i < t4.len() {
                assert(t[i] == t4[i]);
            } else {
                assert(t[i] == c[i - t4.len()]);
            }
        }
        assert forall|k: int| t0.len() <= k < t.len() && (#[trigger] t[k] matches HostCall::Exec(_, cmd, _, _) && cmd == tar_extract(*ctx, n))
            implies k == kexec by {
            if k < t4.len() {
                assert(t[k] == t4[k]);
            } else {
                assert(t[k] == c[k - t4.len()]);
            }
        }
        assert(!extracted(t0, t, *ctx, n, false));
    }
    let response = SnapshotRestoreResponse { name, restored: true };
    let j = response.to_json();
    let resp = json_response(200, &j);
    assert(response.json_is(j) && resp.body@ == json_text(j));
    Ok(resp)
}

/// A snapshot tar run never unpacks.
proof fn lemma_snapshot_tar_not_extract(ctx: ServerCtx, cmd: Seq<char>, name: Seq<char>)
    ensures
        (exists|m: Seq<Seq<char>>| #[trigger] snapshot_tar(ctx, cmd, m)) ==> cmd != tar_extract(ctx, name),
{
    if exists|m: Seq<Seq<char>>| #[trigger] snapshot_tar(ctx, cmd, m) {
        let m = choose|m: Seq<Seq<char>>| #[trigger] snapshot_tar(ctx, cmd, m);
        let stamp = choose|stamp: u64| cmd == #[trigger] tar_create(snapshot_archive(ctx, stamp), m);
        lemma_tar_create_prefix(snapshot_archive(ctx, stamp), m);
        reveal_strlit("tar -xf ");
        assert(tar_extract(ctx, name)[5] == 'x');
    }
}

proof fn lemma_tar_create_prefix(archive: Seq<char>, members: Seq<Seq<char>>)
    ensures
        tar_create(archive, members).len() >= 8,
        tar_create(archive, members)[5] == 'c',
    decreases members.len(),
{
    reveal_strlit("tar -cf ");
    if members.len() > 0 {
        lemma_tar_create_prefix(archive, members.drop_last());
        let s = tar_create(archive, members.drop_last());
        assert((s + " "@ + members.last())[5] == s[5]);
    }
}

pub fn handle_restore<H: HostApi>(host: &mut H, params: &Vec<(String, String)>, body: &[u8], actor: Option<&str>) -> (r: ApiResult)
    ensures
        param_id(params@) is None ==> (r matches Err(e) && e.status == 400),
        r is Ok ==> name_request(body@, "name"@) is Some && valid_snapshot_name(name_request(body@, "name"@).unwrap()),
        r matches Ok(resp) ==> resp.status == 200 && answers_snapshot(resp.body@, name_request(body@, "name"@).unwrap(), true),
        r is Ok ==> restored_from(old(host).trace(), final(host).trace(), param_id(params@).unwrap(), name_request(body@, "name"@).unwrap()),
        r matches Err(e) ==> route_failed(old(host).trace(), final(host).trace(), params@, e,
            |x: ApiError| x.status == 400 || x.status == 404 || x.status == 422 || host_failure(x)),
{
    let ghost t0 = host.trace();
    let ctx = ServerCtx::resolve(host, params)?;
    let ghost tm = host.trace();
    assert(resolved_at(t0, tm, ctx.server_id, ctx));
    let r = restore_snapshot(host, &ctx, body, actor);
    proof {
        let allowed = |x: ApiError| x.status == 400 || x.status == 404 || x.status == 422 || host_failure(x);
        if r is Err {
            lemma_route_failed(t0, tm, host.trace(), params@, ctx, r->Err_0, allowed);
        } else {
            assert(restored_from(t0, host.trace(), ctx.server_id, name_request(body@, "name"@).unwrap()));
        }
    }
    r
}

/// A snapshot was deleted, between two transcripts: among the calls is a
/// successful non-recursive removal of `backups/<name>.tar` of some game dir.
pub open spec fn snapshot_deleted(t0: Seq<HostCall>, t: Seq<HostCall>, name: Seq<char>) -> bool {
    exists|k: int, game_abs: Seq<char>| #![trigger t[k], join_spec(game_abs, source2::BACKUPS_DIR@)]
        t0.len() <= k < t.len() && (t[k] matches HostCall::Remove(_, p, rec, a)
        && p == join_spec(join_spec(game_abs, source2::BACKUPS_DIR@), name + ".tar"@) && !rec && a is Ok)
}

pub fn handle_delete<H: HostApi>(host: &mut H, params: &Vec<(String, String)>, body: &[u8], actor: Option<&str>) -> (r: ApiResult)
    ensures
        param_id(params@) is None ==> (r matches Err(e) && e.status == 400),
        r is Ok ==> name_request(body@, "name"@) is Some && valid_snapshot_name(name_request(body@, "name"@).unwrap()),
        r matches Ok(resp) ==> resp.status == 200 && answers_snapshot(resp.body@, name_request(body@, "name"@).unwrap(), false),
        r is Ok ==> snapshot_deleted(old(host).trace(), final(host).trace(), name_request(body@, "name"@).unwrap()),
        r matches Err(e) ==> route_failed(old(host).trace(), final(host).trace(), params@, e,
            |x: ApiError| (x.status == 400 && restore_name(body@) is None) || (x.status == 404 && x.code@ == "SNAPSHOT_NOT_FOUND"@)
                || host_failure(x)),
{
    let ghost t0 = host.trace();
    let ctx = ServerCtx::resolve(host, params)?;
    let ghost tm = host.trace();
    assert(resolved_at(t0, tm, ctx.server_id, ctx));
    let ghost allowed: spec_fn(ApiError) -> bool = |x: ApiError| (x.status == 400 && restore_name(body@) is None) || (x.status == 404 && x.code@ == "SNAPSHOT_NOT_FOUND"@)
        || host_failure(x);
    let name = match SnapshotNameRequest::parse(body) {
        Ok(q) => q.name,
        Err(e) => {
            proof {
                lemma_route_failed(t0, tm, host.trace(), params@, ctx, e, allowed);
            }
            return Err(e);
        },
    };
    match validate_name(name.as_str()) {
        Ok(()) => {},
        Err(e) => {
            proof {
                lemma_route_failed(t0, tm, host.trace(), params@, ctx, e, allowed);
            }
            return Err(e);
        },
    }

    let archive_abs = join(backups_abs(&ctx).as_str(), cat(name.as_str(), SNAPSHOT_EXT).as_str());
    let found = host.stat(ctx.node_id, archive_abs.as_str());
    let err = match found {
        Ok(Some(_)) => None,
        Ok(None) => Some(ApiError::not_found("SNAPSHOT_NOT_FOUND", String::from_str("snapshot not found"))),
        Err(h) => Some(ApiError::from_host(h)),
    };
    match err {
        Some(e) => {
            proof {
                reveal_strlit("SNAPSHOT_NOT_FOUND");
                lemma_route_failed(t0, tm, host.trace(), params@, ctx, e, allowed);
            }
            return Err(e);
        },
        None => {},
    }
    let gone = host.remove(ctx.node_id, archive_abs.as_str(), false);
    match gone {
        Ok(()) => {},
        Err(h) => {
            let e = ApiError::from_host(h);
            proof {
                lemma_route_failed(t0, tm, host.trace(), params@, ctx, e, allowed);
            }
            return Err(e);
        },
    }
    let ghost t1 = host.trace();
    let ghost k = t1.len() - 1;

    audit::record(host, ctx.server_id, actor, "snapshot-delete", name.as_str());
    proof {
        assert(host.trace()[k] == t1[k]);
        assert(snapshot_deleted(t0, host.trace(), name@));
    }
    let response = SnapshotRestoreResponse { name, restored: false };
    let j = response.to_json();
    let resp = json_response(200, &j);
    assert(response.json_is(j) && resp.body@ == json_text(j));
    Ok(resp)
}

} // verus!
