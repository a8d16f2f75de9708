//! POST /servers/{id}/plugins/install-archive: install a plugin from a zip
//! the user uploaded through the panel file manager. The zip is pulled off
//! the node, unpacked in the plugin with the catalog's layout detection,
//! written, registered, and deleted.

use vstd::prelude::*;

use crate::handlers::ctx::{lemma_route_failed, param_id, resolved_at, route_failed, ServerCtx};
use crate::handlers::{
    archive_plugin_folders, audit, find_plugin_folder, host_failure, read_manifest, require_css_installed,
    write_archive_entries, write_manifest, PANEL_MAX_INLINE_BYTES,
};
use crate::handlers::snapshots::try_auto_snapshot;
use crate::host_api::{grew, is_effect, lemma_grew_trans, reads_only, HostApi, HostCall};
use crate::handlers::{entry_target_spec, uploaded};
use crate::http::{json_response, ApiError, ApiResult};
use crate::json::{jnum, Json};
use crate::model::{forced_request, InstallArchiveRequest, InstallArchiveResponse};
use crate::source2::archive;
use crate::source2::paths::{join, join_spec, sanitize_rel_path, valid_rel_path};
use crate::text::{cat, chars_of, ends_with, has_suffix, lower_seq, to_lower};

verus! {

/// Archive size cap: the archive is inflated in memory and fetched in one
/// node call, so the panel's inline limit binds it too.
pub const MAX_ARCHIVE_BYTES: u64 = PANEL_MAX_INLINE_BYTES;

/// A path the route takes: relative, inside the server dir, naming a zip.
pub open spec fn archive_path_ok(path: Seq<char>) -> bool {
    valid_rel_path(path) && has_suffix(lower_seq(path), ".zip"@)
}

/// An accepted zip install, between two transcripts: the uploaded archive
/// was probed as a file of at most [`MAX_ARCHIVE_BYTES`], downloaded, and
/// every entry of it written where its layout puts it.
pub open spec fn archive_handled(t0: Seq<HostCall>, t: Seq<HostCall>) -> bool {
    exists|k: int, ctx: ServerCtx| #![trigger t[k], ctx.game_abs]
    {
        &&& t0.len() <= k && k + 1 < t.len()
        &&& t[k] matches HostCall::Stat(n, p, Ok(Some(st)))
        &&& !st.is_dir && st.size <= MAX_ARCHIVE_BYTES
        &&& t[k + 1] matches HostCall::Download(n2, p2, Ok(bytes))
        &&& n2 == n && p2 == p
        &&& archive_written(t0, t, ctx, bytes@)
    }
}

/// The upload a zip install names, as the node sees it: its stat after the
/// CounterStrikeSharp probe that follows the resolve (`tm`), a file of more
/// than [`MAX_ARCHIVE_BYTES`] when `too_large`.
pub open spec fn archive_probe(tm: Seq<HostCall>, t: Seq<HostCall>, c: ServerCtx, path: Seq<char>, too_large: bool) -> bool {
    &&& t.len() > tm.len() + 1
    &&& t[tm.len() as int + 1] matches HostCall::Stat(n, p, Ok(Some(st)))
    &&& n == c.node_id && p == join_spec(c.root_abs@, path) && !st.is_dir
    &&& (st.size > MAX_ARCHIVE_BYTES) == too_large
}

/// Installs the zip a request names on a resolved server: the path must be
/// a relative `.zip` path (else 400, nothing called), CounterStrikeSharp
/// installed (else 409), the upload a file (else 404) of at most
/// [`MAX_ARCHIVE_BYTES`] (else 422, the upload removed and nothing else
/// changed); then it is downloaded and installed.
#[verifier::rlimit(60)]
#[verifier::spinoff_prover]
pub fn install_archive<H: HostApi>(host: &mut H, ctx: &ServerCtx, body: &[u8], actor: Option<&str>) -> (r: ApiResult)
    ensures
        grew(old(host).trace(), final(host).trace()),
        r is Ok ==> forced_request(body@, "path"@) is Some && archive_path_ok(forced_request(body@, "path"@).unwrap().0),
        r matches Ok(resp) ==> resp.status == 200,
        r matches Err(e) ==> (e.status == 400 && !(forced_request(body@, "path"@) matches Some((p, _)) && archive_path_ok(p)))
            || e.status == 404 || e.status == 409 || e.status == 422 || host_failure(e),
        !(forced_request(body@, "path"@) matches Some((p, _)) && archive_path_ok(p))
            ==> (r matches Err(e) && e.status == 400) && final(host).trace() == old(host).trace(),
        forced_request(body@, "path"@) matches Some((p, _)) ==> (archive_probe(old(host).trace(), final(host).trace(), *ctx, p, true)
            ==> (r matches Err(e) && e.status == 422 && e.code@ == "ARCHIVE_TOO_LARGE"@
                && forall|i: int| old(host).trace().len() <= i < final(host).trace().len()
                    ==> !((#[trigger] final(host).trace()[i]) is Download)
                        && (is_effect(final(host).trace()[i]) ==> final(host).trace()[i] is Remove))),
        r is Ok ==> forall|t00: Seq<HostCall>| t00.len() <= old(host).trace().len() ==> #[trigger] archive_handled(t00, final(host).trace()),
{
    let ghost tm = host.trace();
    let ghost t0 = tm;
    let request = match InstallArchiveRequest::parse(body) {
        Ok(q) => q,
        Err(e) => {
            return Err(e);
        },
    };
    let path = request.path;
    let force = request.force;
    match sanitize_rel_path(path.as_str()) {
        Ok(()) => {},
        Err(message) => {
            let e = ApiError::bad_request(message);
            return Err(e);
        },
    }
    let lower = to_lower(chars_of(path.as_str()).as_slice());
    if !ends_with(lower.as_slice(), chars_of(".zip").as_slice()) {
        let e = ApiError::bad_request(String::from_str("a .zip archive is required"));
        return Err(e);
    }
    proof {
        reveal_strlit(".zip");
        reveal_strlit("ARCHIVE_TOO_LARGE");
    }
    assert(archive_path_ok(path@));

    match require_css_installed(host, ctx) {
        Ok(()) => {},
        Err(e) => {
            return Err(e);
        },
    }
    let ghost tc = host.trace();

    let archive_abs = join(ctx.root_abs.as_str(), path.as_str());
    let probed = host.stat(ctx.node_id, archive_abs.as_str());
    let ghost tp = host.trace();
    proof { lemma_grew_trans(tm, tc, tp); }
    let stat = match probed {
        Ok(Some(s)) => {
            if s.is_dir {
                let e = ApiError::not_found("ARCHIVE_NOT_FOUND", String::from_str("uploaded archive not found on the server"));
                    return Err(e);
            }
            s
        },
        Ok(None) => {
            let e = ApiError::not_found("ARCHIVE_NOT_FOUND", String::from_str("uploaded archive not found on the server"));
            return Err(e);
        },
        Err(h) => {
            let e = ApiError::from_host(h);
            return Err(e);
        },
    };
    proof {
        assert(archive_probe(tm, tp, *ctx, path@, stat.size > MAX_ARCHIVE_BYTES));
    }
    if stat.size > MAX_ARCHIVE_BYTES {
        let _ = host.remove(ctx.node_id, archive_abs.as_str(), false);
        let e = ApiError::unprocessable(
            "ARCHIVE_TOO_LARGE",
            String::from_str("archives over 32MB are not supported here; unpack via the file manager instead"),
        );
        proof {
            let t = host.trace();
            lemma_grew_trans(tm, tp, t);
            assert(t[tm.len() as int + 1] == tp[tm.len() as int + 1]);
            assert(archive_probe(tm, t, *ctx, path@, true));
            assert forall|i: int| t0.len() <= i < t.len() implies !((#[trigger] t[i]) is Download)
                && (is_effect(t[i]) ==> t[i] is Remove) by {
                if i < tp.len() {
                    assert(t[i] == tp[i]);
                    if i < tc.len() {
                        assert(tp[i] == tc[i]);
                    }
                }
            }
        }
        return Err(e);
    }

    let ghost t1 = host.trace();
    let ghost ks = t1.len() - 1;
    let fetched = host.download(ctx.node_id, archive_abs.as_str());
    let ghost t2 = host.trace();
    proof {
        lemma_grew_trans(tm, tp, t2);
    }
    let bytes = match fetched {
        Ok(b) => b,
        Err(h) => {
            let e = ApiError::from_host(h);
            return Err(e);
        },
    };
    let result = install_bytes(host, ctx, bytes.as_slice(), force, actor);
    let ghost t3 = host.trace();
    proof { lemma_grew_trans(t0, t2, t3); }
    // The uploaded zip is scratch, except on a conflict, where the frontend
    // asks the user and retries with force against the same upload.
    let conflict = match &result {
        Err(err) => err.status == 409,
        Ok(_) => false,
    };
    if !conflict {
        let _ = host.remove(ctx.node_id, archive_abs.as_str(), false);
    }
    let ghost t4 = host.trace();
    proof {
        lemma_grew_trans(tm, t2, t3);
        lemma_grew_trans(tm, t3, t4);
    }
    let (folders, files_written) = match result {
        Ok(v) => v,
        Err(e) => {
            return Err(e);
        },
    };

    let mut subject = String::new();
    let mut i: usize = 0;
    while i < folders.len()
        invariant
            i <= folders@.len(),
        decreases folders@.len() - i,
    {
        if i > 0 {
            subject = cat(subject.as_str(), ", ");
        }
        subject = cat(subject.as_str(), folders[i].as_str());
        i = i + 1;
    }
    audit::record(host, ctx.server_id, actor, "plugin-install-zip", subject.as_str());
    proof {
        let t = host.trace();
        lemma_archive_written_earlier(t0, t2, t3, *ctx, bytes@);
        lemma_archive_written_grows(t0, t3, t, *ctx, bytes@);
        assert(t[ks] == t1[ks]);
        assert(t[ks + 1] == t2[ks + 1]);
        let c: ServerCtx = *ctx;
        assert(archive_written(t0, t, c, bytes@));
        assert forall|t00: Seq<HostCall>| t00.len() <= t0.len() implies #[trigger] archive_handled(t00, t) by {
            lemma_archive_written_earlier(t00, t0, t, c, bytes@);
            assert(c.game_abs == ctx.game_abs);
            assert(t[ks] == t1[ks]);
        }
    }

    Ok(json_response(200, &InstallArchiveResponse { folders, files_written }.to_json()))
}

#[verifier::rlimit(40)]
#[verifier::spinoff_prover]
pub fn handle<H: HostApi>(host: &mut H, params: &Vec<(String, String)>, body: &[u8], actor: Option<&str>) -> (r: ApiResult)
    ensures
        param_id(params@) is None ==> (r matches Err(e) && e.status == 400),
        r is Ok ==> forced_request(body@, "path"@) is Some && archive_path_ok(forced_request(body@, "path"@).unwrap().0),
        r matches Ok(resp) ==> resp.status == 200,
        r is Ok ==> archive_handled(old(host).trace(), final(host).trace()),
        r matches Err(e) ==> route_failed(old(host).trace(), final(host).trace(), params@, e,
            |x: ApiError| (x.status == 400 && !(forced_request(body@, "path"@) matches Some((p, _)) && archive_path_ok(p)))
                || x.status == 404 || x.status == 409 || x.status == 422 || host_failure(x)),
        forced_request(body@, "path"@) matches Some((p, _)) ==> (!archive_path_ok(p)
            ==> (r matches Err(e) && ((e.status == 400 && reads_only(old(host).trace(), final(host).trace()))
                || route_failed(old(host).trace(), final(host).trace(), params@, e, |x: ApiError| false)))),
{
    let ghost t0 = host.trace();
    let ctx = ServerCtx::resolve(host, params)?;
    let ghost tm = host.trace();
    assert(resolved_at(t0, tm, ctx.server_id, ctx));
    let ghost allowed: spec_fn(ApiError) -> bool = |x: ApiError| (x.status == 400 && !(forced_request(body@, "path"@) matches Some((p, _)) && archive_path_ok(p)))
        || x.status == 404 || x.status == 409 || x.status == 422 || host_failure(x);
    let r = install_archive(host, &ctx, body, actor);
    proof {
        let t = host.trace();
        if r is Err {
            lemma_route_failed(t0, tm, t, params@, ctx, r->Err_0, allowed);
        }
        if !(forced_request(body@, "path"@) matches Some((p, _)) && archive_path_ok(p)) {
            assert(t == tm);
            assert(reads_only(t0, t));
        }
        if r is Ok {
            assert(archive_handled(t0, t));
        }
    }
    r
}

/// The archive's paths, in order.
pub open spec fn archive_paths(es: Seq<(Seq<char>, Seq<u8>, u32)>) -> Seq<Seq<char>> {
    es.map_values(|e: (Seq<char>, Seq<u8>, u32)| e.0)
}

/// Every entry of the archive in `bytes` was uploaded, between two
/// transcripts, where the archive's layout puts it under the game dir,
/// with its data and its mode.
pub open spec fn archive_written(t0: Seq<HostCall>, t: Seq<HostCall>, ctx: ServerCtx, bytes: Seq<u8>) -> bool {
    &&& archive::extract_spec(bytes) is Some
    &&& exists|root: archive::InstallRoot| #![trigger archive::root_view(root)]
        archive::detect_spec(archive_paths(archive::extract_spec(bytes).unwrap())) == Some(archive::root_view(root))
        && forall|k: int| 0 <= k < archive::extract_spec(bytes).unwrap().len() ==> #[trigger] uploaded(t0, t, ctx.node_id,
            entry_target_spec(ctx.game_abs@, root, archive::extract_spec(bytes).unwrap()[k].0),
            archive::extract_spec(bytes).unwrap()[k].1, archive::extract_spec(bytes).unwrap()[k].2)
}

/// Unpacks, checks for conflicts (unless forced), snapshots, writes and
/// registers; the plugin folders and the number of files written.
pub fn install_bytes<H: HostApi>(host: &mut H, ctx: &ServerCtx, bytes: &[u8], force: bool, actor: Option<&str>) -> (r: Result<(Vec<String>, u32), ApiError>)
    ensures
        archive::extract_spec(bytes@) is None ==> (r matches Err(e) && e.status == 422),
        r matches Err(e) ==> e.status == 409 || e.status == 422 || host_failure(e),
        r matches Ok((folders, n)) ==> archive::extract_spec(bytes@) is Some
            && n as int == archive::extract_spec(bytes@).unwrap().len()
            && forall|a: int, b: int| 0 <= a < b < folders@.len() ==> (#[trigger] folders@[a])@ != (#[trigger] folders@[b])@,
        grew(old(host).trace(), final(host).trace()),
        r is Ok ==> archive_written(old(host).trace(), final(host).trace(), *ctx, bytes@),
{
    let ghost t0 = host.trace();
    let entries = match archive::extract_zip(bytes) {
        Ok(e) => e,
        Err(err) => return Err(ApiError::unprocessable("BAD_ARCHIVE", err)),
    };
    let root = match archive::detect_install_root(entries.as_slice()) {
        Ok(root) => root,
        Err(err) => return Err(ApiError::unprocessable("BAD_ARCHIVE", err)),
    };
    let folders = archive_plugin_folders(entries.as_slice(), &root);
    proof {
        let es = archive::extract_spec(bytes@).unwrap();
        assert(archive::entry_paths(entries@) =~= archive_paths(es)) by {
            assert forall|k: int| 0 <= k < es.len() implies archive::entry_paths(entries@)[k] == archive_paths(es)[k] by {
                assert(archive::entry_view(entries@[k]) == es[k]);
            }
        }
    }

    if !force {
        let manifest = read_manifest(host, ctx)?;
        let mut i: usize = 0;
        while i < folders.len()
            invariant
                i <= folders@.len(),
                archive::extract_spec(bytes@) is Some,
                t0 == old(host).trace(),
                grew(t0, host.trace()),
            decreases folders@.len() - i,
        {
            let ghost tf = host.trace();
            let found = find_plugin_folder(host, ctx, folders[i].as_str());
            proof { lemma_grew_trans(t0, tf, host.trace()); }
            let there = match found {
                Ok(f) => f.is_some(),
                Err(h) => return Err(ApiError::from_host(h)),
            };
            let exists = there || manifest.contains(folders[i].as_str());
            if exists {
                return Err(ApiError::conflict("ALREADY_REGISTERED", cat(folders[i].as_str(), " is already installed")));
            }
            i = i + 1;
        }
    }

    // Overwrites are reversible: snapshot first, best-effort.
    let ghost ts = host.trace();
    try_auto_snapshot(host, ctx, actor, None);
    let ghost tw = host.trace();
    proof { lemma_grew_trans(t0, ts, tw); }

    let written = write_archive_entries(host, ctx, entries.as_slice(), &root);
    let ghost tx = host.trace();
    proof { lemma_grew_trans(t0, tw, tx); }
    let files_written = written?;
    proof {
        let es = archive::extract_spec(bytes@).unwrap();
        assert forall|k: int| 0 <= k < es.len() implies #[trigger] uploaded(t0, tx, ctx.node_id,
            entry_target_spec(ctx.game_abs@, root, es[k].0), es[k].1, es[k].2) by {
            assert(archive::entry_view(entries@[k]) == es[k]);
            assert(uploaded(tw, tx, ctx.node_id, entry_target_spec(ctx.game_abs@, root, entries@[k].path@), entries@[k].data@, entries@[k].mode));
            let j = choose|j: int| tw.len() <= j < tx.len() && (#[trigger] tx[j] matches HostCall::Upload(n, p, d, m, a)
                && n == ctx.node_id && p == entry_target_spec(ctx.game_abs@, root, entries@[k].path@)
                && d == entries@[k].data@ && m == entries@[k].mode && a is Ok);
        }
        assert(archive::root_view(root) == archive::detect_spec(archive_paths(es)).unwrap());
        assert(archive_written(t0, tx, *ctx, bytes@));
    }

    if folders.len() > 0 {
        let read = read_manifest(host, ctx);
        let ghost ty = host.trace();
        proof { lemma_grew_trans(t0, tx, ty); }
        let mut manifest = read?;
        let mut i: usize = 0;
        while i < folders.len()
            invariant
                i <= folders@.len(),
            decreases folders@.len() - i,
        {
            manifest.ensure(folders[i].as_str());
            i = i + 1;
        }
        let wrote = write_manifest(host, ctx, &manifest);
        proof {
            lemma_grew_trans(t0, ty, host.trace());
            lemma_archive_written_grows(t0, tx, host.trace(), *ctx, bytes@);
        }
        wrote?;
    }

    Ok((folders, files_written))
}

/// What was written since a later start was written since an earlier one.
pub proof fn lemma_archive_written_earlier(t0: Seq<HostCall>, t1: Seq<HostCall>, t2: Seq<HostCall>, ctx: ServerCtx, bytes: Seq<u8>)
    requires
        archive_written(t1, t2, ctx, bytes),
        t0.len() <= t1.len(),
    ensures
        archive_written(t0, t2, ctx, bytes),
{
    let es = archive::extract_spec(bytes).unwrap();
    let root = choose|root: archive::InstallRoot| #![trigger archive::root_view(root)]
        archive::detect_spec(archive_paths(es)) == Some(archive::root_view(root))
        && forall|k: int| 0 <= k < es.len() ==> #[trigger] uploaded(t1, t2, ctx.node_id,
            entry_target_spec(ctx.game_abs@, root, es[k].0), es[k].1, es[k].2);
    assert forall|k: int| 0 <= k < es.len() implies #[trigger] uploaded(t0, t2, ctx.node_id,
        entry_target_spec(ctx.game_abs@, root, es[k].0), es[k].1, es[k].2) by {
        assert(uploaded(t1, t2, ctx.node_id, entry_target_spec(ctx.game_abs@, root, es[k].0), es[k].1, es[k].2));
    }
}

/// What was written stays written as the transcript grows.
pub proof fn lemma_archive_written_grows(t0: Seq<HostCall>, t1: Seq<HostCall>, t2: Seq<HostCall>, ctx: ServerCtx, bytes: Seq<u8>)
    requires
        archive_written(t0, t1, ctx, bytes),
        grew(t1, t2),
    ensures
        archive_written(t0, t2, ctx, bytes),
{
    let es = archive::extract_spec(bytes).unwrap();
    let root = choose|root: archive::InstallRoot| #![trigger archive::root_view(root)]
        archive::detect_spec(archive_paths(es)) == Some(archive::root_view(root))
        && forall|k: int| 0 <= k < es.len() ==> #[trigger] uploaded(t0, t1, ctx.node_id,
            entry_target_spec(ctx.game_abs@, root, es[k].0), es[k].1, es[k].2);
    assert forall|k: int| 0 <= k < es.len() implies #[trigger] uploaded(t0, t2, ctx.node_id,
        entry_target_spec(ctx.game_abs@, root, es[k].0), es[k].1, es[k].2) by {
        assert(uploaded(t0, t1, ctx.node_id, entry_target_spec(ctx.game_abs@, root, es[k].0), es[k].1, es[k].2));
        let j = choose|j: int| t0.len() <= j < t1.len() && (#[trigger] t1[j] matches HostCall::Upload(n, p, d, m, a)
            && n == ctx.node_id && p == entry_target_spec(ctx.game_abs@, root, es[k].0)
            && d == es[k].1 && m == es[k].2 && a is Ok);
        assert(t2[j] == t1[j]);
    }
}

} // verus!
