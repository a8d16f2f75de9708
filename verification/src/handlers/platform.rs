//! POST /servers/{id}/platform/install: one-click install or update of
//! Metamod:Source or CounterStrikeSharp. Both archives are downloaded by
//! the node (curl/wget) and unpacked there (tar/unzip); only the release
//! lookup goes through panel HTTP.

use vstd::prelude::*;

use crate::handlers::ctx::{lemma_route_failed, param_id, resolved_at, route_failed, ServerCtx};
use crate::handlers::repair::repair;
use crate::handlers::snapshots::{exec_safe, is_exec_safe, linux_node, try_auto_snapshot};
use crate::handlers::updates::{css_asset_patterns, fetch_github_latest, fetch_metamod_latest, host_error_text, mm_answer_ok, mm_version, release_read, CSS_REPO};
use crate::handlers::{audit, exit_failure, host_failure, is_dir_at, is_file_at, tar_failure};
use crate::host_api::{grew, is_effect, lemma_grew_trans, HostApi, HostCall};
use crate::http::{json_response, ApiError, ApiResult};
use crate::json::{json_text, Json};
use crate::model::{name_request, PlatformInstallRequest, PlatformInstallResponse};
use crate::source2;
use crate::source2::paths::{join, join_spec};
use crate::text::{cat, cat3, chars_of, eq_ignore_case, lossy_text, str_eq, trim};

verus! {

/// The platform kinds the route installs.
pub open spec fn known_kind(kind: Seq<char>) -> bool {
    kind == "metamod"@ || kind == "css"@
}

/// 422 for a path a node command could not take as one argument.
pub fn require_exec_safe(path: &str) -> (r: Result<(), ApiError>)
    ensures
        r is Ok <==> exec_safe(path@),
        r matches Err(e) ==> e.status == 422 && e.code@ == "UNSAFE_PATH"@,
{
    proof {
        reveal_strlit("UNSAFE_PATH");
    }
    if !is_exec_safe(path) {
        return Err(ApiError::unprocessable(
            "UNSAFE_PATH",
            cat3("server path \"", path, "\" contains whitespace or quotes; node-side commands cannot handle it safely"),
        ));
    }
    Ok(())
}

/// The answer names the platform that was installed.
pub open spec fn answers_platform(body: Seq<u8>, kind: Seq<char>) -> bool {
    exists|t: PlatformInstallResponse, j: Json| #[trigger] t.json_is(j) && body == json_text(j) && t.kind@ == kind
}

/// The platform a request names, when it is one the route installs.
pub open spec fn platform_kind(body: Seq<u8>) -> Option<Seq<char>> {
    match name_request(body, "kind"@) {
        Some(k) => if known_kind(k) { Some(k) } else { None },
        None => None,
    }
}

pub fn handle<H: HostApi>(host: &mut H, params: &Vec<(String, String)>, body: &[u8], actor: Option<&str>) -> (r: ApiResult)
    ensures
        param_id(params@) is None ==> (r matches Err(e) && e.status == 400),
        r is Ok ==> name_request(body@, "kind"@) is Some && known_kind(name_request(body@, "kind"@).unwrap()),
        r matches Ok(resp) ==> resp.status == 200 && answers_platform(resp.body@, name_request(body@, "kind"@).unwrap()),
        r matches Err(e) ==> route_failed(old(host).trace(), final(host).trace(), params@, e,
            |x: ApiError| (x.status == 400 && platform_kind(body@) is None) || x.status == 422 || host_failure(x)),
{
    let ghost t0 = host.trace();
    let ctx = ServerCtx::resolve(host, params)?;
    let ghost tm = host.trace();
    assert(resolved_at(t0, tm, ctx.server_id, ctx));
    let ghost allowed: spec_fn(ApiError) -> bool = |x: ApiError| (x.status == 400 && platform_kind(body@) is None) || x.status == 422 || host_failure(x);
    let kind = match PlatformInstallRequest::parse(body) {
        Ok(q) => q.kind,
        Err(e) => {
            proof {
                lemma_route_failed(t0, tm, host.trace(), params@, ctx, e, allowed);
            }
            return Err(e);
        },
    };

    let os = chars_of(ctx.node_os.as_str());
    if os.len() > 0 && !eq_ignore_case(os.as_slice(), chars_of("linux").as_slice()) {
        let e = ApiError::unprocessable(
            "LINUX_NODE_REQUIRED",
            String::from_str("platform install downloads and unpacks on the node and supports linux nodes only"),
        );
        proof {
            lemma_route_failed(t0, tm, host.trace(), params@, ctx, e, allowed);
        }
        return Err(e);
    }

    let is_metamod = str_eq(kind.as_str(), "metamod");
    let is_css = str_eq(kind.as_str(), "css");
    proof {
        reveal_strlit("metamod");
        reveal_strlit("css");
    }
    if !is_metamod && !is_css {
        let e = ApiError::bad_request(cat3("unknown platform kind \"", kind.as_str(), "\"; expected \"metamod\" or \"css\""));
        proof {
            lemma_route_failed(t0, tm, host.trace(), params@, ctx, e, allowed);
        }
        return Err(e);
    }

    // Updates overwrite in place: keep a way back.
    try_auto_snapshot(host, &ctx, actor, None);
    let ghost ts = host.trace();

    let installed = if is_metamod {
        install_metamod(host, &ctx)
    } else {
        install_css(host, &ctx)
    };
    let (version, gameinfo_patched) = match installed {
        Ok(v) => v,
        Err(e) => {
            proof {
                lemma_grew_trans(tm, ts, host.trace());
                lemma_route_failed(t0, tm, host.trace(), params@, ctx, e, allowed);
            }
            return Err(e);
        },
    };

    audit::record(host, ctx.server_id, actor, "platform-install", cat3(kind.as_str(), " ", version.as_str()).as_str());

    let response = PlatformInstallResponse { kind, version, gameinfo_patched };
    let j = response.to_json();
    let resp = json_response(200, &j);
    assert(response.json_is(j) && resp.body@ == json_text(j));
    Ok(resp)
}

/// Among the calls between two transcripts is a successful run of `command`
/// on the node, without a working directory.
pub open spec fn unpacked(t0: Seq<HostCall>, t: Seq<HostCall>, node: u64, command: Seq<char>) -> bool {
    exists|k: int| #![trigger t[k]] t0.len() <= k < t.len() && (t[k] matches HostCall::Exec(n, c, w, Ok(res))
        && n == node && c == command && w is None && res.exit_code == 0)
}

/// Among the calls between two transcripts is a successful run of one of
/// `commands` on the node, without a working directory.
pub open spec fn unpacked_by_one_of(t0: Seq<HostCall>, t: Seq<HostCall>, node: u64, commands: Seq<Seq<char>>) -> bool {
    exists|k: int| #![trigger t[k]] t0.len() <= k < t.len() && (t[k] matches HostCall::Exec(n, c, w, Ok(res))
        && n == node && commands.contains(c) && w is None && res.exit_code == 0)
}

/// Downloads and unpacks Metamod, then wires gameinfo.gi.
pub fn install_metamod<H: HostApi>(host: &mut H, ctx: &ServerCtx) -> (r: Result<(String, bool), ApiError>)
    ensures
        r matches Err(e) ==> host_failure(e) || e.status == 422,
        !(exec_safe(ctx.root_abs@) && exec_safe(ctx.game_abs@)) ==> (r matches Err(e) && e.status == 422),
        r matches Ok((v, _)) ==> exists|body: Seq<u8>| #[trigger] mm_answer_ok(trim(lossy_text(body)))
            && v@ == mm_version(trim(lossy_text(body))),
        grew(old(host).trace(), final(host).trace()),
        r is Ok ==> unpacked(old(host).trace(), final(host).trace(), ctx.node_id,
            "tar -xzf "@ + download_target(*ctx, "mmsource.tar.gz"@) + " -C "@ + ctx.game_abs@),
{
    let ghost t0 = host.trace();
    let release = match fetch_metamod_latest(host) {
        Ok(rel) => rel,
        Err(err) => {
            return Err(ApiError::unprocessable("RELEASE_LOOKUP_FAILED", err));
        },
    };

    let ghost t1 = host.trace();
    let archive_abs = download_to_node(host, ctx, release.download_url.as_str(), "mmsource.tar.gz")?;
    let ghost t2 = host.trace();
    proof { crate::host_api::lemma_grew_trans(t0, t1, t2); }
    let untar = cat3(cat("tar -xzf ", archive_abs.as_str()).as_str(), " -C ", ctx.game_abs.as_str());
    let result = match host.exec(ctx.node_id, untar.as_str(), None) {
        Ok(x) => x,
        Err(e) => return Err(ApiError::from_host(e)),
    };
    let ghost t3 = host.trace();
    let ghost k = t3.len() - 1;
    let _ = host.remove(ctx.node_id, archive_abs.as_str(), false);
    if result.exit_code != 0 {
        return Err(ApiError::unprocessable("EXTRACT_FAILED", tar_failure(result.exit_code, result.output.as_str())));
    }

    // The tarball ships addons/metamod; wiring gameinfo.gi completes it.
    let patched = match repair(host, ctx) {
        Ok(changed) => changed,
        Err(err) => {
            host.log_error(cat("gameinfo patch after metamod install failed: ", err.message.as_str()).as_str());
            false
        },
    };
    proof {
        let t = host.trace();
        assert(t[k] == t3[k]);
        assert(unpacked(t0, t, ctx.node_id, "tar -xzf "@ + download_target(*ctx, "mmsource.tar.gz"@) + " -C "@ + ctx.game_abs@));
    }
    Ok((release.version, patched))
}

/// Downloads and unpacks CounterStrikeSharp (with runtime), restores the
/// exec bits of the runtime, then wires gameinfo.gi when it can.
pub fn install_css<H: HostApi>(host: &mut H, ctx: &ServerCtx) -> (r: Result<(String, bool), ApiError>)
    ensures
        r matches Err(e) ==> host_failure(e) || e.status == 422,
        !(exec_safe(ctx.root_abs@) && exec_safe(ctx.game_abs@)) ==> (r matches Err(e) && e.status == 422),
        r matches Ok((v, _)) ==> exists|doc: Json, patterns: Seq<&'static str>| {
            &&& patterns.len() == 2 && patterns[0]@ == "with-runtime"@ && patterns[1]@ == "linux"@
            &&& #[trigger] release_read(doc, patterns) matches Some(p) && p.0 == v@ && p.2 is Some
        },
        grew(old(host).trace(), final(host).trace()),
        r is Ok ==> unpacked_by_one_of(old(host).trace(), final(host).trace(), ctx.node_id,
            unzip_commands(download_target(*ctx, "counterstrikesharp.zip"@), ctx.game_abs@)),
{
    let ghost t0 = host.trace();
    let release = match fetch_github_latest(host, CSS_REPO, &css_asset_patterns()) {
        Ok(rel) => rel,
        Err(err) => {
            return Err(ApiError::unprocessable("RELEASE_LOOKUP_FAILED", err));
        },
    };
    let url = match &release.download_url {
        Some(u) => u.clone(),
        None => {
            return Err(ApiError::unprocessable(
                "NO_MATCHING_ASSET",
                String::from_str("latest CounterStrikeSharp release has no with-runtime linux asset"),
            ));
        },
    };

    let ghost t1 = host.trace();
    let archive_abs = download_to_node(host, ctx, url.as_str(), "counterstrikesharp.zip")?;
    let ghost t2 = host.trace();
    proof { crate::host_api::lemma_grew_trans(t0, t1, t2); }
    let unzip_result = unzip_on_node(host, ctx, archive_abs.as_str())?;
    let ghost t3 = host.trace();
    let ghost ku = t3.len() - 1;
    proof { crate::host_api::lemma_grew_trans(t0, t2, t3); }
    let _ = host.remove(ctx.node_id, archive_abs.as_str(), false);
    let ghost t4 = host.trace();
    unzip_result?;

    let css_abs = join(ctx.game_abs.as_str(), source2::CSS_DIR);
    let css_present = match is_dir_at(host, ctx.node_id, css_abs.as_str()) {
        Ok(b) => b,
        Err(e) => return Err(ApiError::from_host(e)),
    };
    if !css_present {
        return Err(ApiError::unprocessable(
            "EXTRACT_FAILED",
            String::from_str("archive extracted but addons/counterstrikesharp did not appear; unexpected release layout"),
        ));
    }

    // Python's zipfile drops unix modes; make the runtime executable again.
    let dotnet = join(css_abs.as_str(), "dotnet/dotnet");
    let dotnet_found = match host.stat(ctx.node_id, dotnet.as_str()) {
        Ok(f) => f,
        Err(e) => return Err(ApiError::from_host(e)),
    };
    if dotnet_found.is_some() {
        let _ = host.chmod(ctx.node_id, dotnet.as_str(), 493);
    }
    let so = join(css_abs.as_str(), "bin/linuxsteamrt64/counterstrikesharp.so");
    let so_found = match host.stat(ctx.node_id, so.as_str()) {
        Ok(f) => f,
        Err(e) => return Err(ApiError::from_host(e)),
    };
    if so_found.is_some() {
        let _ = host.chmod(ctx.node_id, so.as_str(), 493);
    }

    // CounterStrikeSharp needs Metamod wired; patch if the file allows it.
    let patched = match repair(host, ctx) {
        Ok(changed) => changed,
        Err(_) => false,
    };
    proof {
        let t = host.trace();
        crate::host_api::lemma_grew_trans(t0, t3, t);
        assert(t[ku] == t3[ku]);
        assert(unpacked_by_one_of(t0, t, ctx.node_id, unzip_commands(download_target(*ctx, "counterstrikesharp.zip"@), ctx.game_abs@)));
    }
    Ok((release.version, patched))
}

/// Downloads a URL into the server's scratch dir with curl, falling back to
/// wget; the absolute archive path. No node command runs unless the root,
/// the game dir and the URL are all safe to pass as single arguments.
/// Where a download lands: `<root>/.cs2addons/<file_name>`.
pub open spec fn download_target(ctx: ServerCtx, file_name: Seq<char>) -> Seq<char> {
    join_spec(join_spec(ctx.root_abs@, source2::DOWNLOAD_SCRATCH_DIR@), file_name)
}

/// Call `k` is one of the two download commands, answered with exit code 0,
/// and the call right after it a probe that found the target as a non-empty
/// file.
pub open spec fn download_at(t: Seq<HostCall>, k: int, ctx: ServerCtx, file_name: Seq<char>, url: Seq<char>) -> bool {
    let target = download_target(ctx, file_name);
    let cmds = download_commands(target, url);
    &&& 0 <= k && k + 1 < t.len()
    &&& t[k] matches HostCall::Exec(n, c, w, Ok(res)) && n == ctx.node_id && w is None && res.exit_code == 0
        && (c == cmds.0 || c == cmds.1)
    &&& t[k + 1] matches HostCall::Stat(n2, p2, Ok(Some(st))) && n2 == ctx.node_id && p2 == target
        && !st.is_dir && st.size > 0
}

/// Among the calls after `t0` is a download that worked ([`download_at`]).
pub open spec fn downloaded(t0: Seq<HostCall>, t: Seq<HostCall>, ctx: ServerCtx, file_name: Seq<char>, url: Seq<char>) -> bool {
    exists|k: int| t0.len() <= k && #[trigger] download_at(t, k, ctx, file_name, url)
}

/// The two download commands tried in turn: curl, then wget.
pub open spec fn download_commands(target: Seq<char>, url: Seq<char>) -> (Seq<char>, Seq<char>) {
    ("curl -fsSL --retry 2 -o "@ + target + " "@ + url, "wget -q -O "@ + target + " "@ + url)
}

pub fn download_to_node<H: HostApi>(host: &mut H, ctx: &ServerCtx, url: &str, file_name: &str) -> (r: Result<String, ApiError>)
    ensures
        !(exec_safe(ctx.root_abs@) && exec_safe(ctx.game_abs@) && exec_safe(url@)) ==> final(host).trace() == old(host).trace(),
        grew(old(host).trace(), final(host).trace()),
        forall|i: int| old(host).trace().len() <= i < final(host).trace().len() && is_effect(#[trigger] final(host).trace()[i])
            ==> (final(host).trace()[i] is MkDir) || (final(host).trace()[i] matches HostCall::Exec(n, c, w, _) && n == ctx.node_id && w is None
                && (c == download_commands(download_target(*ctx, file_name@), url@).0 || c == download_commands(download_target(*ctx, file_name@), url@).1)),
        r matches Ok(p) ==> p@ == download_target(*ctx, file_name@),
        !(exec_safe(ctx.root_abs@) && exec_safe(ctx.game_abs@) && exec_safe(url@))
            ==> (r matches Err(e) && e.status == 422 && e.code@ == "UNSAFE_PATH"@),
        r matches Err(e) ==> host_failure(e) || (e.status == 422 && e.code@ == "UNSAFE_PATH"@
            && !(exec_safe(ctx.root_abs@) && exec_safe(ctx.game_abs@) && exec_safe(url@)))
            || (e.status == 422 && e.code@ == "DOWNLOAD_FAILED"@ && !downloaded(old(host).trace(), final(host).trace(), *ctx, file_name@, url@)),
        r is Ok ==> downloaded(old(host).trace(), final(host).trace(), *ctx, file_name@, url@),
{
    require_exec_safe(ctx.root_abs.as_str())?;
    require_exec_safe(ctx.game_abs.as_str())?;
    require_exec_safe(url)?;
    let scratch_abs = join(ctx.root_abs.as_str(), source2::DOWNLOAD_SCRATCH_DIR);
    let scratch_found = match host.stat(ctx.node_id, scratch_abs.as_str()) {
        Ok(f) => f,
        Err(e) => return Err(ApiError::from_host(e)),
    };
    if scratch_found.is_none() {
        if let Err(e) = host.mk_dir(ctx.node_id, scratch_abs.as_str()) {
            return Err(ApiError::from_host(e));
        }
    }
    let archive_abs = join(scratch_abs.as_str(), file_name);

    let ghost t0 = old(host).trace();
    let ghost cmds = download_commands(download_target(*ctx, file_name@), url@);
    let mut attempts: Vec<String> = Vec::new();
    attempts.push(cat3(cat("curl -fsSL --retry 2 -o ", archive_abs.as_str()).as_str(), " ", url));
    attempts.push(cat3(cat("wget -q -O ", archive_abs.as_str()).as_str(), " ", url));
    let mut last_failure = String::new();
    let mut i: usize = 0;
    while i < attempts.len()
        invariant
            i <= attempts@.len(),
            exec_safe(ctx.root_abs@) && exec_safe(ctx.game_abs@) && exec_safe(url@),
            attempts@.len() == 2,
            attempts@[0]@ == cmds.0 && attempts@[1]@ == cmds.1,
            archive_abs@ == download_target(*ctx, file_name@),
            cmds == download_commands(download_target(*ctx, file_name@), url@),
            t0 == old(host).trace(),
            grew(t0, host.trace()),
            forall|j: int| t0.len() <= j < host.trace().len() && is_effect(#[trigger] host.trace()[j])
                ==> (host.trace()[j] is MkDir) || (host.trace()[j] matches HostCall::Exec(n, c, w, _) && n == ctx.node_id && w is None
                    && (c == cmds.0 || c == cmds.1)),
            forall|k: int| t0.len() <= k ==> !#[trigger] download_at(host.trace(), k, *ctx, file_name@, url@),
            host.trace().len() > t0.len() ==> !(host.trace().last() matches HostCall::Exec(_, _, _, Ok(res)) && res.exit_code == 0),
        decreases attempts@.len() - i,
    {
        let ghost ta = host.trace();
        let ran = host.exec(ctx.node_id, attempts[i].as_str(), None);
        let ghost tb = host.trace();
        proof {
            assert forall|k: int| t0.len() <= k implies !#[trigger] download_at(tb, k, *ctx, file_name@, url@) by {
                if k + 1 < ta.len() {
                    assert(tb[k] == ta[k] && tb[k + 1] == ta[k + 1]);
                    assert(!download_at(ta, k, *ctx, file_name@, url@));
                }
            }
        }
        match ran {
            Ok(result) => {
                if result.exit_code == 0 {
                    let probed = host.stat(ctx.node_id, archive_abs.as_str());
                    proof {
                        let tc = host.trace();
                        assert forall|k: int| t0.len() <= k && k + 1 < tc.len() && k != tb.len() - 1
                            implies !#[trigger] download_at(tc, k, *ctx, file_name@, url@) by {
                            assert(tc[k] == tb[k] && tc[k + 1] == tb[k + 1]);
                            assert(!download_at(tb, k, *ctx, file_name@, url@));
                        }
                    }
                    let found = match probed {
                        Ok(f) => f,
                        Err(e) => return Err(ApiError::from_host(e)),
                    };
                    match found {
                        Some(s) => {
                            if !s.is_dir && s.size > 0 {
                                assert(download_at(host.trace(), tb.len() - 1, *ctx, file_name@, url@));
                                return Ok(archive_abs);
                            }
                        },
                        None => {},
                    }
                    last_failure = String::from_str("download produced an empty file");
                } else {
                    last_failure = exit_failure(result.exit_code, result.output.as_str());
                }
            },
            Err(err) => {
                last_failure = host_error_text(&err);
            },
        }
        i = i + 1;
    }
    Err(ApiError::unprocessable(
        "DOWNLOAD_FAILED",
        cat("could not download on the node (tried curl and wget): ", last_failure.as_str()),
    ))
}

/// The extraction commands tried in turn: unzip, python3's zipfile, busybox.
pub open spec fn unzip_commands(archive: Seq<char>, game_abs: Seq<char>) -> Seq<Seq<char>> {
    seq![
        "unzip -o -q "@ + archive + " -d "@ + game_abs,
        "python3 -m zipfile -e "@ + archive + " "@ + game_abs + "/"@,
        "busybox unzip -o -q "@ + archive + " -d "@ + game_abs,
    ]
}

/// Extracts a zip on the node: unzip, then python3, then busybox. The outer
/// result is the host call; the inner one the extraction, so the caller can
/// delete the archive either way.
pub fn unzip_on_node<H: HostApi>(host: &mut H, ctx: &ServerCtx, archive_abs: &str) -> (r: Result<Result<(), ApiError>, ApiError>)
    ensures
        r is Ok,
        r matches Ok(Err(e)) ==> e.status == 422 && e.code@ == "EXTRACT_FAILED"@,
        grew(old(host).trace(), final(host).trace()),
        forall|i: int| old(host).trace().len() <= i < final(host).trace().len() && is_effect(#[trigger] final(host).trace()[i])
            ==> (final(host).trace()[i] matches HostCall::Exec(n, c, w, _) && n == ctx.node_id && w is None
                && unzip_commands(archive_abs@, ctx.game_abs@).contains(c)),
        r matches Ok(Ok(())) ==> final(host).trace().len() > old(host).trace().len()
            && (final(host).trace().last() matches HostCall::Exec(n, c, w, Ok(res)) && n == ctx.node_id && w is None
                && res.exit_code == 0 && unzip_commands(archive_abs@, ctx.game_abs@).contains(c)),
{
    let ghost t0 = host.trace();
    let mut attempts: Vec<String> = Vec::new();
    attempts.push(cat3(cat("unzip -o -q ", archive_abs).as_str(), " -d ", ctx.game_abs.as_str()));
    attempts.push(cat3(cat3("python3 -m zipfile -e ", archive_abs, " ").as_str(), ctx.game_abs.as_str(), "/"));
    attempts.push(cat3(cat("busybox unzip -o -q ", archive_abs).as_str(), " -d ", ctx.game_abs.as_str()));
    let ghost cmds = unzip_commands(archive_abs@, ctx.game_abs@);
    assert(attempts@.len() == 3 && attempts@[0]@ == cmds[0] && attempts@[1]@ == cmds[1] && attempts@[2]@ == cmds[2]);
    let mut last_failure = String::new();
    let mut i: usize = 0;
    while i < attempts.len()
        invariant
            i <= attempts@.len(),
            attempts@.len() == 3,
            cmds == unzip_commands(archive_abs@, ctx.game_abs@),
            attempts@[0]@ == cmds[0] && attempts@[1]@ == cmds[1] && attempts@[2]@ == cmds[2],
            t0 == old(host).trace(),
            grew(t0, host.trace()),
            forall|j: int| t0.len() <= j < host.trace().len() && is_effect(#[trigger] host.trace()[j])
                ==> (host.trace()[j] matches HostCall::Exec(n, c, w, _) && n == ctx.node_id && w is None && cmds.contains(c)),
        decreases attempts@.len() - i,
    {
        match host.exec(ctx.node_id, attempts[i].as_str(), None) {
            Ok(result) => {
                if result.exit_code == 0 {
                    return Ok(Ok(()));
                }
                last_failure = exit_failure(result.exit_code, result.output.as_str());
            },
            Err(err) => {
                last_failure = host_error_text(&err);
            },
        }
        i = i + 1;
    }
    Ok(Err(ApiError::unprocessable(
        "EXTRACT_FAILED",
        cat3("no working unzip tool on the node (tried unzip, python3, busybox): ", last_failure.as_str(), ". Install one: apt install unzip"),
    )))
}

} // verus!
