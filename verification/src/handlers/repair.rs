//! POST /servers/{id}/gameinfo/repair: re-add the Metamod search path that
//! CS2 updates keep reverting out of gameinfo.gi.

use vstd::prelude::*;

use crate::handlers::audit;
use crate::handlers::ctx::{lemma_route_failed, param_id, resolve_answers, resolved_at, route_failed, ServerCtx};
use crate::handlers::{host_failure, is_file_at, stat_file};
use crate::host_api::{calls_since, grew, HostCall};
use crate::http::host_error;
use crate::source2::paths::join_spec;
use crate::text::lossy_text;
use crate::host_api::HostApi;
use crate::http::{json_response, ApiError, ApiResult};
use crate::json::{json_text, Json};
use crate::model::RepairGameinfoResponse;
use crate::source2;
use crate::source2::gameinfo;
use crate::source2::paths::join;

verus! {

pub const GAMEINFO_PERMISSIONS: u32 = 420;

/// The repair route's answer for server `id`, between two transcripts: the
/// server resolved, then a repair of its gameinfo.gi whose outcome the
/// answer's `changed` reports (true exactly when the patched file was
/// uploaded).
pub open spec fn repair_handled(body: Seq<u8>, t0: Seq<HostCall>, t: Seq<HostCall>, id: u64) -> bool {
    exists|tm: Seq<HostCall>, tr: Seq<HostCall>, ctx: ServerCtx, changed: bool, resp: RepairGameinfoResponse, j: Json|
        #![trigger resolve_answers(calls_since(t0, tm), id, Ok(ctx)), repair_answers(calls_since(tm, tr), ctx.node_id,
            join_spec(ctx.game_abs@, source2::GAMEINFO_FILE@), Ok(changed)), resp.json_is(j)]
    {
        &&& grew(t0, tm) && grew(tm, tr) && grew(tr, t)
        &&& resolve_answers(calls_since(t0, tm), id, Ok(ctx))
        &&& repair_answers(calls_since(tm, tr), ctx.node_id, join_spec(ctx.game_abs@, source2::GAMEINFO_FILE@), Ok(changed))
        &&& resp.json_is(j) && body == json_text(j) && resp.changed == changed
    }
}

pub fn handle<H: HostApi>(host: &mut H, params: &Vec<(String, String)>, actor: Option<&str>) -> (r: ApiResult)
    ensures
        param_id(params@) is None ==> (r matches Err(e) && e.status == 400),
        r matches Ok(resp) ==> resp.status == 200,
        r matches Ok(resp) ==> param_id(params@) is Some
            && repair_handled(resp.body@, old(host).trace(), final(host).trace(), param_id(params@).unwrap()),
        r matches Err(e) ==> route_failed(old(host).trace(), final(host).trace(), params@, e, |x: ApiError| host_failure(x)
            || (x.status == 422 && (x.code@ == "GAMEINFO_NOT_FOUND"@ || x.code@ == "GAMEINFO_UNPATCHABLE"@))),
{
    let ghost t0 = host.trace();
    let ctx = ServerCtx::resolve(host, params)?;
    let ghost tm = host.trace();
    assert(resolved_at(t0, tm, ctx.server_id, ctx));
    let repaired = repair(host, &ctx);
    let changed = match repaired {
        Ok(c) => c,
        Err(e) => {
            proof {
                lemma_route_failed(t0, tm, host.trace(), params@, ctx, e, |x: ApiError| host_failure(x)
                    || (x.status == 422 && (x.code@ == "GAMEINFO_NOT_FOUND"@ || x.code@ == "GAMEINFO_UNPATCHABLE"@)));
            }
            return Err(e);
        },
    };
    let ghost tr = host.trace();
    if changed {
        audit::record(host, ctx.server_id, actor, "gameinfo-repair", "gameinfo.gi");
    }
    let response = RepairGameinfoResponse { changed };
    let j = response.to_json();
    let resp = json_response(200, &j);
    proof {
        assert(response.json_is(j) && resp.body@ == json_text(j));
        assert(grew(t0, tm));
        assert(repair_handled(resp.body@, t0, host.trace(), param_id(params@).unwrap()));
    }
    Ok(resp)
}

/// Repair is idempotent: when a first repair uploaded the patched file and
/// the node gives that file back, a second repair changes nothing and
/// uploads nothing.
pub proof fn lemma_repair_idempotent(t1: Seq<HostCall>, t2: Seq<HostCall>, node: u64, path: Seq<char>, r2: Result<bool, ApiError>)
    requires
        t1.len() == 3,
        repair_answers(t1, node, path, Ok(true)),
        repair_answers(t2, node, path, r2),
        t2.len() >= 2,
        t2[1] matches HostCall::Download(_, _, Ok(c)) && t1[2] matches HostCall::Upload(_, _, bytes, _, _) && c@ == bytes,
    ensures
        r2 == Ok::<bool, ApiError>(false),
        t2.len() == 2,
{
}

/// What a repair does, given the calls it made (`t`) on the node holding
/// gameinfo.gi at `path`: probe the file (missing: 422 GAMEINFO_NOT_FOUND),
/// download it, and when it does not load Metamod yet upload it patched by
/// [`gameinfo::wire_metamod`] (no anchor: 422 GAMEINFO_UNPATCHABLE). `true`
/// exactly when the patched file was written; a failed call is the host's
/// error.
pub open spec fn repair_answers(t: Seq<HostCall>, node: u64, path: Seq<char>, r: Result<bool, ApiError>) -> bool {
    &&& t.len() >= 1
    &&& t[0] matches HostCall::Stat(n0, p0, a0)
    &&& n0 == node && p0 == path
    &&& match stat_file(a0) {
        Err(h) => t.len() == 1 && r == Err::<bool, ApiError>(host_error(h)),
        Ok(false) => t.len() == 1 && (r matches Err(e) && e.status == 422 && e.code@ == "GAMEINFO_NOT_FOUND"@),
        Ok(true) => {
            &&& t.len() >= 2
            &&& t[1] matches HostCall::Download(n1, p1, a1)
            &&& n1 == node && p1 == path
            &&& match a1 {
                Err(h) => t.len() == 2 && r == Err::<bool, ApiError>(host_error(h)),
                Ok(content) => if gameinfo::metamod_wired(content@) {
                    t.len() == 2 && r == Ok::<bool, ApiError>(false)
                } else {
                    match gameinfo::wire_text(lossy_text(content@)) {
                        None => t.len() == 2 && (r matches Err(e) && e.status == 422 && e.code@ == "GAMEINFO_UNPATCHABLE"@),
                        Some(patched) => {
                            &&& t.len() == 3
                            &&& t[2] matches HostCall::Upload(n2, p2, bytes, perm, a2)
                            &&& n2 == node && p2 == path && perm == GAMEINFO_PERMISSIONS
                            &&& lossy_text(bytes) == patched
                            &&& bytes == vstd::utf8::encode_utf8(patched)
                            &&& gameinfo::metamod_wired(bytes)
                            &&& match a2 {
                                Ok(()) => r == Ok::<bool, ApiError>(true),
                                Err(h) => r == Err::<bool, ApiError>(host_error(h)),
                            }
                        },
                    }
                },
            }
        },
    }
}

/// Wires gameinfo.gi if needed; whether a write happened. What is written
/// is the file as [`gameinfo::wire_metamod`] patches it, which is wired.
pub fn repair<H: HostApi>(host: &mut H, ctx: &ServerCtx) -> (r: Result<bool, ApiError>)
    ensures
        r matches Err(e) ==> host_failure(e)
            || (e.status == 422 && (e.code@ == "GAMEINFO_NOT_FOUND"@ || e.code@ == "GAMEINFO_UNPATCHABLE"@)),
        grew(old(host).trace(), final(host).trace()),
        repair_answers(calls_since(old(host).trace(), final(host).trace()), ctx.node_id,
            join_spec(ctx.game_abs@, source2::GAMEINFO_FILE@), r),
{
    let gameinfo_abs = join(ctx.game_abs.as_str(), source2::GAMEINFO_FILE);
    let present = match is_file_at(host, ctx.node_id, gameinfo_abs.as_str()) {
        Ok(b) => b,
        Err(e) => return Err(ApiError::from_host(e)),
    };
    if !present {
        return Err(ApiError::unprocessable(
            "GAMEINFO_NOT_FOUND",
            String::from_str("gameinfo.gi not found in the game directory"),
        ));
    }
    let content = match host.download(ctx.node_id, gameinfo_abs.as_str()) {
        Ok(c) => c,
        Err(e) => return Err(ApiError::from_host(e)),
    };
    if gameinfo::is_metamod_wired(content.as_slice()) {
        assert(gameinfo::metamod_wired(content@));
        return Ok(false);
    }
    let patched = match gameinfo::wire_metamod(content.as_slice()) {
        Some(p) => p,
        None => return Err(ApiError::unprocessable(
            "GAMEINFO_UNPATCHABLE",
            String::from_str("gameinfo.gi has no SearchPaths Game entry to anchor the Metamod line; edit it manually"),
        )),
    };
    assert(gameinfo::metamod_wired(patched@));
    assert(!gameinfo::metamod_wired(content@) && gameinfo::wire_text(lossy_text(content@)) is Some);
    match host.upload(ctx.node_id, gameinfo_abs.as_str(), patched.as_slice(), GAMEINFO_PERMISSIONS) {
        Ok(()) => Ok(true),
        Err(e) => Err(ApiError::from_host(e)),
    }
}

} // verus!
