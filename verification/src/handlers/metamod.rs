//! POST /servers/{id}/metamod/toggle: enable or disable a binary Metamod
//! plugin by renaming its addons/metamod/<name>.vdf alias file.

use vstd::prelude::*;

use crate::handlers::audit;
use crate::handlers::ctx::{lemma_route_failed, param_id, resolved_at, route_failed, sanitize_plugin_name, valid_plugin_name, ServerCtx};
use crate::handlers::{host_failure, is_file_at};
use crate::host_api::{calls_since, grew, is_effect, lemma_reads_only_trans, reads_only, HostApi, HostCall};
use crate::http::{json_response, ApiError, ApiResult};
use crate::json::{json_text, Json};
use crate::model::{metamod_request, MetamodToggleRequest, MetamodToggleResponse};
use crate::source2;
use crate::source2::paths::{join, join_spec};
use crate::source2::vdf;
use crate::text::{cat, cat3, eq_ic};

verus! {

/// After `t0` the only changes are the rename of `name`'s alias in
/// addons/metamod of `game_abs` (the parked `.vdf.disabled` to the live
/// `.vdf` when enabling, the other way when disabling) and audit-log writes.
pub open spec fn vdf_renamed(t0: Seq<HostCall>, t: Seq<HostCall>, node: u64, game_abs: Seq<char>, name: Seq<char>, enable: bool) -> bool {
    let mm = join_spec(game_abs, "addons/metamod"@);
    let live = join_spec(mm, name + ".vdf"@);
    let parked = join_spec(mm, name + ".vdf.disabled"@);
    &&& grew(t0, t)
    &&& forall|i: int| t0.len() <= i < t.len() && is_effect(#[trigger] t[i]) ==> (
        (t[i] matches HostCall::Move(n, from, to, _) && n == node
            && (if enable { from == parked && to == live } else { from == live && to == parked }))
        || t[i] is StorageSet)
}

/// The refusal to park the CounterStrikeSharp alias without `force`.
pub open spec fn platform_guarded(name: Seq<char>, enabled: bool, force: bool) -> bool {
    !enabled && !force && eq_ic(name, seq!['c', 'o', 'u', 'n', 't', 'e', 'r', 's', 't', 'r', 'i', 'k', 'e', 's', 'h', 'a', 'r', 'p'])
}

/// The answer names the alias and its requested state.
pub open spec fn answers_metamod(body: Seq<u8>, name: Seq<char>, enabled: bool) -> bool {
    exists|t: MetamodToggleResponse, j: Json| #[trigger] t.json_is(j) && body == json_text(j) && t.name@ == name && t.enabled == enabled
}

pub fn handle<H: HostApi>(host: &mut H, params: &Vec<(String, String)>, body: &[u8], actor: Option<&str>) -> (r: ApiResult)
    ensures
        param_id(params@) is None ==> (r matches Err(e) && e.status == 400),
        r is Ok ==> metamod_request(body@) is Some && valid_plugin_name(metamod_request(body@).unwrap().0)
            && !platform_guarded(metamod_request(body@).unwrap().0, metamod_request(body@).unwrap().1, metamod_request(body@).unwrap().2),
        r matches Ok(resp) ==> resp.status == 200,
        r matches Ok(resp) ==> metamod_request(body@) matches Some((n, e, _)) && answers_metamod(resp.body@, n, e),
        metamod_request(body@) matches Some((n, e, f)) && platform_guarded(n, e, f)
            ==> r is Err && reads_only(old(host).trace(), final(host).trace()),
        r matches Err(e) && e.status == 409 ==> reads_only(old(host).trace(), final(host).trace()),
        metamod_request(body@) matches Some((n, e, f)) ==> (valid_plugin_name(n) && platform_guarded(n, e, f)
            ==> (r matches Err(x) && ((x.status == 409 && x.code@ == "PLATFORM_VDF"@)
                || route_failed(old(host).trace(), final(host).trace(), params@, x, |y: ApiError| false)))),
        param_id(params@) matches Some(id) ==> (metamod_request(body@) matches Some((n, en, _)) ==> (
            reads_only(old(host).trace(), final(host).trace())
            || exists|tm: Seq<HostCall>, c: ServerCtx| #[trigger] resolved_at(old(host).trace(), tm, id, c)
                && vdf_renamed(tm, final(host).trace(), c.node_id, c.game_abs@, n, en))),
        r matches Err(e) ==> route_failed(old(host).trace(), final(host).trace(), params@, e,
            |x: ApiError| (x.status == 400 && !(metamod_request(body@) matches Some((n, _, _)) && valid_plugin_name(n)))
                || x.status == 404 || x.status == 409 || host_failure(x)),
{
    let ghost t0 = host.trace();
    let context = ServerCtx::resolve(host, params)?;
    let ghost tm = host.trace();
    assert(resolved_at(t0, tm, context.server_id, context));
    let ghost allowed: spec_fn(ApiError) -> bool = |x: ApiError| (x.status == 400 && !(metamod_request(body@) matches Some((n, _, _)) && valid_plugin_name(n)))
        || x.status == 404 || x.status == 409 || host_failure(x);
    let request = match MetamodToggleRequest::parse(body) {
        Ok(q) => q,
        Err(e) => {
            proof {
                lemma_route_failed(t0, tm, host.trace(), params@, context, e, allowed);
            }
            return Err(e);
        },
    };
    match sanitize_plugin_name(request.name.as_str()) {
        Ok(()) => {},
        Err(e) => {
            proof {
                lemma_route_failed(t0, tm, host.trace(), params@, context, e, allowed);
            }
            return Err(e);
        },
    }

    // Disabling this one alias unloads CounterStrikeSharp itself. It is still
    // allowed, but never as an unremarkable row switch.
    if !request.enabled && !request.force && vdf::is_platform(request.name.as_str()) {
        let e = ApiError::conflict(
            "PLATFORM_VDF",
            String::from_str("counterstrikesharp.vdf registers CounterStrikeSharp itself; disabling it unloads every CSS plugin and the console commands this tab relies on"),
        );
        proof {
            reveal_strlit("PLATFORM_VDF");
            lemma_route_failed(t0, tm, host.trace(), params@, context, e, allowed);
        }
        return Err(e);
    }

    let metamod_abs = join(context.game_abs.as_str(), source2::METAMOD_DIR);
    let live_abs = join(metamod_abs.as_str(), cat(request.name.as_str(), vdf::VDF_EXT).as_str());
    let parked_abs = join(metamod_abs.as_str(), cat(request.name.as_str(), vdf::DISABLED_SUFFIX).as_str());

    let ghost t1 = host.trace();
    let live = is_file_at(host, context.node_id, live_abs.as_str());
    proof { lemma_reads_only_trans(t0, t1, host.trace()); }
    let live = match live {
        Ok(b) => b,
        Err(h) => {
            let e = ApiError::from_host(h);
            proof { lemma_route_failed(t0, tm, host.trace(), params@, context, e, allowed); }
            return Err(e);
        },
    };
    let ghost t2 = host.trace();
    let parked = is_file_at(host, context.node_id, parked_abs.as_str());
    proof { lemma_reads_only_trans(t0, t2, host.trace()); lemma_reads_only_trans(tm, t2, host.trace()); }
    let parked = match parked {
        Ok(b) => b,
        Err(h) => {
            let e = ApiError::from_host(h);
            proof { lemma_route_failed(t0, tm, host.trace(), params@, context, e, allowed); }
            return Err(e);
        },
    };

    if !live && !parked {
        let e = ApiError::not_found("VDF_NOT_FOUND", cat3("no ", request.name.as_str(), ".vdf in addons/metamod"));
        proof { lemma_route_failed(t0, tm, host.trace(), params@, context, e, allowed); }
        return Err(e);
    }
    if live && parked {
        let e = ApiError::conflict(
            "VDF_AMBIGUOUS",
            cat3(
                cat3("both ", request.name.as_str(), ".vdf and ").as_str(),
                request.name.as_str(),
                ".vdf.disabled exist; delete one in the file manager",
            ),
        );
        proof { lemma_route_failed(t0, tm, host.trace(), params@, context, e, allowed); }
        return Err(e);
    }

    let changed = live != request.enabled;
    let ghost mm = join_spec(context.game_abs@, "addons/metamod"@);
    proof {
        reveal_strlit(".vdf");
        reveal_strlit(".vdf.disabled");
        assert(live_abs@ == join_spec(mm, request.name@ + ".vdf"@));
        assert(parked_abs@ == join_spec(mm, request.name@ + ".vdf.disabled"@));
    }
    let ghost mut t4: Seq<HostCall> = Seq::empty();
    if changed {
        let ghost t3 = host.trace();
        let moved = if request.enabled {
            host.move_path(context.node_id, parked_abs.as_str(), live_abs.as_str())
        } else {
            host.move_path(context.node_id, live_abs.as_str(), parked_abs.as_str())
        };
        match moved {
            Ok(()) => {},
            Err(h) => {
                let e = ApiError::from_host(h);
                proof {
                    lemma_route_failed(t0, tm, host.trace(), params@, context, e, allowed);
                    let t = host.trace();
                    assert forall|i: int| tm.len() <= i < t.len() && is_effect(#[trigger] t[i]) implies (
                        (t[i] matches HostCall::Move(n, from, to, _) && n == context.node_id
                            && (if request.enabled { from == parked_abs@ && to == live_abs@ } else { from == live_abs@ && to == parked_abs@ }))
                        || t[i] is StorageSet) by {
                        if i < t3.len() {
                            assert(t[i] == t3[i]);
                        }
                    }
                    assert(vdf_renamed(tm, t, context.node_id, context.game_abs@, request.name@, request.enabled));
                }
                return Err(e);
            },
        }
        proof {
            t4 = host.trace();
            let t = host.trace();
            assert forall|i: int| tm.len() <= i < t.len() && is_effect(#[trigger] t[i]) implies (
                (t[i] matches HostCall::Move(n, from, to, _) && n == context.node_id
                    && (if request.enabled { from == parked_abs@ && to == live_abs@ } else { from == live_abs@ && to == parked_abs@ }))
                || t[i] is StorageSet) by {
                if i < t3.len() {
                    assert(t[i] == t3[i]);
                }
            }
        }
        audit::record(
            host,
            context.server_id,
            actor,
            if request.enabled { "metamod-plugin-enable" } else { "metamod-plugin-disable" },
            request.name.as_str(),
        );
    }

    proof {
        let t = host.trace();
        if changed {
            let c = calls_since(t4, t);
            assert forall|i: int| tm.len() <= i < t.len() && is_effect(#[trigger] t[i]) implies (
                (t[i] matches HostCall::Move(n, from, to, _) && n == context.node_id
                    && (if request.enabled { from == parked_abs@ && to == live_abs@ } else { from == live_abs@ && to == parked_abs@ }))
                || t[i] is StorageSet) by {
                if i < t4.len() {
                    assert(t[i] == t4[i]);
                } else {
                    assert(t[i] == c[i - t4.len()]);
                }
            }
            crate::host_api::lemma_grew_trans(tm, t4, t);
            assert(vdf_renamed(tm, t, context.node_id, context.game_abs@, request.name@, request.enabled));
        }
    }
    let response = MetamodToggleResponse { name: request.name, enabled: request.enabled, changed };
    let j = response.to_json();
    let resp = json_response(200, &j);
    assert(response.json_is(j) && resp.body@ == json_text(j));
    Ok(resp)
}

} // verus!
