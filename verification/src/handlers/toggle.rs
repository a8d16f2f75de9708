//! POST /servers/{id}/plugins/toggle: move a plugin folder in or out of
//! plugins/disabled/. Parking the folder where CounterStrikeSharp does not
//! scan is the persistent disable.

use vstd::prelude::*;

use crate::handlers::ctx::{lemma_route_failed, param_id, resolve_answers, resolved_at, route_failed, sanitize_plugin_name, valid_plugin_name, ServerCtx};
use crate::handlers::{audit, css_disabled_abs, css_plugins_abs, find_plugin_folder, folder_probed, found_state, host_failure, is_dir_at, move_dir, stat_dir};
use crate::host_api::{calls_since, grew, is_effect, lemma_grew_trans, lemma_reads_only_trans, reads_only, HostApi, HostApiError, HostCall};
use crate::http::{host_error, json_response, ApiError, ApiResult, HttpResponse};
use crate::json::{json_text, Json};
use crate::model::{toggle_request, ToggleRequest, ToggleResponse};
use crate::source2;
use crate::source2::paths::{file_name, file_name_spec, join, join_spec};
use crate::text::cat3;

verus! {

/// The response names the plugin, its requested state and whether the
/// folder moved.
pub open spec fn answers_toggle(body: Seq<u8>, name: Seq<char>, enabled: bool, changed: bool) -> bool {
    exists|t: ToggleResponse, j: Json| #[trigger] t.json_is(j) && body == json_text(j) && t.name@ == name
        && t.enabled == enabled && t.changed == changed
}

/// The move that puts plugin `name` of the game dir `base` in the requested
/// state: out of plugins/disabled/ into plugins/ when enabling, the other
/// way when disabling; the folder keeps its own name.
pub open spec fn toggle_move(base: Seq<char>, name: Seq<char>, enable: bool) -> (Seq<char>, Seq<char>) {
    let plugins = join_spec(base, source2::CSS_PLUGINS_DIR@);
    let disabled = join_spec(plugins, source2::DISABLED_DIR_NAME@);
    if enable {
        let src = join_spec(disabled, name);
        (src, join_spec(plugins, file_name_spec(src)))
    } else {
        let src = join_spec(plugins, name);
        (src, join_spec(disabled, file_name_spec(src)))
    }
}

/// What a toggle did on the node, between two transcripts: when `changed`,
/// exactly one move, the one [`toggle_move`] names, and it succeeded;
/// otherwise nothing was changed at all, and a probe found the folder
/// already where the request wants it (the source of the opposite move).
pub open spec fn toggled(before: Seq<HostCall>, after: Seq<HostCall>, name: Seq<char>, enable: bool, changed: bool) -> bool {
    &&& grew(before, after)
    &&& if changed {
        exists|k: int, base: Seq<char>| #![trigger after[k], toggle_move(base, name, enable)] {
            &&& before.len() <= k < after.len()
            &&& after[k] matches HostCall::Move(_, s, d, a)
            &&& s == toggle_move(base, name, enable).0 && d == toggle_move(base, name, enable).1 && a is Ok
            &&& forall|i: int| before.len() <= i < after.len() && (#[trigger] after[i]) is Move ==> i == k
        }
    } else {
        &&& forall|i: int| before.len() <= i < after.len() ==> !is_effect(#[trigger] after[i])
        &&& exists|k: int, base: Seq<char>| #![trigger after[k], toggle_move(base, name, enable)]
            before.len() <= k < after.len() && (after[k] matches HostCall::Stat(_, p, a)
                && p == toggle_move(base, name, !enable).0 && crate::handlers::stat_dir(a) == Ok::<bool, crate::host_api::HostApiError>(true))
    }
}

/// The toggle answer.
fn toggle_answer(name: &str, enabled: bool, changed: bool) -> (resp: HttpResponse)
    ensures
        resp.status == 200,
        answers_toggle(resp.body@, name@, enabled, changed),
{
    let t = ToggleResponse { name: name.to_owned(), enabled, changed };
    let j = t.to_json();
    let resp = json_response(200, &j);
    assert(t.json_is(j) && resp.body@ == json_text(j));
    resp
}

/// What a toggle of plugin `name` to `enable` answers once it has found the
/// folder in state `cur` (enabled or not) at call `i`: nothing to do when
/// it already is where the request wants it; else a probe of the target,
/// 409 when something is there, else the move.
pub open spec fn toggle_after_lookup(t: Seq<HostCall>, i: int, ctx: ServerCtx, name: Seq<char>, enable: bool, cur: bool, r: ApiResult) -> bool {
    let mv = toggle_move(ctx.game_abs@, name, enable);
    if cur == enable {
        &&& t.len() == i
        &&& r matches Ok(resp) && resp.status == 200 && answers_toggle(resp.body@, name, enable, false)
    } else {
        &&& i < t.len()
        &&& t[i] matches HostCall::Stat(n, p, a)
        &&& n == ctx.node_id && p == mv.1
        &&& match a {
            Err(h) => r == Err::<HttpResponse, ApiError>(host_error(h)) && t.len() == i + 1,
            Ok(Some(_)) => (r matches Err(e) && e.status == 409 && e.code@ == "TARGET_EXISTS"@) && t.len() == i + 1,
            Ok(None) => {
                &&& (r is Ok <==> exists|k: int| #![trigger t[k]] i < k < t.len()
                    && (t[k] matches HostCall::Move(nk, s, d, Ok(_)) && nk == ctx.node_id && s == mv.0 && d == mv.1))
                &&& (r matches Ok(resp) ==> resp.status == 200 && answers_toggle(resp.body@, name, enable, true))
                &&& (r matches Err(e) ==> host_failure(e) || e.status == 500)
            },
        }
    }
}

/// What a toggle of plugin `name` to `enable` did on a resolved server,
/// from the calls after `t0`: the CounterStrikeSharp probe (409 when it is
/// not installed), the folder lookup (404 when there is no folder), then
/// [`toggle_after_lookup`]; a failed probe answers the host's error.
pub open spec fn toggle_outcome(t0: Seq<HostCall>, t: Seq<HostCall>, ctx: ServerCtx, name: Seq<char>, enable: bool, r: ApiResult) -> bool {
    let b = t0.len() as int;
    &&& grew(t0, t)
    &&& b < t.len()
    &&& t[b] matches HostCall::Stat(n, p, a)
    &&& n == ctx.node_id && p == join_spec(ctx.game_abs@, source2::CSS_DIR@)
    &&& match stat_dir(a) {
        Err(h) => r == Err::<HttpResponse, ApiError>(host_error(h)) && t.len() == b + 1,
        Ok(false) => (r matches Err(e) && e.status == 409 && e.code@ == "CSS_NOT_INSTALLED"@) && t.len() == b + 1,
        Ok(true) => exists|found: Result<Option<bool>, HostApiError>, end: int| #[trigger] folder_probed(t, b + 1, ctx, name, found, end) && match found {
            Err(h) => r == Err::<HttpResponse, ApiError>(host_error(h)) && t.len() == end,
            Ok(None) => (r matches Err(e) && e.status == 404 && e.code@ == "PLUGIN_NOT_FOUND"@) && t.len() == end,
            Ok(Some(cur)) => toggle_after_lookup(t, end, ctx, name, enable, cur, r),
        },
    }
}

/// Toggling is idempotent: a toggle that finds the folder where the
/// request wants it (as it is after a first toggle that moved it) answers
/// "unchanged" and changes nothing.
pub proof fn lemma_toggle_idempotent(t0: Seq<HostCall>, t: Seq<HostCall>, ctx: ServerCtx, name: Seq<char>, enable: bool, r: ApiResult, end: int)
    requires
        toggle_outcome(t0, t, ctx, name, enable, r),
        folder_probed(t, t0.len() as int + 1, ctx, name, Ok::<Option<bool>, HostApiError>(Some(enable)), end),
    ensures
        r matches Ok(resp) && answers_toggle(resp.body@, name, enable, false),
        t.len() == end,
{
    let b = t0.len() as int;
    let found = choose|found: Result<Option<bool>, HostApiError>, e2: int| #[trigger] folder_probed(t, b + 1, ctx, name, found, e2);
    assert(stat_dir(t[b]->Stat_2) == Ok::<bool, HostApiError>(true));
}

/// The toggle of a plugin on a resolved server, once its name is valid.
#[verifier::rlimit(60)]
#[verifier::spinoff_prover]
fn toggle_plugin<H: HostApi>(host: &mut H, ctx: &ServerCtx, name: &str, enable: bool, actor: Option<&str>) -> (r: ApiResult)
    ensures
        toggle_outcome(old(host).trace(), final(host).trace(), *ctx, name@, enable, r),
        r is Ok ==> toggled(old(host).trace(), final(host).trace(), name@, enable, false)
            || toggled(old(host).trace(), final(host).trace(), name@, enable, true),
        r matches Ok(resp) ==> (answers_toggle(resp.body@, name@, enable, false) && toggled(old(host).trace(), final(host).trace(), name@, enable, false))
            || (answers_toggle(resp.body@, name@, enable, true) && toggled(old(host).trace(), final(host).trace(), name@, enable, true)),
        r is Err ==> forall|i: int| old(host).trace().len() <= i < final(host).trace().len()
            ==> !(#[trigger] final(host).trace()[i] matches HostCall::Move(_, _, _, a) && a is Ok),
        r matches Err(e) && e.status == 409 ==> reads_only(old(host).trace(), final(host).trace()),
{
    let ghost t0 = host.trace();
    let css_abs = join(ctx.game_abs.as_str(), source2::CSS_DIR);
    let css = is_dir_at(host, ctx.node_id, css_abs.as_str());
    let ghost tb = host.trace();
    proof {
        reveal_strlit("CSS_NOT_INSTALLED");
        reveal_strlit("PLUGIN_NOT_FOUND");
        reveal_strlit("TARGET_EXISTS");
    }
    match css {
        Ok(true) => {},
        Ok(false) => return Err(ApiError::conflict(
            "CSS_NOT_INSTALLED",
            String::from_str("CounterStrikeSharp is not installed on this server"),
        )),
        Err(h) => return Err(ApiError::from_host(h)),
    }

    let lookup = find_plugin_folder(host, ctx, name);
    let ghost tf = host.trace();
    let ghost found = found_state(lookup);
    let ghost end = tf.len() as int;
    proof {
        lemma_reads_only_trans(t0, tb, tf);
        assert(folder_probed(tf, t0.len() as int + 1, *ctx, name@, found, end));
    }
    let (current_abs, currently_enabled) = match lookup {
        Ok(Some(f)) => f,
        Ok(None) => return Err(ApiError::not_found(
            "PLUGIN_NOT_FOUND",
            cat3("no plugin folder named ", name, " on the server"),
        )),
        Err(h) => return Err(ApiError::from_host(h)),
    };

    let ghost tk = tf.len() - 1;
    if currently_enabled == enable {
        let resp = toggle_answer(name, enable, false);
        assert(toggle_move(ctx.game_abs@, name@, !enable).0 == current_abs@);
        assert(tf[tk] matches HostCall::Stat(_, p, a) && p == current_abs@
            && crate::handlers::stat_dir(a) == Ok::<bool, crate::host_api::HostApiError>(true));
        assert(toggle_move(ctx.game_abs@, name@, enable).1.len() >= 0);
        assert(toggled(t0, tf, name@, enable, false));
        return Ok(resp);
    }

    let folder_name = file_name(current_abs.as_str());
    let target_abs = if enable {
        join(css_plugins_abs(ctx).as_str(), folder_name.as_str())
    } else {
        join(css_disabled_abs(ctx).as_str(), folder_name.as_str())
    };
    let ghost mv = toggle_move(ctx.game_abs@, name@, enable);
    assert(mv.0 == current_abs@ && mv.1 == target_abs@);

    let occupied = host.stat(ctx.node_id, target_abs.as_str());
    let ghost t1 = host.trace();
    proof {
        assert(reads_only(tf, t1));
        lemma_reads_only_trans(t0, tf, t1);
        assert(t1[t0.len() as int] == tf[t0.len() as int]);
        assert(folder_probed(t1, t0.len() as int + 1, *ctx, name@, found, end)) by {
            assert(t1[t0.len() as int + 1] == tf[t0.len() as int + 1]);
            if end == t0.len() as int + 3 {
                assert(t1[t0.len() as int + 2] == tf[t0.len() as int + 2]);
            }
        }
    }
    match occupied {
        Ok(Some(_)) => return Err(ApiError::conflict(
            "TARGET_EXISTS",
            cat3("", target_abs.as_str(), " already exists; refusing to overwrite"),
        )),
        Ok(None) => {},
        Err(h) => return Err(ApiError::from_host(h)),
    }

    let moved = move_dir(host, ctx, current_abs.as_str(), target_abs.as_str());
    let ghost t2 = host.trace();
    proof {
        lemma_grew_trans(t0, t1, t2);
        assert(t2[t0.len() as int] == t1[t0.len() as int]);
        assert(t2[end] == t1[end]);
        assert(folder_probed(t2, t0.len() as int + 1, *ctx, name@, found, end)) by {
            assert(t2[t0.len() as int + 1] == t1[t0.len() as int + 1]);
            if end == t0.len() as int + 3 {
                assert(t2[t0.len() as int + 2] == t1[t0.len() as int + 2]);
            }
        }
    }
    match moved {
        Ok(()) => {},
        Err(e) => {
            proof {
                assert forall|k: int| end < k < t2.len() implies !(#[trigger] t2[k] matches HostCall::Move(nk, s, d, Ok(_))) by {
                    if k < t1.len() {
                        assert(t2[k] == t1[k]);
                    }
                }
                assert forall|i: int| t0.len() <= i < t2.len() implies !(#[trigger] t2[i] matches HostCall::Move(_, _, _, a) && a is Ok) by {
                    if i < t1.len() {
                        assert(t2[i] == t1[i]);
                    }
                }
            }
            return Err(e);
        },
    }
    let ghost k = t2.len() - 1;

    audit::record(
        host,
        ctx.server_id,
        actor,
        if enable { "plugin-enable" } else { "plugin-disable" },
        name,
    );

    let resp = toggle_answer(name, enable, true);
    proof {
        let t3 = host.trace();
        lemma_grew_trans(t0, t2, t3);
        assert(t3[k] == t2[k]);
        assert(t3[t0.len() as int] == t2[t0.len() as int]);
        assert(t3[end] == t2[end]);
        assert(folder_probed(t3, t0.len() as int + 1, *ctx, name@, found, end)) by {
            assert(t3[t0.len() as int + 1] == t2[t0.len() as int + 1]);
            if end == t0.len() as int + 3 {
                assert(t3[t0.len() as int + 2] == t2[t0.len() as int + 2]);
            }
        }
        assert forall|i: int| t0.len() <= i < t3.len() && (#[trigger] t3[i]) is Move implies i == k by {
            if i < t1.len() {
                assert(t3[i] == t1[i]);
            } else if i < t2.len() {
                assert(t3[i] == t2[i]);
            }
        }
        assert(toggled(t0, t3, name@, enable, true));
    }
    Ok(resp)
}

pub fn handle<H: HostApi>(host: &mut H, params: &Vec<(String, String)>, body: &[u8], actor: Option<&str>) -> (r: ApiResult)
    ensures
        param_id(params@) is None ==> (r matches Err(e) && e.status == 400),
        r is Ok ==> toggle_request(body@) is Some && valid_plugin_name(toggle_request(body@).unwrap().0),
        r matches Ok(resp) ==> resp.status == 200,
        r matches Ok(resp) ==> toggle_request(body@) matches Some((n, e))
            && (answers_toggle(resp.body@, n, e, false) || answers_toggle(resp.body@, n, e, true)),
        r is Err ==> forall|i: int| old(host).trace().len() <= i < final(host).trace().len()
            ==> !(#[trigger] final(host).trace()[i] matches HostCall::Move(_, _, _, a) && a is Ok),
        r matches Err(e) && e.status == 409 ==> reads_only(old(host).trace(), final(host).trace()),
        r matches Err(e) ==> route_failed(old(host).trace(), final(host).trace(), params@, e,
            |x: ApiError| (x.status == 400 && !(toggle_request(body@) matches Some((n, _)) && valid_plugin_name(n)))
                || x.status == 404 || x.status == 409 || x.status == 500 || host_failure(x)),
        param_id(params@) matches Some(id) ==> (toggle_request(body@) matches Some((n, en)) ==> (valid_plugin_name(n)
            ==> (r matches Err(e) && resolve_answers(calls_since(old(host).trace(), final(host).trace()), id, Err(e)))
                || toggle_handled(old(host).trace(), final(host).trace(), id, n, en, r))),
{
    let ghost t0 = host.trace();
    let context = ServerCtx::resolve(host, params)?;
    let ghost tm = host.trace();
    assert(resolved_at(t0, tm, context.server_id, context));
    let ghost allowed: spec_fn(ApiError) -> bool = |x: ApiError| (x.status == 400 && !(toggle_request(body@) matches Some((n, _)) && valid_plugin_name(n)))
        || x.status == 404 || x.status == 409 || x.status == 500 || host_failure(x);
    let request = match ToggleRequest::parse(body) {
        Ok(q) => q,
        Err(e) => {
            proof {
                lemma_route_failed(t0, tm, host.trace(), params@, context, e, allowed);
            }
            return Err(e);
        },
    };
    match sanitize_plugin_name(request.name.as_str()) {
        Ok(()) => {},
        Err(e) => {
            proof {
                lemma_route_failed(t0, tm, host.trace(), params@, context, e, allowed);
            }
            return Err(e);
        },
    }
    let r = toggle_plugin(host, &context, request.name.as_str(), request.enabled, actor);
    proof {
        let t = host.trace();
        assert(toggle_request(body@) == Some((request.name@, request.enabled)));
        assert forall|i: int| t0.len() <= i < t.len() && r is Err implies !(#[trigger] t[i] matches HostCall::Move(_, _, _, a) && a is Ok) by {
            if i < tm.len() {
                assert(t[i] == tm[i]);
                assert(!is_effect(tm[i]));
            }
        }
        if r is Err {
            let e = r->Err_0;
            assert(e.status == 404 || e.status == 409 || e.status == 500 || host_failure(e));
            lemma_route_failed(t0, tm, t, params@, context, e, allowed);
        }
        assert(toggle_handled(t0, t, context.server_id, request.name@, request.enabled, r));
    }
    r
}

/// The toggle route on server `id`: the server resolved, then
/// [`toggle_outcome`] on it.
pub open spec fn toggle_handled(t0: Seq<HostCall>, t: Seq<HostCall>, id: u64, name: Seq<char>, enable: bool, r: ApiResult) -> bool {
    exists|tm: Seq<HostCall>, c: ServerCtx| #[trigger] resolved_at(t0, tm, id, c) && toggle_outcome(tm, t, c, name, enable, r)
        && (r is Err || toggled(tm, t, name, enable, false) || toggled(tm, t, name, enable, true))
}

} // verus!
