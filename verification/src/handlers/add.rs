//! POST /servers/{id}/plugins: register an uploaded plugin folder.
//!
//! The frontend uploads `plugins/<Name>/<Name>.dll` through the panel file
//! manager first; this route checks the layout and records the plugin in
//! plugins_meta.json, so it survives folder deletion as a "Missing" entry.

use vstd::prelude::*;

use crate::handlers::ctx::{lemma_route_failed, param_id, resolve_answers, resolved_at, route_failed, sanitize_plugin_name, valid_plugin_name, ServerCtx};
use crate::handlers::{audit, css_plugins_abs, host_failure, is_dir_at, is_file_at, read_manifest, stat_dir, stat_file, write_manifest};
use crate::host_api::{calls_since, grew, lemma_grew_trans, lemma_reads_only_trans, reads_only, HostApi, HostCall};
use crate::handlers::{manifest_path, manifest_read};
use crate::source2::manifest::mf_contains;
use crate::http::{host_error, json_response, ApiError, ApiResult, HttpResponse};
use crate::json::{json_text, Json};
use crate::model::{forced_request, AddPluginRequest, AddPluginResponse};
use crate::source2;
use crate::source2::paths::{join, join_spec};
use crate::text::{cat, cat3};

verus! {

/// The answer names the plugin; a replacement (200, else 201) only happens
/// when it was forced.
pub open spec fn answers_add(resp: HttpResponse, name: Seq<char>, force: bool) -> bool {
    exists|t: AddPluginResponse, j: Json| #[trigger] t.json_is(j) && resp.body@ == json_text(j) && t.name@ == name
        && (t.replaced ==> force) && resp.status == (if t.replaced { 200u16 } else { 201u16 })
}

/// What an accepted add did, between two transcripts: it read the manifest
/// (`before`), answered replaced exactly when the name was registered
/// there, and uploaded a manifest that holds the name.
pub open spec fn add_written(t0: Seq<HostCall>, t: Seq<HostCall>, name: Seq<char>, replaced: bool) -> bool {
    exists|ta: Seq<HostCall>, tb: Seq<HostCall>, node: u64, game_abs: Seq<char>, before: Seq<(String, Json)>|
        #![trigger manifest_read(ta, tb, node, game_abs, before)]
    {
        &&& grew(t0, ta) && grew(ta, tb) && grew(tb, t)
        &&& manifest_read(ta, tb, node, game_abs, before)
        &&& replaced == mf_contains(before, name)
        &&& t.len() > tb.len()
        &&& t[tb.len() as int] matches HostCall::Upload(n, p, bytes, _, a)
        &&& n == node && p == manifest_path(game_abs) && a is Ok
        &&& exists|after: Vec<(String, Json)>| #![trigger mf_contains(after@, name)] mf_contains(after@, name)
            && bytes == crate::json::json_text_pretty(Json::Object(after)).push(10u8)
    }
}

/// What adding plugin `name` did on a resolved server, from the calls after
/// `t0`: the CounterStrikeSharp probe (409 when it is not installed), the
/// probe of `plugins/<name>/<name>.dll` (422 when it is not a file), the
/// manifest read, then 409 when the name is registered and the add is not
/// forced, else the manifest upload, answered 200 for a replacement and 201
/// for a new entry; a failed call answers the host's error.
pub open spec fn add_outcome(t0: Seq<HostCall>, t: Seq<HostCall>, ctx: ServerCtx, name: Seq<char>, force: bool, r: ApiResult) -> bool {
    let b = t0.len() as int;
    let dll = join_spec(join_spec(join_spec(ctx.game_abs@, source2::CSS_PLUGINS_DIR@), name), name + ".dll"@);
    &&& grew(t0, t)
    &&& b < t.len()
    &&& t[b] matches HostCall::Stat(n, p, a)
    &&& n == ctx.node_id && p == join_spec(ctx.game_abs@, source2::CSS_DIR@)
    &&& match stat_dir(a) {
        Err(h) => r == Err::<HttpResponse, ApiError>(host_error(h)) && t.len() == b + 1,
        Ok(false) => (r matches Err(e) && e.status == 409 && e.code@ == "CSS_NOT_INSTALLED"@) && t.len() == b + 1,
        Ok(true) => {
            &&& b + 1 < t.len()
            &&& t[b + 1] matches HostCall::Stat(n1, p1, a1)
            &&& n1 == ctx.node_id && p1 == dll
            &&& match stat_file(a1) {
                Err(h) => r == Err::<HttpResponse, ApiError>(host_error(h)) && t.len() == b + 2,
                Ok(false) => (r matches Err(e) && e.status == 422 && e.code@ == "FILE_NOT_UPLOADED"@) && t.len() == b + 2,
                Ok(true) => (r matches Err(e) && host_failure(e))
                    || exists|tm: Seq<HostCall>, before: Seq<(String, Json)>|
                        #[trigger] manifest_read(t.take(b + 2), tm, ctx.node_id, ctx.game_abs@, before) && grew(tm, t)
                        && registered_answer(tm, t, name, force, mf_contains(before, name), r),
            }
        },
    }
}

/// An add's answer once the manifest was read, given whether the name is
/// registered there: 409, with nothing more called, when it is and the add
/// is not forced; else an upload follows and the answer says whether it
/// replaced an entry.
pub open spec fn registered_answer(tm: Seq<HostCall>, t: Seq<HostCall>, name: Seq<char>, force: bool, registered: bool, r: ApiResult) -> bool {
    if registered && !force {
        (r matches Err(e) && e.status == 409 && e.code@ == "ALREADY_REGISTERED"@) && t == tm
    } else {
        &&& t.len() > tm.len()
        &&& t[tm.len() as int] is Upload
        &&& (r matches Err(e) ==> host_failure(e))
        &&& (r matches Ok(resp) ==> resp.status == (if registered { 200u16 } else { 201u16 }))
    }
}

/// Registers plugin `name` on a resolved server.
#[verifier::rlimit(60)]
#[verifier::spinoff_prover]
fn add_plugin<H: HostApi>(host: &mut H, context: &ServerCtx, name: String, force: bool, actor: Option<&str>) -> (r: ApiResult)
    ensures
        add_outcome(old(host).trace(), final(host).trace(), *context, name@, force, r),
        r matches Ok(resp) ==> answers_add(resp, name@, force) && add_written(old(host).trace(), final(host).trace(), name@, resp.status == 200),
        r matches Err(e) && (e.status == 409 || e.status == 422) ==> reads_only(old(host).trace(), final(host).trace()),
{
    let ghost t0 = host.trace();
    proof {
        reveal_strlit("CSS_NOT_INSTALLED");
        reveal_strlit("FILE_NOT_UPLOADED");
        reveal_strlit("ALREADY_REGISTERED");
        reveal_strlit(".dll");
    }
    let css_abs = join(context.game_abs.as_str(), source2::CSS_DIR);
    match is_dir_at(host, context.node_id, css_abs.as_str()) {
        Ok(true) => {},
        Ok(false) => return Err(ApiError::conflict(
            "CSS_NOT_INSTALLED",
            String::from_str("CounterStrikeSharp is not installed on this server"),
        )),
        Err(h) => return Err(ApiError::from_host(h)),
    }
    let ghost t1 = host.trace();

    let folder_abs = join(css_plugins_abs(context).as_str(), name.as_str());
    let dll_abs = join(folder_abs.as_str(), cat(name.as_str(), ".dll").as_str());
    let uploaded = is_file_at(host, context.node_id, dll_abs.as_str());
    let ghost t2 = host.trace();
    proof {
        lemma_reads_only_trans(t0, t1, t2);
        assert(t2[t0.len() as int] == t1[t0.len() as int]);
    }
    match uploaded {
        Ok(true) => {},
        Ok(false) => return Err(ApiError::unprocessable(
            "FILE_NOT_UPLOADED",
            cat3(cat3("", name.as_str(), "/").as_str(), name.as_str(), ".dll was not found; upload the plugin first"),
        )),
        Err(h) => return Err(ApiError::from_host(h)),
    }

    let read = read_manifest(host, context);
    let ghost tb = host.trace();
    proof {
        lemma_reads_only_trans(t0, t2, tb);
        assert(tb[t0.len() as int] == t2[t0.len() as int]);
        assert(tb[t0.len() as int + 1] == t2[t0.len() as int + 1]);
        assert(tb.take(t0.len() as int + 2) =~= t2);
    }
    let mut manifest = match read {
        Ok(m) => m,
        Err(e) => return Err(e),
    };
    let ghost before = manifest.root@;
    let replaced = manifest.contains(name.as_str());
    if replaced && !force {
        let e = ApiError::conflict("ALREADY_REGISTERED", cat(name.as_str(), " is already registered"));
        assert(manifest_read(tb.take(t0.len() as int + 2), tb, context.node_id, context.game_abs@, before));
        assert(registered_answer(tb, tb, name@, force, mf_contains(before, name@), Err(e)));
        return Err(e);
    }
    manifest.ensure(name.as_str());
    let written = write_manifest(host, context, &manifest);
    let ghost tc = host.trace();
    proof {
        lemma_grew_trans(t0, tb, tc);
        assert(tc[t0.len() as int] == t2[t0.len() as int]);
        assert(tc[t0.len() as int + 1] == t2[t0.len() as int + 1]);
        assert(tc.take(t0.len() as int + 2) =~= t2);
        assert(manifest_read(tc.take(t0.len() as int + 2), tb, context.node_id, context.game_abs@, before));
    }
    match written {
        Ok(()) => {},
        Err(e) => return Err(e),
    }

    audit::record(host, context.server_id, actor, if replaced { "plugin-update" } else { "plugin-install" }, name.as_str());

    let response = AddPluginResponse { name, replaced };
    let j = response.to_json();
    let resp = json_response(if replaced { 200 } else { 201 }, &j);
    assert(response.json_is(j) && resp.body@ == json_text(j));
    proof {
        let t = host.trace();
        lemma_grew_trans(t0, tc, t);
        lemma_grew_trans(tb, tc, t);
        assert(t[tb.len() as int] == tc[tb.len() as int]);
        assert(t[t0.len() as int] == t2[t0.len() as int]);
        assert(t[t0.len() as int + 1] == t2[t0.len() as int + 1]);
        assert(t.take(t0.len() as int + 2) =~= t2);
        assert(manifest_read(t.take(t0.len() as int + 2), tb, context.node_id, context.game_abs@, before));
        assert(mf_contains(manifest.root@, response.name@));
        assert(registered_answer(tb, t, response.name@, force, mf_contains(before, response.name@), Ok(resp)));
        assert(add_written(t0, t, response.name@, resp.status == 200));
    }
    Ok(resp)
}

/// The add route on server `id` for plugin `name`: the server resolved,
/// then [`add_outcome`] on it.
pub open spec fn add_handled(t0: Seq<HostCall>, t: Seq<HostCall>, id: u64, name: Seq<char>, force: bool, r: ApiResult) -> bool {
    exists|tm: Seq<HostCall>, c: ServerCtx| #[trigger] resolved_at(t0, tm, id, c) && add_outcome(tm, t, c, name, force, r)
}

pub fn handle<H: HostApi>(host: &mut H, params: &Vec<(String, String)>, body: &[u8], actor: Option<&str>) -> (r: ApiResult)
    ensures
        param_id(params@) is None ==> (r matches Err(e) && e.status == 400),
        r is Ok ==> forced_request(body@, "name"@) is Some && valid_plugin_name(forced_request(body@, "name"@).unwrap().0),
        r matches Ok(resp) ==> resp.status == 200 || resp.status == 201,
        r matches Ok(resp) ==> forced_request(body@, "name"@) matches Some((n, f)) && answers_add(resp, n, f),
        r matches Ok(resp) ==> forced_request(body@, "name"@) matches Some((n, _))
            && add_written(old(host).trace(), final(host).trace(), n, resp.status == 200),
        r matches Err(e) && (e.status == 409 || e.status == 422) ==> reads_only(old(host).trace(), final(host).trace()),
        r matches Err(e) ==> route_failed(old(host).trace(), final(host).trace(), params@, e,
            |x: ApiError| (x.status == 400 && !(forced_request(body@, "name"@) matches Some((n, _)) && valid_plugin_name(n)))
                || x.status == 409 || x.status == 422 || host_failure(x)),
        param_id(params@) matches Some(id) ==> (forced_request(body@, "name"@) matches Some((n, f)) ==> (valid_plugin_name(n)
            ==> (r matches Err(e) && resolve_answers(calls_since(old(host).trace(), final(host).trace()), id, Err(e)))
                || add_handled(old(host).trace(), final(host).trace(), id, n, f, r))),
{
    let ghost t0 = host.trace();
    let context = ServerCtx::resolve(host, params)?;
    let ghost tm = host.trace();
    assert(resolved_at(t0, tm, context.server_id, context));
    let ghost allowed: spec_fn(ApiError) -> bool = |x: ApiError| (x.status == 400 && !(forced_request(body@, "name"@) matches Some((n, _)) && valid_plugin_name(n)))
        || x.status == 409 || x.status == 422 || host_failure(x);
    let request = match AddPluginRequest::parse(body) {
        Ok(q) => q,
        Err(e) => {
            proof {
                lemma_route_failed(t0, tm, host.trace(), params@, context, e, allowed);
            }
            return Err(e);
        },
    };
    let name = request.name;
    let force = request.force;
    match sanitize_plugin_name(name.as_str()) {
        Ok(()) => {},
        Err(e) => {
            proof {
                lemma_route_failed(t0, tm, host.trace(), params@, context, e, allowed);
            }
            return Err(e);
        },
    }
    let ghost n = name@;
    let r = add_plugin(host, &context, name, force, actor);
    proof {
        let t = host.trace();
        assert(forced_request(body@, "name"@) == Some((n, force)));
        if r is Err && (r->Err_0.status == 409 || r->Err_0.status == 422) {
            lemma_reads_only_trans(t0, tm, t);
        }
        if r is Err {
            lemma_route_failed(t0, tm, t, params@, context, r->Err_0, allowed);
        } else {
            lemma_add_written_earlier(t0, tm, t, n, r->Ok_0.status == 200);
        }
        assert(add_handled(t0, t, context.server_id, n, force, r));
    }
    r
}

/// An add seen from an earlier transcript is still the same add.
proof fn lemma_add_written_earlier(t0: Seq<HostCall>, tm: Seq<HostCall>, t: Seq<HostCall>, name: Seq<char>, replaced: bool)
    requires
        grew(t0, tm),
        add_written(tm, t, name, replaced),
    ensures
        add_written(t0, t, name, replaced),
{
    let (ta, tb, node, game_abs, before) = choose|ta: Seq<HostCall>, tb: Seq<HostCall>, node: u64, game_abs: Seq<char>, before: Seq<(String, Json)>|
        #![trigger manifest_read(ta, tb, node, game_abs, before)] {
        &&& grew(tm, ta) && grew(ta, tb) && grew(tb, t)
        &&& manifest_read(ta, tb, node, game_abs, before)
        &&& replaced == mf_contains(before, name)
        &&& t.len() > tb.len()
        &&& t[tb.len() as int] matches HostCall::Upload(n, p, bytes, _, a)
        &&& n == node && p == manifest_path(game_abs) && a is Ok
        &&& exists|after: Vec<(String, Json)>| #![trigger mf_contains(after@, name)] mf_contains(after@, name)
            && bytes == crate::json::json_text_pretty(Json::Object(after)).push(10u8)
    };
    lemma_grew_trans(t0, tm, ta);
}

} // verus!
