//! DELETE /servers/{id}/plugins: drop the plugin folder and its manifest
//! entry. Configs (configs/plugins/<name>) are kept.

use vstd::prelude::*;

use crate::handlers::updates::host_error_text;

use crate::handlers::ctx::{lemma_route_failed, param_id, resolved_at, route_failed, sanitize_plugin_name, valid_plugin_name, ServerCtx};
use crate::handlers::{audit, find_plugin_folder, host_failure, read_manifest, require_css_installed, write_manifest};
use crate::host_api::{grew, lemma_grew_trans, HostApi, HostCall};
use crate::handlers::manifest_path;
use crate::source2;
use crate::source2::paths::join_spec;
use crate::http::{json_response, ApiError, ApiResult};
use crate::json::{json_text, Json};
use crate::model::{name_request, RemovePluginRequest, RemovePluginResponse};
use crate::text::{cat, cat3, str_eq};

verus! {

/// The first value of the first query parameter named `key`.
pub open spec fn query_spec(query: Seq<(String, Vec<String>)>, key: Seq<char>) -> Option<Seq<char>>
    decreases query.len(),
{
    if query.len() == 0 {
        None
    } else if query[0].0@ == key {
        if query[0].1@.len() > 0 {
            Some(query[0].1@[0]@)
        } else {
            None
        }
    } else {
        query_spec(query.drop_first(), key)
    }
}

/// The first value of query parameter `key`.
pub fn query_value(query: &Vec<(String, Vec<String>)>, key: &str) -> (r: Option<String>)
    ensures
        match query_spec(query@, key@) {
            Some(v) => r matches Some(s) && s@ == v,
            None => r is None,
        },
{
    let mut i: usize = 0;
    assert(query@.skip(0) =~= query@);
    while i < query.len()
        invariant
            i <= query@.len(),
            query_spec(query@, key@) == query_spec(query@.skip(i as int), key@),
        decreases query@.len() - i,
    {
        assert(query@.skip(i as int).drop_first() =~= query@.skip(i + 1));
        if str_eq(query[i].0.as_str(), key) {
            if query[i].1.len() > 0 {
                return Some(query[i].1[0].clone());
            }
            return None;
        }
        i = i + 1;
    }
    None
}

/// The plugin a removal names: the body's `name`, or `?name=` when the body
/// is empty.
pub open spec fn removal_name(body: Seq<u8>, query: Seq<(String, Vec<String>)>) -> Option<Seq<char>> {
    if body.len() == 0 {
        query_spec(query, "name"@)
    } else {
        name_request(body, "name"@)
    }
}

/// The answer names the removed plugin.
pub open spec fn answers_remove(body: Seq<u8>, name: Seq<char>) -> bool {
    exists|t: RemovePluginResponse, j: Json| #[trigger] t.json_is(j) && body == json_text(j) && t.name@ == name
}

/// What removing a plugin did, between two transcripts, as its answer
/// reports it: `folder_deleted` exactly when a recursive removal of the
/// plugin's folder (in plugins/ or plugins/disabled/ of some game dir)
/// succeeded, and `entry_removed` only with an upload of plugins_meta.json.
pub open spec fn remove_handled(body: Seq<u8>, t0: Seq<HostCall>, t: Seq<HostCall>, name: Seq<char>) -> bool {
    exists|resp: RemovePluginResponse, j: Json| #![trigger resp.json_is(j)] {
        &&& resp.json_is(j) && body == json_text(j) && resp.name@ == name
        &&& resp.folder_deleted ==> exists|k: int, base: Seq<char>| #![trigger t[k], join_spec(base, source2::CSS_PLUGINS_DIR@)]
            t0.len() <= k < t.len() && (t[k] matches HostCall::Remove(_, p, rec, a) && rec && a is Ok
                && (p == join_spec(join_spec(base, source2::CSS_PLUGINS_DIR@), name)
                    || p == join_spec(join_spec(join_spec(base, source2::CSS_PLUGINS_DIR@), source2::DISABLED_DIR_NAME@), name)))
        &&& resp.entry_removed ==> exists|k: int, base: Seq<char>| #![trigger t[k], manifest_path(base)]
            t0.len() <= k < t.len() && (t[k] matches HostCall::Upload(_, p, _, _, a) && p == manifest_path(base) && a is Ok)
    }
}

pub fn handle<H: HostApi>(
    host: &mut H,
    params: &Vec<(String, String)>,
    body: &[u8],
    query: &Vec<(String, Vec<String>)>,
    actor: Option<&str>,
) -> (r: ApiResult)
    ensures
        param_id(params@) is None ==> (r matches Err(e) && e.status == 400),
        r matches Ok(resp) ==> resp.status == 200,
        r matches Ok(resp) ==> removal_name(body@, query@) matches Some(n) && valid_plugin_name(n) && answers_remove(resp.body@, n),
        r matches Ok(resp) ==> removal_name(body@, query@) matches Some(n)
            && remove_handled(resp.body@, old(host).trace(), final(host).trace(), n),
        r matches Err(e) ==> route_failed(old(host).trace(), final(host).trace(), params@, e,
            |x: ApiError| (x.status == 400 && !(removal_name(body@, query@) matches Some(n) && valid_plugin_name(n)))
                || x.status == 404 || x.status == 409 || host_failure(x)),
{
    let ghost t0 = host.trace();
    let context = ServerCtx::resolve(host, params)?;
    let ghost tm = host.trace();
    assert(resolved_at(t0, tm, context.server_id, context));
    let ghost allowed: spec_fn(ApiError) -> bool = |x: ApiError| (x.status == 400 && !(removal_name(body@, query@) matches Some(n) && valid_plugin_name(n)))
        || x.status == 404 || x.status == 409 || host_failure(x);

    // DELETE bodies are dropped by some proxies: accept ?name= as a fallback.
    let name = if body.len() == 0 {
        match query_value(query, "name") {
            Some(n) => n,
            None => {
                let e = ApiError::bad_request(String::from_str("name is required (body or ?name=)"));
                proof { lemma_route_failed(t0, tm, host.trace(), params@, context, e, allowed); }
                return Err(e);
            },
        }
    } else {
        match RemovePluginRequest::parse(body) {
            Ok(q) => q.name,
            Err(e) => {
                proof { lemma_route_failed(t0, tm, host.trace(), params@, context, e, allowed); }
                return Err(e);
            },
        }
    };
    match sanitize_plugin_name(name.as_str()) {
        Ok(()) => {},
        Err(e) => {
            proof { lemma_route_failed(t0, tm, host.trace(), params@, context, e, allowed); }
            return Err(e);
        },
    }
    match require_css_installed(host, &context) {
        Ok(()) => {},
        Err(e) => {
            proof { lemma_route_failed(t0, tm, host.trace(), params@, context, e, allowed); }
            return Err(e);
        },
    }
    let ghost ta = host.trace();

    let lookup = find_plugin_folder(host, &context, name.as_str());
    proof { lemma_grew_trans(tm, ta, host.trace()); }
    let folder = match lookup {
        Ok(f) => f,
        Err(h) => {
            let e = ApiError::from_host(h);
            proof { lemma_route_failed(t0, tm, host.trace(), params@, context, e, allowed); }
            return Err(e);
        },
    };
    let ghost tb = host.trace();
    let read = read_manifest(host, &context);
    proof { lemma_grew_trans(tm, tb, host.trace()); }
    let mut manifest = match read {
        Ok(m) => m,
        Err(e) => {
            proof { lemma_route_failed(t0, tm, host.trace(), params@, context, e, allowed); }
            return Err(e);
        },
    };
    if folder.is_none() && !manifest.contains(name.as_str()) {
        let e = ApiError::not_found("PLUGIN_NOT_FOUND", cat3("no plugin named ", name.as_str(), " on the server"));
        proof { lemma_route_failed(t0, tm, host.trace(), params@, context, e, allowed); }
        return Err(e);
    }

    // A failed folder delete degrades to folder_deleted=false rather than
    // blocking the manifest cleanup.
    let ghost t1 = host.trace();
    let folder_deleted = match &folder {
        Some((folder_abs, _)) => match host.remove(context.node_id, folder_abs.as_str(), true) {
            Ok(()) => {
                assert(host.trace().last() matches HostCall::Remove(_, p, rec, a) && rec && a is Ok && p == folder_abs@);
                true
            },
            Err(err) => {
                let detail = cat3(folder_abs.as_str(), ": ", host_error_text(&err).as_str());
                host.log_error(cat("cs2-addons: failed to delete ", detail.as_str()).as_str());
                false
            },
        },
        None => false,
    };

    let ghost t2 = host.trace();
    let ghost kd = t2.len() - 1;
    let entry_removed = manifest.remove(name.as_str());
    proof { lemma_grew_trans(tm, t1, t2); }
    if entry_removed {
        match write_manifest(host, &context, &manifest) {
            Ok(()) => {},
            Err(e) => {
                proof {
                    lemma_grew_trans(tm, t2, host.trace());
                    lemma_route_failed(t0, tm, host.trace(), params@, context, e, allowed);
                }
                return Err(e);
            },
        }
    }
    let ghost t3 = host.trace();
    let ghost km = t3.len() - 1;

    audit::record(host, context.server_id, actor, "plugin-delete", name.as_str());

    let response = RemovePluginResponse { name, folder_deleted, entry_removed };
    let j = response.to_json();
    let resp = json_response(200, &j);
    assert(response.json_is(j) && resp.body@ == json_text(j));
    proof {
        let t = host.trace();
        assert(t[kd] == t2[kd]);
        assert(t[km] == t3[km]);
        assert(remove_handled(resp.body@, t0, t, name@));
    }
    Ok(resp)
}

} // verus!
