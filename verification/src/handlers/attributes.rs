//! POST /servers/{id}/plugins/attributes: set a plugin's comment and group
//! in plugins_meta.json (the shared AddonsManager manifest).

use vstd::prelude::*;

use crate::handlers::ctx::{lemma_route_failed, param_id, resolved_at, route_failed, sanitize_plugin_name, valid_plugin_name, ServerCtx};
use crate::handlers::{find_plugin_folder, host_failure, read_manifest, require_css_installed, write_manifest};
use crate::host_api::{grew, lemma_grew_trans, lemma_reads_only_trans, reads_only, HostApi, HostCall};
use crate::handlers::{manifest_path, manifest_read};
use crate::source2::manifest::{comment_key, field_of, group_key, mf_contains};
use crate::http::{json_response, ApiError, ApiResult};
use crate::json::{json_text, Json};
use crate::model::{attributes_request, SetAttributesRequest, SetAttributesResponse};
use crate::text::{cat, cat3, chars_of, is_control, is_ctrl, string_of, trim, trim_vec};

verus! {

pub const MAX_COMMENT_LEN: usize = 200;
pub const MAX_GROUP_LEN: usize = 64;

/// Free text as stored: rejected when it holds a control character or its
/// trimmed form is longer than `max_len` characters; empty becomes `None`.
pub open spec fn has_ctrl(s: Seq<char>) -> bool {
    exists|i: int| 0 <= i < s.len() && is_ctrl(#[trigger] s[i])
}

pub open spec fn normalized_raw(raw: Seq<char>, max_len: nat) -> Option<Option<Seq<char>>> {
    if has_ctrl(raw) {
        None
    } else if trim(raw).len() > max_len {
        None
    } else if trim(raw).len() == 0 {
        Some(None)
    } else {
        Some(Some(trim(raw)))
    }
}

pub open spec fn normalized_text(value: Option<Seq<char>>, max_len: nat) -> Option<Option<Seq<char>>> {
    match value {
        None => Some(None),
        Some(raw) => normalized_raw(raw, max_len),
    }
}

/// Validates and normalizes incoming free text; 400 when it is refused.
pub fn normalize_text(value: Option<String>, max_len: usize, what: &str) -> (r: Result<Option<String>, ApiError>)
    ensures
        normalized_text(crate::model::opt_view(value), max_len as nat) is None ==> (r matches Err(e) && e.status == 400),
        normalized_text(crate::model::opt_view(value), max_len as nat) is Some ==> (r matches Ok(v)
            && crate::model::opt_view(v) == normalized_text(crate::model::opt_view(value), max_len as nat).unwrap()),
{
    let raw = match value {
        Some(v) => v,
        None => return Ok(None),
    };
    let chars = chars_of(raw.as_str());
    let mut i: usize = 0;
    while i < chars.len()
        invariant
            i <= chars@.len(),
            chars@ == raw@,
            crate::model::opt_view(value) == Some(raw@),
            forall|j: int| 0 <= j < i ==> !is_ctrl(#[trigger] chars@[j]),
        decreases chars@.len() - i,
    {
        if is_control(chars[i]) {
            assert(is_ctrl(raw@[i as int]));
            assert(has_ctrl(raw@));
            return Err(ApiError::bad_request(cat(what, " must not contain control characters")));
        }
        i = i + 1;
    }
    let text = trim_vec(chars.as_slice());
    if text.len() > max_len {
        return Err(ApiError::bad_request(cat(what, " is too long")));
    }
    if text.len() == 0 {
        return Ok(None);
    }
    Ok(Some(string_of(text.as_slice())))
}

fn same_text(a: &Option<String>, b: &Option<String>) -> (r: bool)
    ensures
        r == (crate::model::opt_view(*a) == crate::model::opt_view(*b)),
{
    match (a, b) {
        (Some(x), Some(y)) => crate::text::str_eq(x.as_str(), y.as_str()),
        (None, None) => true,
        _ => false,
    }
}

fn as_opt_str(v: &Option<String>) -> (r: Option<&str>)
    ensures
        match v {
            Some(s) => r matches Some(t) && t@ == s@,
            None => r is None,
        },
{
    match v {
        Some(s) => Some(s.as_str()),
        None => None,
    }
}

/// The answer names the plugin with its comment and group as stored, and
/// whether they changed.
pub open spec fn answers_attributes(body: Seq<u8>, name: Seq<char>, comment: Option<Seq<char>>, group: Option<Seq<char>>, changed: bool) -> bool {
    exists|t: SetAttributesResponse, j: Json| #[trigger] t.json_is(j) && body == json_text(j) && t.name@ == name
        && crate::model::opt_view(t.comment) == comment && crate::model::opt_view(t.group) == group && t.changed == changed
}

/// The attributes a request sets, when it is one the route accepts: a valid
/// name and comment and group that normalize.
pub open spec fn accepted_attributes(body: Seq<u8>) -> bool {
    attributes_request(body) matches Some((n, c, g)) && valid_plugin_name(n)
        && normalized_text(c, MAX_COMMENT_LEN as nat) is Some && normalized_text(g, MAX_GROUP_LEN as nat) is Some
}

/// A stored text as the manifest shows it back.
pub open spec fn shown_opt(v: Option<Seq<char>>) -> Option<Seq<char>> {
    match v {
        Some(t) => crate::source2::manifest::shown_text(t),
        None => None,
    }
}

/// What setting attributes did, between two transcripts: it read the
/// manifest (`before`); `changed` exactly when the stored comment or group
/// differs from the new one; then it uploaded plugins_meta.json holding the
/// new values when changed, and wrote nothing at all otherwise.
pub open spec fn attributes_applied(t0: Seq<HostCall>, t: Seq<HostCall>, name: Seq<char>,
    comment: Option<Seq<char>>, group: Option<Seq<char>>, changed: bool) -> bool
{
    exists|ta: Seq<HostCall>, tb: Seq<HostCall>, node: u64, game_abs: Seq<char>, before: Seq<(String, Json)>|
        #![trigger manifest_read(ta, tb, node, game_abs, before)]
    {
        &&& grew(t0, ta) && grew(ta, tb) && grew(tb, t)
        &&& manifest_read(ta, tb, node, game_abs, before)
        &&& changed == (field_of(before, name, comment_key()) != comment || field_of(before, name, group_key()) != group)
        &&& if changed {
            &&& t.len() > tb.len()
            &&& reads_only(t0, t.drop_last())
            &&& t.last() matches HostCall::Upload(n, p, bytes, _, a)
            &&& n == node && p == manifest_path(game_abs) && a is Ok
            &&& exists|after: Vec<(String, Json)>| #![trigger mf_contains(after@, name)] mf_contains(after@, name)
                && field_of(after@, name, comment_key()) == shown_opt(comment)
                && field_of(after@, name, group_key()) == shown_opt(group)
                && bytes == crate::json::json_text_pretty(Json::Object(after)).push(10u8)
        } else {
            reads_only(t0, t)
        }
    }
}

pub fn handle<H: HostApi>(host: &mut H, params: &Vec<(String, String)>, body: &[u8]) -> (r: ApiResult)
    ensures
        param_id(params@) is None ==> (r matches Err(e) && e.status == 400),
        r is Ok ==> attributes_request(body@) is Some && valid_plugin_name(attributes_request(body@).unwrap().0),
        r matches Ok(resp) ==> resp.status == 200,
        r matches Ok(resp) ==> attributes_request(body@) matches Some((n, c, g))
            && normalized_text(c, MAX_COMMENT_LEN as nat) matches Some(nc)
            && normalized_text(g, MAX_GROUP_LEN as nat) matches Some(ng)
            && ((answers_attributes(resp.body@, n, nc, ng, true) && attributes_applied(old(host).trace(), final(host).trace(), n, nc, ng, true))
                || (answers_attributes(resp.body@, n, nc, ng, false) && attributes_applied(old(host).trace(), final(host).trace(), n, nc, ng, false))),
        r matches Err(e) ==> route_failed(old(host).trace(), final(host).trace(), params@, e,
            |x: ApiError| (x.status == 400 && !accepted_attributes(body@)) || x.status == 404 || x.status == 409 || host_failure(x)),
{
    let ghost t0 = host.trace();
    let context = ServerCtx::resolve(host, params)?;
    let ghost tm = host.trace();
    assert(resolved_at(t0, tm, context.server_id, context));
    let ghost allowed: spec_fn(ApiError) -> bool = |x: ApiError| (x.status == 400 && !accepted_attributes(body@)) || x.status == 404
        || x.status == 409 || host_failure(x);
    let request = match SetAttributesRequest::parse(body) {
        Ok(q) => q,
        Err(e) => {
            proof { lemma_route_failed(t0, tm, host.trace(), params@, context, e, allowed); }
            return Err(e);
        },
    };
    match sanitize_plugin_name(request.name.as_str()) {
        Ok(()) => {},
        Err(e) => {
            proof { lemma_route_failed(t0, tm, host.trace(), params@, context, e, allowed); }
            return Err(e);
        },
    }
    let ghost t1 = host.trace();
    match require_css_installed(host, &context) {
        Ok(()) => {},
        Err(e) => {
            proof { lemma_route_failed(t0, tm, host.trace(), params@, context, e, allowed); }
            return Err(e);
        },
    }
    proof { lemma_reads_only_trans(t0, t1, host.trace()); lemma_reads_only_trans(tm, t1, host.trace()); }
    let ghost t1b = host.trace();

    let comment = match normalize_text(request.comment, MAX_COMMENT_LEN, "comment") {
        Ok(v) => v,
        Err(e) => {
            proof { lemma_route_failed(t0, tm, host.trace(), params@, context, e, allowed); }
            return Err(e);
        },
    };
    let group = match normalize_text(request.group, MAX_GROUP_LEN, "group") {
        Ok(v) => v,
        Err(e) => {
            proof { lemma_route_failed(t0, tm, host.trace(), params@, context, e, allowed); }
            return Err(e);
        },
    };

    // The plugin must exist somewhere the panel knows about: as a folder
    // (enabled or disabled) or as an existing manifest entry.
    let ghost ta = host.trace();
    let read = read_manifest(host, &context);
    proof { lemma_reads_only_trans(t0, ta, host.trace()); lemma_reads_only_trans(tm, ta, host.trace()); }
    let mut manifest = match read {
        Ok(m) => m,
        Err(e) => {
            proof { lemma_route_failed(t0, tm, host.trace(), params@, context, e, allowed); }
            return Err(e);
        },
    };
    let ghost tb = host.trace();
    let ghost before = manifest.root@;
    let known = if manifest.contains(request.name.as_str()) {
        true
    } else {
        let lookup = find_plugin_folder(host, &context, request.name.as_str());
        proof { lemma_reads_only_trans(tm, tb, host.trace()); }
        match lookup {
            Ok(f) => f.is_some(),
            Err(h) => {
                let e = ApiError::from_host(h);
                proof { lemma_route_failed(t0, tm, host.trace(), params@, context, e, allowed); }
                return Err(e);
            },
        }
    };
    let ghost tc = host.trace();
    proof { lemma_reads_only_trans(t0, tb, tc); lemma_reads_only_trans(tm, tb, tc); }
    if !known {
        let e = ApiError::not_found("PLUGIN_NOT_FOUND", cat3("no plugin named ", request.name.as_str(), " on the server"));
        proof { lemma_route_failed(t0, tm, host.trace(), params@, context, e, allowed); }
        return Err(e);
    }

    let changed = !same_text(&manifest.comment(request.name.as_str()), &comment)
        || !same_text(&manifest.group(request.name.as_str()), &group);
    if changed {
        manifest.set_comment(request.name.as_str(), as_opt_str(&comment));
        manifest.set_group(request.name.as_str(), as_opt_str(&group));
        match write_manifest(host, &context, &manifest) {
            Ok(()) => {},
            Err(e) => {
                proof {
                    lemma_grew_trans(tm, tc, host.trace());
                    lemma_route_failed(t0, tm, host.trace(), params@, context, e, allowed);
                }
                return Err(e);
            },
        }
    }
    proof {
        let t = host.trace();
        let n = request.name@;
        assert(attributes_request(body@) matches Some((n2, c, g)) && n2 == n);
        assert(changed == (field_of(before, n, comment_key()) != crate::model::opt_view(comment)
            || field_of(before, n, group_key()) != crate::model::opt_view(group)));
        if changed {
            assert(t.drop_last() =~= tc);
            assert(attributes_applied(t0, t, n, crate::model::opt_view(comment), crate::model::opt_view(group), true));
        } else {
            assert(attributes_applied(t0, t, n, crate::model::opt_view(comment), crate::model::opt_view(group), false));
        }
    }

    let response = SetAttributesResponse { name: request.name, comment, group, changed };
    let j = response.to_json();
    let resp = json_response(200, &j);
    assert(response.json_is(j) && resp.body@ == json_text(j));
    Ok(resp)
}

} // verus!
