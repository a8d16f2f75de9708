//! Route table and dispatch. The matcher mirrors the panel's path matching
//! (segment-wise comparison, `{name}` captures, first match wins), so the
//! declared table stays the single source of truth.

use vstd::prelude::*;

use crate::handlers;
use crate::handlers::ctx::{failed_for, param_id, param_spec, valid_plugin_name};
use crate::handlers::host_failure;
use crate::model::{forced_request, metamod_request, name_request, toggle_request};
use crate::host_api::{HostApi, HostCall};
use crate::http::{ApiError, ApiResult, HttpResponse};
use crate::json::{json_text, Json};
use crate::source2::paths::{strip_leading, strip_leading_vec, strip_trailing, strip_trailing_vec};
use crate::text::{chars_of, eq_ic, eq_ignore_case, lemma_split_nonempty, parse_u64_spec, seq_eq, split_on, split_vec, string_of, sub_chars, trim, trim_vec};

verus! {

#[derive(Clone, Copy, PartialEq, Eq, Debug)]
pub enum RouteId {
    State,
    TogglePlugin,
    SetAttributes,
    AddPlugin,
    RemovePlugin,
    RepairGameinfo,
    MetamodToggle,
    Logs,
    Restart,
    Updates,
    CatalogList,
    CatalogInstall,
    PlatformInstall,
    SnapshotCreate,
    SnapshotList,
    SnapshotRestore,
    SnapshotDelete,
    Audit,
    InstallArchive,
    Doctor,
}

pub struct RouteDef {
    pub id: RouteId,
    pub method: &'static str,
    pub pattern: &'static str,
    pub description: &'static str,
}

fn def(id: RouteId, method: &'static str, pattern: &'static str, description: &'static str) -> (d: RouteDef)
    ensures
        d.id == id,
        d.method == method,
        d.pattern == pattern,
        d.method@ == method@,
        d.pattern@ == pattern@,
{
    RouteDef { id, method, pattern, description }
}

/// The route table as (route, method, pattern) triples, in match order.
pub open spec fn route_table() -> Seq<(RouteId, Seq<char>, Seq<char>)> {
    seq![
        (RouteId::State, "GET"@, "/servers/{id}/state"@),
        (RouteId::TogglePlugin, "POST"@, "/servers/{id}/plugins/toggle"@),
        (RouteId::SetAttributes, "POST"@, "/servers/{id}/plugins/attributes"@),
        (RouteId::AddPlugin, "POST"@, "/servers/{id}/plugins"@),
        (RouteId::RemovePlugin, "DELETE"@, "/servers/{id}/plugins"@),
        (RouteId::RepairGameinfo, "POST"@, "/servers/{id}/gameinfo/repair"@),
        (RouteId::MetamodToggle, "POST"@, "/servers/{id}/metamod/toggle"@),
        (RouteId::Logs, "GET"@, "/servers/{id}/logs"@),
        (RouteId::Restart, "POST"@, "/servers/{id}/restart"@),
        (RouteId::Updates, "GET"@, "/servers/{id}/updates"@),
        (RouteId::CatalogList, "GET"@, "/servers/{id}/catalog"@),
        (RouteId::CatalogInstall, "POST"@, "/servers/{id}/catalog/install"@),
        (RouteId::PlatformInstall, "POST"@, "/servers/{id}/platform/install"@),
        (RouteId::SnapshotCreate, "POST"@, "/servers/{id}/snapshots"@),
        (RouteId::SnapshotList, "GET"@, "/servers/{id}/snapshots"@),
        (RouteId::SnapshotRestore, "POST"@, "/servers/{id}/snapshots/restore"@),
        (RouteId::SnapshotDelete, "DELETE"@, "/servers/{id}/snapshots"@),
        (RouteId::Audit, "GET"@, "/servers/{id}/audit"@),
        (RouteId::InstallArchive, "POST"@, "/servers/{id}/plugins/install-archive"@),
        (RouteId::Doctor, "GET"@, "/servers/{id}/doctor"@),
    ]
}

/// The route table, in match order.
pub fn routes() -> (v: Vec<RouteDef>)
    ensures
        v@.len() == route_table().len(),
        forall|k: int| 0 <= k < v@.len() ==> (#[trigger] v@[k].id, v@[k].method@, v@[k].pattern@) == route_table()[k],
{
    let mut v: Vec<RouteDef> = Vec::new();
    v.push(def(RouteId::State, "GET", "/servers/{id}/state", "Metamod:Source/CounterStrikeSharp state of a CS2 server"));
    v.push(def(RouteId::TogglePlugin, "POST", "/servers/{id}/plugins/toggle", "Enable or disable a plugin by moving its folder in/out of plugins/disabled"));
    v.push(def(RouteId::SetAttributes, "POST", "/servers/{id}/plugins/attributes", "Set a plugin's comment and group in plugins_meta.json"));
    v.push(def(RouteId::AddPlugin, "POST", "/servers/{id}/plugins", "Register an uploaded plugin folder in plugins_meta.json"));
    v.push(def(RouteId::RemovePlugin, "DELETE", "/servers/{id}/plugins", "Delete a plugin folder and its plugins_meta.json entry"));
    v.push(def(RouteId::RepairGameinfo, "POST", "/servers/{id}/gameinfo/repair", "Re-add the Metamod search path to gameinfo.gi"));
    v.push(def(RouteId::MetamodToggle, "POST", "/servers/{id}/metamod/toggle", "Enable or disable a Metamod plugin by renaming its .vdf"));
    v.push(def(RouteId::Logs, "GET", "/servers/{id}/logs", "Tail of the newest CounterStrikeSharp log file"));
    v.push(def(RouteId::Restart, "POST", "/servers/{id}/restart", "Restart the game server to apply pending plugin changes"));
    v.push(def(RouteId::Updates, "GET", "/servers/{id}/updates", "Latest upstream versions of the platforms and catalog plugins"));
    v.push(def(RouteId::CatalogList, "GET", "/servers/{id}/catalog", "Curated catalog of installable CounterStrikeSharp plugins"));
    v.push(def(RouteId::CatalogInstall, "POST", "/servers/{id}/catalog/install", "Install a catalog plugin from its latest GitHub release"));
    v.push(def(RouteId::PlatformInstall, "POST", "/servers/{id}/platform/install", "Install or update Metamod:Source / CounterStrikeSharp"));
    v.push(def(RouteId::SnapshotCreate, "POST", "/servers/{id}/snapshots", "Snapshot plugins/ and configs/plugins/ into a tarball"));
    v.push(def(RouteId::SnapshotList, "GET", "/servers/{id}/snapshots", "List plugin setup snapshots"));
    v.push(def(RouteId::SnapshotRestore, "POST", "/servers/{id}/snapshots/restore", "Restore a plugin setup snapshot"));
    v.push(def(RouteId::SnapshotDelete, "DELETE", "/servers/{id}/snapshots", "Delete a plugin setup snapshot"));
    v.push(def(RouteId::Audit, "GET", "/servers/{id}/audit", "Recent plugin-management actions on this server"));
    v.push(def(RouteId::InstallArchive, "POST", "/servers/{id}/plugins/install-archive", "Install a plugin from a zip uploaded via the file manager"));
    v.push(def(RouteId::Doctor, "GET", "/servers/{id}/doctor", "Server-side health checks for the addon setup"));
    proof {
        assert forall|k: int| 0 <= k < v@.len() implies (#[trigger] v@[k].id, v@[k].method@, v@[k].pattern@) == route_table()[k] by {}
    }
    v
}

/// `str::trim_matches('/')`.
pub open spec fn trim_slashes(s: Seq<char>) -> Seq<char> {
    strip_trailing(strip_leading(s, '/'), '/')
}

pub open spec fn segments(s: Seq<char>) -> Seq<Seq<char>> {
    split_on(trim_slashes(s), '/')
}

/// A `{name}` segment.
pub open spec fn is_capture(seg: Seq<char>) -> bool {
    seg.len() >= 2 && seg[0] == '{' && seg.last() == '}'
}

/// Matching pattern segments against path segments from index `i` on: the
/// captured (name, value) pairs, or `None` on a mismatch.
pub open spec fn match_from(ps: Seq<Seq<char>>, xs: Seq<Seq<char>>, i: int) -> Option<Seq<(Seq<char>, Seq<char>)>>
    decreases ps.len() - i,
{
    if i >= ps.len() {
        Some(Seq::empty())
    } else if is_capture(ps[i]) {
        match match_from(ps, xs, i + 1) {
            Some(rest) => Some(seq![(ps[i].subrange(1, ps[i].len() - 1), xs[i])] + rest),
            None => None,
        }
    } else if ps[i] == xs[i] {
        match_from(ps, xs, i + 1)
    } else {
        None
    }
}

/// The captures of a path matched against a pattern.
pub open spec fn pattern_match(pattern: Seq<char>, path: Seq<char>) -> Option<Seq<(Seq<char>, Seq<char>)>> {
    let ps = segments(pattern);
    let xs = segments(path);
    if ps.len() != xs.len() {
        None
    } else {
        match_from(ps, xs, 0)
    }
}

fn trim_slashes_vec(s: &[char]) -> (r: Vec<char>)
    ensures
        r@ == trim_slashes(s@),
{
    let a = strip_leading_vec(s, '/');
    strip_trailing_vec(a.as_slice(), '/')
}

pub open spec fn params_view(v: Seq<(String, String)>) -> Seq<(Seq<char>, Seq<char>)> {
    v.map_values(|p: (String, String)| (p.0@, p.1@))
}

/// `c` is what the `{name}` segment of `ps` at some place from `i` on
/// captures of `xs`: the name and the path segment there.
pub open spec fn captured_at(ps: Seq<Seq<char>>, xs: Seq<Seq<char>>, i: int, c: (Seq<char>, Seq<char>)) -> bool {
    exists|j: int| i <= j < ps.len() && is_capture(#[trigger] ps[j]) && c == (ps[j].subrange(1, ps[j].len() - 1), xs[j])
}

/// Matching from segment `i` on succeeds exactly when every literal
/// pattern segment there equals the path segment at its place; every
/// capture it yields names a `{name}` segment and carries the path segment
/// at that place.
pub proof fn lemma_match_from(ps: Seq<Seq<char>>, xs: Seq<Seq<char>>, i: int)
    requires
        ps.len() == xs.len(),
        0 <= i <= ps.len(),
    ensures
        match_from(ps, xs, i) is Some <==> forall|j: int| i <= j < ps.len() && !is_capture(#[trigger] ps[j]) ==> ps[j] == xs[j],
        match_from(ps, xs, i) matches Some(v) ==> forall|q: int| 0 <= q < v.len() ==> captured_at(ps, xs, i, #[trigger] v[q]),
    decreases ps.len() - i,
{
    if i < ps.len() {
        lemma_match_from(ps, xs, i + 1);
        if is_capture(ps[i]) {
            if let Some(rest) = match_from(ps, xs, i + 1) {
                let v = seq![(ps[i].subrange(1, ps[i].len() - 1), xs[i])] + rest;
                assert forall|q: int| 0 <= q < v.len() implies captured_at(ps, xs, i, #[trigger] v[q]) by {
                    if q > 0 {
                        assert(v[q] == rest[q - 1]);
                        assert(captured_at(ps, xs, i + 1, rest[q - 1]));
                    } else {
                        assert(is_capture(ps[i]));
                    }
                }
            }
        } else if ps[i] != xs[i] {
            assert(!(forall|j: int| i <= j < ps.len() && !is_capture(#[trigger] ps[j]) ==> ps[j] == xs[j]));
        }
    }
}

/// Matches a path against a route pattern; the captured parameters.
pub fn match_pattern(pattern: &str, path: &str) -> (r: Option<Vec<(String, String)>>)
    ensures
        pattern_match(pattern@, path@) is None ==> r is None,
        pattern_match(pattern@, path@) is Some ==> (r matches Some(v) && params_view(v@) == pattern_match(pattern@, path@).unwrap()),
        r is Some <==> (segments(pattern@).len() == segments(path@).len()
            && forall|j: int| 0 <= j < segments(pattern@).len() && !is_capture(#[trigger] segments(pattern@)[j])
                ==> segments(pattern@)[j] == segments(path@)[j]),
        r matches Some(v) ==> forall|q: int| 0 <= q < v@.len()
            ==> captured_at(segments(pattern@), segments(path@), 0, #[trigger] params_view(v@)[q]),
{
    proof {
        if segments(pattern@).len() == segments(path@).len() {
            lemma_match_from(segments(pattern@), segments(path@), 0);
        }
    }
    let ps = split_vec(trim_slashes_vec(chars_of(pattern).as_slice()).as_slice(), '/');
    let xs = split_vec(trim_slashes_vec(chars_of(path).as_slice()).as_slice(), '/');
    let ghost sp = segments(pattern@);
    let ghost sx = segments(path@);
    if ps.len() != xs.len() {
        return None;
    }
    let mut i: usize = ps.len();
    let mut acc: Vec<(String, String)> = Vec::new();
    // Walk backwards so the captures come out in pattern order.
    while i > 0
        invariant
            ps@.len() == sp.len(),
            xs@.len() == sx.len(),
            sp.len() == sx.len(),
            forall|k: int| 0 <= k < ps@.len() ==> #[trigger] ps@[k]@ == sp[k],
            forall|k: int| 0 <= k < xs@.len() ==> #[trigger] xs@[k]@ == sx[k],
            i <= ps@.len(),
            match_from(sp, sx, i as int) == Some(params_view(acc@)),
            pattern_match(pattern@, path@) == match_from(sp, sx, 0),
            sp == segments(pattern@),
            sx == segments(path@),
            match_from(sp, sx, 0) is Some <==> forall|j: int| 0 <= j < sp.len() && !is_capture(#[trigger] sp[j]) ==> sp[j] == sx[j],
            match_from(sp, sx, 0) matches Some(v) ==> forall|q: int| 0 <= q < v.len() ==> captured_at(sp, sx, 0, #[trigger] v[q]),
        decreases i,
    {
        i = i - 1;
        let p = &ps[i];
        let x = &xs[i];
        assert(p@ == sp[i as int] && x@ == sx[i as int]);
        if p.len() >= 2 && p[0] == '{' && p[p.len() - 1] == '}' {
            let name = string_of(sub_chars(p.as_slice(), 1, p.len() - 1).as_slice());
            let value = string_of(x.as_slice());
            let ghost before = acc@;
            acc.insert(0, (name, value));
            proof {
                assert(params_view(acc@) =~= seq![(sp[i as int].subrange(1, sp[i as int].len() - 1), sx[i as int])] + params_view(before));
            }
        } else {
            if !seq_eq(p.as_slice(), x.as_slice()) {
                proof {
                    lemma_match_none_prefix(sp, sx, i as int);
                    assert(!is_capture(sp[i as int]) && sp[i as int] != sx[i as int]);
                }
                return None;
            }
        }
    }
    Some(acc)
}

/// A mismatch at segment `i` fails the whole match.
proof fn lemma_match_none_prefix(ps: Seq<Seq<char>>, xs: Seq<Seq<char>>, i: int)
    requires
        0 <= i < ps.len(),
        match_from(ps, xs, i) is None,
    ensures
        match_from(ps, xs, 0) is None,
    decreases i,
{
    if i > 0 {
        lemma_match_none_prefix(ps, xs, i - 1);
    }
}

/// The captures of the first route of `t` from index `i` on whose method
/// equals `method` up to ASCII case and whose pattern matches `path`.
pub open spec fn first_route(t: Seq<(RouteId, Seq<char>, Seq<char>)>, method: Seq<char>, path: Seq<char>, i: int) -> Option<(RouteId, Seq<(Seq<char>, Seq<char>)>)>
    decreases t.len() - i,
{
    if i < 0 || i >= t.len() {
        None
    } else if eq_ic(t[i].1, method) && pattern_match(t[i].2, path) is Some {
        Some((t[i].0, pattern_match(t[i].2, path).unwrap()))
    } else {
        first_route(t, method, path, i + 1)
    }
}

/// The route a request goes to, with its captured parameters.
pub open spec fn route_for(method: Seq<char>, path: Seq<char>) -> Option<(RouteId, Seq<(Seq<char>, Seq<char>)>)> {
    first_route(route_table(), method, path, 0)
}

/// The value of the first capture named `key`.
pub open spec fn lookup(ps: Seq<(Seq<char>, Seq<char>)>, key: Seq<char>) -> Option<Seq<char>>
    decreases ps.len(),
{
    if ps.len() == 0 {
        None
    } else if ps[0].0 == key {
        Some(ps[0].1)
    } else {
        lookup(ps.drop_first(), key)
    }
}

/// The server id carried by the captures: `id` parsed as a `u64`.
pub open spec fn captured_id(ps: Seq<(Seq<char>, Seq<char>)>) -> Option<u64> {
    match lookup(ps, "id"@) {
        Some(raw) => parse_u64_spec(raw),
        None => None,
    }
}

proof fn lemma_param_spec_view(v: Seq<(String, String)>, key: Seq<char>)
    ensures
        param_spec(v, key) == lookup(params_view(v), key),
    decreases v.len(),
{
    if v.len() > 0 {
        assert(params_view(v).drop_first() =~= params_view(v.drop_first()));
        lemma_param_spec_view(v.drop_first(), key);
    }
}

/// The first route (in table order) whose method matches regardless of
/// ASCII case and whose pattern matches the path.
pub fn match_route(method: &str, path: &str) -> (r: Option<(RouteId, Vec<(String, String)>)>)
    ensures
        match r {
            None => route_for(method@, path@) is None,
            Some((id, params)) => route_for(method@, path@) == Some((id, params_view(params@))),
        },
{
    let table = routes();
    let wanted = chars_of(method);
    let mut i: usize = 0;
    while i < table.len()
        invariant
            i <= table@.len(),
            table@.len() == route_table().len(),
            forall|k: int| 0 <= k < table@.len() ==> (#[trigger] table@[k].id, table@[k].method@, table@[k].pattern@) == route_table()[k],
            wanted@ == method@,
            route_for(method@, path@) == first_route(route_table(), method@, path@, i as int),
        decreases table@.len() - i,
    {
        assert((table@[i as int].id, table@[i as int].method@, table@[i as int].pattern@) == route_table()[i as int]);
        if eq_ignore_case(chars_of(table[i].method).as_slice(), wanted.as_slice()) {
            match match_pattern(table[i].pattern, path) {
                Some(params) => return Some((table[i].id, params)),
                None => {},
            }
        }
        i = i + 1;
    }
    None
}

/// An API request as the panel hands it over.
pub struct ApiRequest {
    pub method: String,
    pub path: String,
    pub body: Vec<u8>,
    /// Query parameters with all their values.
    pub query: Vec<(String, Vec<String>)>,
    /// Who is acting, for the audit log.
    pub actor: Option<String>,
}

/// Audit identity: the display name when it is not blank, else the login.
pub fn actor_name(name: Option<String>, login: String) -> (r: String)
    ensures
        (name is Some && trim(name.unwrap()@).len() > 0) ==> r == name.unwrap(),
        !(name is Some && trim(name.unwrap()@).len() > 0) ==> r == login,
{
    match name {
        Some(n) => {
            if trim_vec(chars_of(n.as_str()).as_slice()).len() > 0 {
                n
            } else {
                login
            }
        },
        None => login,
    }
}

/// `resp` carries error `e`: its status and its JSON.
pub open spec fn gave(resp: HttpResponse, e: ApiError) -> bool {
    resp.status == e.status && exists|j: Json| #[trigger] e.json_is(j) && resp.body@ == json_text(j)
}

/// A route's answer: an error the route's handler may give, as its failure
/// clause states it for server `id`, or the handler's own answer (`ok`).
pub open spec fn route_answer(resp: HttpResponse, t0: Seq<HostCall>, t: Seq<HostCall>, id: Option<u64>,
    allowed: spec_fn(ApiError) -> bool, ok: bool) -> bool
{
    (exists|e: ApiError| #[trigger] gave(resp, e) && failed_for(t0, t, id, e, allowed)) || ok
}

/// Routes a request to its handler; every failure becomes a JSON error
/// response, and an unknown route is 404. A matched route answers with its
/// own handler's answer or with an error that handler may give.
#[verifier::rlimit(100)]
#[verifier::spinoff_prover]
pub fn dispatch<H: HostApi>(host: &mut H, req: &ApiRequest) -> (resp: HttpResponse)
    ensures
        route_for(req.method@, req.path@) is None ==> resp.status == 404,
        route_for(req.method@, req.path@) matches Some((_, ps)) && captured_id(ps) is None ==> resp.status == 400,
        route_for(req.method@, req.path@) matches Some((RouteId::State, ps)) ==> route_answer(resp, old(host).trace(), final(host).trace(),
            captured_id(ps), |x: ApiError| host_failure(x),
            resp.status == 200 && captured_id(ps) is Some && handlers::state::answers_state(resp.body@, captured_id(ps).unwrap())
                && handlers::state::state_handled(resp.body@, old(host).trace(), final(host).trace(), captured_id(ps).unwrap())),
        route_for(req.method@, req.path@) matches Some((RouteId::TogglePlugin, ps)) ==> route_answer(resp, old(host).trace(), final(host).trace(),
            captured_id(ps), |x: ApiError| (x.status == 400 && !(toggle_request(req.body@) matches Some((n, _)) && valid_plugin_name(n)))
                || x.status == 404 || x.status == 409 || x.status == 500 || host_failure(x),
            resp.status == 200 && (toggle_request(req.body@) matches Some((n, e))
                && (handlers::toggle::answers_toggle(resp.body@, n, e, false) || handlers::toggle::answers_toggle(resp.body@, n, e, true)))),
        route_for(req.method@, req.path@) matches Some((RouteId::SetAttributes, ps)) ==> route_answer(resp, old(host).trace(), final(host).trace(),
            captured_id(ps), |x: ApiError| (x.status == 400 && !handlers::attributes::accepted_attributes(req.body@)) || x.status == 404
                || x.status == 409 || host_failure(x),
            resp.status == 200 && handlers::attributes::accepted_attributes(req.body@)),
        route_for(req.method@, req.path@) matches Some((RouteId::AddPlugin, ps)) ==> route_answer(resp, old(host).trace(), final(host).trace(),
            captured_id(ps), |x: ApiError| (x.status == 400 && !(forced_request(req.body@, "name"@) matches Some((n, _)) && valid_plugin_name(n)))
                || x.status == 409 || x.status == 422 || host_failure(x),
            (resp.status == 200 || resp.status == 201) && (forced_request(req.body@, "name"@) matches Some((n, f))
                && handlers::add::answers_add(resp, n, f))),
        route_for(req.method@, req.path@) matches Some((RouteId::RemovePlugin, ps)) ==> route_answer(resp, old(host).trace(), final(host).trace(),
            captured_id(ps), |x: ApiError| (x.status == 400 && !(handlers::remove::removal_name(req.body@, req.query@) matches Some(n) && valid_plugin_name(n)))
                || x.status == 404 || x.status == 409 || host_failure(x),
            resp.status == 200 && (handlers::remove::removal_name(req.body@, req.query@) matches Some(n) && handlers::remove::answers_remove(resp.body@, n))),
        route_for(req.method@, req.path@) matches Some((RouteId::RepairGameinfo, ps)) ==> route_answer(resp, old(host).trace(), final(host).trace(),
            captured_id(ps), |x: ApiError| host_failure(x)
                || (x.status == 422 && (x.code@ == "GAMEINFO_NOT_FOUND"@ || x.code@ == "GAMEINFO_UNPATCHABLE"@)),
            resp.status == 200 && captured_id(ps) is Some
                && handlers::repair::repair_handled(resp.body@, old(host).trace(), final(host).trace(), captured_id(ps).unwrap())),
        route_for(req.method@, req.path@) matches Some((RouteId::MetamodToggle, ps)) ==> route_answer(resp, old(host).trace(), final(host).trace(),
            captured_id(ps), |x: ApiError| (x.status == 400 && !(metamod_request(req.body@) matches Some((n, _, _)) && valid_plugin_name(n)))
                || x.status == 404 || x.status == 409 || host_failure(x),
            resp.status == 200 && (metamod_request(req.body@) matches Some((n, e, _)) && handlers::metamod::answers_metamod(resp.body@, n, e))),
        route_for(req.method@, req.path@) matches Some((RouteId::Logs, ps)) ==> route_answer(resp, old(host).trace(), final(host).trace(),
            captured_id(ps), |x: ApiError| host_failure(x), resp.status == 200 && handlers::logs::answers_logs(resp.body@)),
        route_for(req.method@, req.path@) matches Some((RouteId::Restart, ps)) ==> route_answer(resp, old(host).trace(), final(host).trace(),
            captured_id(ps), |x: ApiError| host_failure(x), resp.status == 200 && handlers::restart::answers_restart(resp.body@)),
        route_for(req.method@, req.path@) matches Some((RouteId::Updates, ps)) ==> route_answer(resp, old(host).trace(), final(host).trace(),
            captured_id(ps), |x: ApiError| false, resp.status == 200 && handlers::updates::answers_updates(resp.body@)),
        route_for(req.method@, req.path@) matches Some((RouteId::CatalogList, ps)) ==> route_answer(resp, old(host).trace(), final(host).trace(),
            captured_id(ps), |x: ApiError| false, resp.status == 200 && handlers::catalog_routes::answers_catalog(resp.body@)),
        route_for(req.method@, req.path@) matches Some((RouteId::CatalogInstall, ps)) ==> route_answer(resp, old(host).trace(), final(host).trace(),
            captured_id(ps), |x: ApiError| (x.status == 400 && name_request(req.body@, "key"@) is None)
                || (x.status == 404 && x.code@ == "CATALOG_KEY_UNKNOWN"@ && !handlers::catalog_routes::known_key(name_request(req.body@, "key"@).unwrap()))
                || x.status == 409 || x.status == 422 || host_failure(x),
            resp.status == 200 && handlers::catalog_routes::answers_install(resp.body@, name_request(req.body@, "key"@).unwrap())),
        route_for(req.method@, req.path@) matches Some((RouteId::PlatformInstall, ps)) ==> route_answer(resp, old(host).trace(), final(host).trace(),
            captured_id(ps), |x: ApiError| (x.status == 400 && handlers::platform::platform_kind(req.body@) is None) || x.status == 422 || host_failure(x),
            resp.status == 200 && handlers::platform::answers_platform(resp.body@, name_request(req.body@, "kind"@).unwrap())),
        route_for(req.method@, req.path@) matches Some((RouteId::SnapshotCreate, ps)) ==> route_answer(resp, old(host).trace(), final(host).trace(),
            captured_id(ps), |x: ApiError| x.status == 409 || x.status == 422 || host_failure(x),
            resp.status == 200 && handlers::snapshots::answers_created(resp.body@)),
        route_for(req.method@, req.path@) matches Some((RouteId::SnapshotList, ps)) ==> route_answer(resp, old(host).trace(), final(host).trace(),
            captured_id(ps), |x: ApiError| host_failure(x), resp.status == 200 && handlers::snapshots::answers_listing(resp.body@)),
        route_for(req.method@, req.path@) matches Some((RouteId::SnapshotRestore, ps)) ==> route_answer(resp, old(host).trace(), final(host).trace(),
            captured_id(ps), |x: ApiError| x.status == 400 || x.status == 404 || x.status == 422 || host_failure(x),
            resp.status == 200 && handlers::snapshots::answers_snapshot(resp.body@, name_request(req.body@, "name"@).unwrap(), true)),
        route_for(req.method@, req.path@) matches Some((RouteId::SnapshotDelete, ps)) ==> route_answer(resp, old(host).trace(), final(host).trace(),
            captured_id(ps), |x: ApiError| (x.status == 400 && handlers::snapshots::restore_name(req.body@) is None)
                || (x.status == 404 && x.code@ == "SNAPSHOT_NOT_FOUND"@) || host_failure(x),
            resp.status == 200 && handlers::snapshots::answers_snapshot(resp.body@, name_request(req.body@, "name"@).unwrap(), false)),
        route_for(req.method@, req.path@) matches Some((RouteId::Audit, ps)) ==> route_answer(resp, old(host).trace(), final(host).trace(),
            captured_id(ps), |x: ApiError| false, resp.status == 200),
        route_for(req.method@, req.path@) matches Some((RouteId::InstallArchive, ps)) ==> route_answer(resp, old(host).trace(), final(host).trace(),
            captured_id(ps), |x: ApiError| (x.status == 400 && !(forced_request(req.body@, "path"@) matches Some((p, _)) && handlers::archive_install::archive_path_ok(p)))
                || x.status == 404 || x.status == 409 || x.status == 422 || host_failure(x),
            resp.status == 200 && handlers::archive_install::archive_handled(old(host).trace(), final(host).trace())),
        route_for(req.method@, req.path@) matches Some((RouteId::Doctor, ps)) ==> route_answer(resp, old(host).trace(), final(host).trace(),
            captured_id(ps), |x: ApiError| host_failure(x),
            resp.status == 200 && captured_id(ps) is Some
                && handlers::doctor::doctor_handled(resp.body@, old(host).trace(), final(host).trace(), captured_id(ps).unwrap())),
{
    let (route, params) = match match_route(req.method.as_str(), req.path.as_str()) {
        Some(found) => found,
        None => return ApiError::not_found("NOT_FOUND", String::from_str("route not found")).into_response(),
    };
    let actor: Option<&str> = match &req.actor {
        Some(a) => Some(a.as_str()),
        None => None,
    };
    proof {
        lemma_param_spec_view(params@, "id"@);
    }
    let body = req.body.as_slice();
    let result: ApiResult = match route {
        RouteId::State => handlers::state::handle(host, &params),
        RouteId::TogglePlugin => handlers::toggle::handle(host, &params, body, actor),
        RouteId::SetAttributes => handlers::attributes::handle(host, &params, body),
        RouteId::AddPlugin => handlers::add::handle(host, &params, body, actor),
        RouteId::RemovePlugin => handlers::remove::handle(host, &params, body, &req.query, actor),
        RouteId::RepairGameinfo => handlers::repair::handle(host, &params, actor),
        RouteId::MetamodToggle => handlers::metamod::handle(host, &params, body, actor),
        RouteId::Logs => handlers::logs::handle(host, &params),
        RouteId::Restart => handlers::restart::handle(host, &params, actor),
        RouteId::Updates => handlers::updates::handle(host, &params, &req.query),
        RouteId::CatalogList => handlers::catalog_routes::handle_list(host, &params),
        RouteId::CatalogInstall => handlers::catalog_routes::handle_install(host, &params, body, actor),
        RouteId::PlatformInstall => handlers::platform::handle(host, &params, body, actor),
        RouteId::SnapshotCreate => handlers::snapshots::handle_create(host, &params, actor),
        RouteId::SnapshotList => handlers::snapshots::handle_list(host, &params),
        RouteId::SnapshotRestore => handlers::snapshots::handle_restore(host, &params, body, actor),
        RouteId::SnapshotDelete => handlers::snapshots::handle_delete(host, &params, body, actor),
        RouteId::Audit => handlers::audit::handle(host, &params),
        RouteId::InstallArchive => handlers::archive_install::handle(host, &params, body, actor),
        RouteId::Doctor => handlers::doctor::handle(host, &params),
    };
    proof {
        assert(param_id(params@) == captured_id(params_view(params@)));
    }
    match result {
        Ok(resp) => resp,
        Err(err) => {
            let ghost e = err;
            let resp = err.into_response();
            assert(gave(resp, e));
            resp
        },
    }
}

} // verus!
