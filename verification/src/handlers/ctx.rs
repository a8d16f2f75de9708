//! Shared request context: server, game (engine gate), node, game dir.

use vstd::prelude::*;

use crate::host_api::{calls_since, grew, lemma_reads_only_trans, no_fetch, reads_only, DirEntry, HostApi, HostApiError, HostCall};
use crate::http::{host_error, ApiError};
use crate::source2::gamedir;
use crate::source2::gamedir::known_dir_spec;
use crate::source2::paths::{join, join_spec, sanitize_file_name, valid_file_name};
use crate::text::{cat, cat3, chars_of, eq_ic, eq_ignore_case, has_prefix, parse_u64, parse_u64_spec, str_eq, trim, trim_vec};

verus! {

/// Upper bound of subdirectories probed for gameinfo.gi.
pub const GAME_DIR_SCAN_CAP: usize = 16;

pub struct ServerCtx {
    pub server_id: u64,
    pub node_id: u64,
    /// Node operating system as reported by the panel ("linux", "windows").
    pub node_os: String,
    pub game_code: String,
    pub engine: String,
    pub engine_version: String,
    /// Absolute server root on the node.
    pub root_abs: String,
    /// Game folder path relative to the server root, e.g. "game/csgo".
    pub game_dir: String,
    /// Absolute game folder path.
    pub game_abs: String,
}

/// The value of the first route parameter named `key`.
pub open spec fn param_spec(params: Seq<(String, String)>, key: Seq<char>) -> Option<Seq<char>>
    decreases params.len(),
{
    if params.len() == 0 {
        None
    } else if params[0].0@ == key {
        Some(params[0].1@)
    } else {
        param_spec(params.drop_first(), key)
    }
}

/// The server id of a route: its `id` parameter as a `u64`.
pub open spec fn param_id(params: Seq<(String, String)>) -> Option<u64> {
    match param_spec(params, "id"@) {
        Some(raw) => parse_u64_spec(raw),
        None => None,
    }
}

/// A Source 2 game: engine "source" (any case), version starting with 2.
pub open spec fn source2_engine(engine: Seq<char>, version: Seq<char>) -> bool {
    eq_ic(engine, "source"@) && has_prefix(trim(version), seq!['2'])
}

/// What every resolved context satisfies.
pub open spec fn ctx_wf(c: ServerCtx) -> bool {
    &&& source2_engine(c.engine@, c.engine_version@)
    &&& c.game_abs@ == join_spec(c.root_abs@, c.game_dir@)
}

/// The value of route parameter `key`.
pub fn param(params: &Vec<(String, String)>, key: &str) -> (r: Option<String>)
    ensures
        match param_spec(params@, key@) {
            Some(v) => r matches Some(s) && s@ == v,
            None => r is None,
        },
{
    let mut i: usize = 0;
    assert(params@.skip(0) == params@);
    while i < params.len()
        invariant
            i <= params@.len(),
            param_spec(params@, key@) == param_spec(params@.skip(i as int), key@),
        decreases params@.len() - i,
    {
        assert(params@.skip(i as int).drop_first() == params@.skip(i + 1));
        assert(params@.skip(i as int)[0] == params@[i as int]);
        if str_eq(params[i].0.as_str(), key) {
            return Some(params[i].1.clone());
        }
        i = i + 1;
    }
    None
}

fn parse_id(params: &Vec<(String, String)>) -> (r: Option<u64>)
    ensures
        r == param_id(params@),
{
    proof {
        reveal_strlit("id");
    }
    match param(params, "id") {
        Some(raw) => parse_u64(chars_of(raw.as_str()).as_slice()),
        None => None,
    }
}

fn is_source2(engine: &str, version: &str) -> (b: bool)
    ensures
        b == source2_engine(engine@, version@),
{
    let e = chars_of(engine);
    let source = chars_of("source");
    let v = trim_vec(chars_of(version).as_slice());
    let two: Vec<char> = vec!['2'];
    assert(two@ == seq!['2']);
    proof {
        reveal_strlit("source");
    }
    eq_ignore_case(e.as_slice(), source.as_slice()) && crate::text::starts_with(v.as_slice(), two.as_slice())
}

/// Where gameinfo.gi sits for game dir `dir` of server root `root`.
pub open spec fn gameinfo_at(root: Seq<char>, dir: Seq<char>) -> Seq<char> {
    join_spec(join_spec(root, dir), crate::source2::GAMEINFO_FILE@)
}

/// The scan of `game/` from call `i` of `t`, over its entries from index
/// `j` with `taken` folders counted so far: up to [`GAME_DIR_SCAN_CAP`]
/// folders, in order, each but the hint probed for gameinfo.gi; the first
/// probe that finds a file gives the game dir, a failed probe the host's
/// error, and none found `Ok(None)`; nothing is called after the answer.
pub open spec fn scan_answer(t: Seq<HostCall>, i: int, node: u64, root: Seq<char>, hint: Option<Seq<char>>,
    es: Seq<DirEntry>, j: int, taken: int, r: Result<Option<Seq<char>>, HostApiError>) -> bool
    decreases es.len() - j,
{
    if j < 0 || j >= es.len() || taken >= GAME_DIR_SCAN_CAP {
        r == Ok::<Option<Seq<char>>, HostApiError>(None) && t.len() == i
    } else if !es[j].is_dir {
        scan_answer(t, i, node, root, hint, es, j + 1, taken, r)
    } else if hint == Some(join_spec(gamedir::GAME_PARENT@, es[j].name@)) {
        scan_answer(t, i, node, root, hint, es, j + 1, taken + 1, r)
    } else {
        let cand = join_spec(gamedir::GAME_PARENT@, es[j].name@);
        &&& 0 <= i < t.len()
        &&& t[i] matches HostCall::Stat(n, p, a)
        &&& n == node && p == gameinfo_at(root, cand)
        &&& match crate::handlers::stat_file(a) {
            Err(h) => r == Err::<Option<Seq<char>>, HostApiError>(h) && t.len() == i + 1,
            Ok(true) => r == Ok::<Option<Seq<char>>, HostApiError>(Some(cand)) && t.len() == i + 1,
            Ok(false) => scan_answer(t, i + 1, node, root, hint, es, j + 1, taken + 1, r),
        }
    }
}

/// The listing of `game/` at call `i` of `t`, then its scan.
pub open spec fn listing_answer(t: Seq<HostCall>, i: int, node: u64, root: Seq<char>, hint: Option<Seq<char>>,
    r: Result<Option<Seq<char>>, HostApiError>) -> bool
{
    &&& 0 <= i < t.len()
    &&& t[i] matches HostCall::ReadDir(n, p, a)
    &&& n == node && p == join_spec(root, gamedir::GAME_PARENT@)
    &&& match a {
        Err(h) => r == Err::<Option<Seq<char>>, HostApiError>(h) && t.len() == i + 1,
        Ok(None) => r == Ok::<Option<Seq<char>>, HostApiError>(None) && t.len() == i + 1,
        Ok(Some(es)) => scan_answer(t, i + 1, node, root, hint, es@, 0, 0, r),
    }
}

/// How locating the game dir from call `b` of `t` answered: the game code's
/// known dir when it holds gameinfo.gi, else the scan of `game/`.
pub open spec fn game_dir_answer(t: Seq<HostCall>, b: int, node: u64, root: Seq<char>, code: Seq<char>,
    r: Result<Option<Seq<char>>, HostApiError>) -> bool
{
    match known_dir_spec(code) {
        Some(dir) => {
            &&& 0 <= b < t.len()
            &&& t[b] matches HostCall::Stat(n, p, a)
            &&& n == node && p == gameinfo_at(root, dir)
            &&& match crate::handlers::stat_file(a) {
                Err(h) => r == Err::<Option<Seq<char>>, HostApiError>(h) && t.len() == b + 1,
                Ok(true) => r == Ok::<Option<Seq<char>>, HostApiError>(Some(dir)) && t.len() == b + 1,
                Ok(false) => listing_answer(t, b + 1, node, root, Some(dir), r),
            }
        },
        None => listing_answer(t, b, node, root, None, r),
    }
}

/// The scan reads the transcript by position: dropping calls in front of
/// it shifts the positions and changes nothing else.
pub proof fn lemma_scan_shift(t: Seq<HostCall>, d: int, i: int, node: u64, root: Seq<char>, hint: Option<Seq<char>>,
    es: Seq<DirEntry>, j: int, taken: int, r: Result<Option<Seq<char>>, HostApiError>)
    requires
        0 <= d <= i,
        d <= t.len(),
    ensures
        scan_answer(t, i, node, root, hint, es, j, taken, r) == scan_answer(t.skip(d), i - d, node, root, hint, es, j, taken, r),
    decreases es.len() - j,
{
    if j < 0 || j >= es.len() || taken >= GAME_DIR_SCAN_CAP {
    } else if !es[j].is_dir {
        lemma_scan_shift(t, d, i, node, root, hint, es, j + 1, taken, r);
    } else if hint == Some(join_spec(gamedir::GAME_PARENT@, es[j].name@)) {
        lemma_scan_shift(t, d, i, node, root, hint, es, j + 1, taken + 1, r);
    } else {
        lemma_scan_shift(t, d, i + 1, node, root, hint, es, j + 1, taken + 1, r);
        if 0 <= i < t.len() {
            assert(t.skip(d)[i - d] == t[i]);
        }
    }
}

/// [`game_dir_answer`] read after dropping calls in front of it.
pub proof fn lemma_game_dir_shift(t: Seq<HostCall>, d: int, b: int, node: u64, root: Seq<char>, code: Seq<char>,
    r: Result<Option<Seq<char>>, HostApiError>)
    requires
        0 <= d <= b,
        d <= t.len(),
    ensures
        game_dir_answer(t, b, node, root, code, r) == game_dir_answer(t.skip(d), b - d, node, root, code, r),
{
    let u = t.skip(d);
    if 0 <= b < t.len() {
        assert(u[b - d] == t[b]);
    }
    if 0 <= b + 1 < t.len() {
        assert(u[b + 1 - d] == t[b + 1]);
    }
    match known_dir_spec(code) {
        Some(dir) => {
            if 0 <= b + 1 < t.len() && t[b + 1] is ReadDir {
                match t[b + 1]->ReadDir_2 {
                    Ok(Some(es)) => lemma_scan_shift(t, d, b + 2, node, root, Some(dir), es@, 0, 0, r),
                    _ => {},
                }
            }
        },
        None => {
            if 0 <= b < t.len() && t[b] is ReadDir {
                match t[b]->ReadDir_2 {
                    Ok(Some(es)) => lemma_scan_shift(t, d, b + 1, node, root, None, es@, 0, 0, r),
                    _ => {},
                }
            }
        },
    }
}

/// How the lookups of a resolve answer, given the calls it made (`t`) for
/// server `id`: the panel's server, game and node lookups in that order, a
/// missing one 404, a failed one the host's error, an engine other than
/// Source 2 a 422; otherwise the context is built from the three answers,
/// or the game directory is not found (422) or a later probe failed.
pub open spec fn resolve_answers(t: Seq<HostCall>, id: u64, r: Result<ServerCtx, ApiError>) -> bool {
    &&& t.len() >= 1
    &&& t[0] matches HostCall::GetServer(i0, a0)
    &&& i0 == id
    &&& match a0 {
        Err(h) => r == Err::<ServerCtx, ApiError>(host_error(h)),
        Ok(None) => r matches Err(e) && e.status == 404 && e.code@ == "SERVER_NOT_FOUND"@,
        Ok(Some(s)) => {
            &&& t.len() >= 2
            &&& t[1] matches HostCall::GetGame(code, a1)
            &&& code == s.game_code@
            &&& match a1 {
                Err(h) => r == Err::<ServerCtx, ApiError>(host_error(h)),
                Ok(None) => r matches Err(e) && e.status == 404 && e.code@ == "GAME_NOT_FOUND"@,
                Ok(Some(g)) => if !source2_engine(g.engine@, g.engine_version@) {
                    r matches Err(e) && e.status == 422 && e.code@ == "UNSUPPORTED_ENGINE"@
                } else {
                    &&& t.len() >= 3
                    &&& t[2] matches HostCall::GetNode(nid, a2)
                    &&& nid == s.node_id
                    &&& match a2 {
                        Err(h) => r == Err::<ServerCtx, ApiError>(host_error(h)),
                        Ok(None) => r matches Err(e) && e.status == 404 && e.code@ == "NODE_NOT_FOUND"@,
                        Ok(Some(n)) => exists|d: Result<Option<Seq<char>>, HostApiError>|
                            #[trigger] game_dir_answer(t, 3, n.id, join_spec(n.work_path@, s.dir@), s.game_code@, d) && match d {
                            Err(h) => r == Err::<ServerCtx, ApiError>(host_error(h)),
                            Ok(None) => r matches Err(e) && e.status == 422 && e.code@ == "GAME_DIR_NOT_FOUND"@,
                            Ok(Some(dir)) => r matches Ok(c) && {
                                &&& c.server_id == id
                                &&& c.node_id == n.id
                                &&& c.node_os == n.os
                                &&& c.game_code == s.game_code
                                &&& c.engine == g.engine
                                &&& c.engine_version == g.engine_version
                                &&& c.root_abs@ == join_spec(n.work_path@, s.dir@)
                                &&& c.game_dir@ == dir
                                &&& c.game_abs@ == join_spec(c.root_abs@, c.game_dir@)
                            },
                        },
                    }
                },
            }
        },
    }
}

/// Resolution succeeded between `t0` and `tm`, giving `c` for server `id`.
pub open spec fn resolved_at(t0: Seq<HostCall>, tm: Seq<HostCall>, id: u64, c: ServerCtx) -> bool {
    grew(t0, tm) && resolve_answers(calls_since(t0, tm), id, Ok(c))
}

/// How a route handler that starts by resolving its server fails, given
/// the transcript before (`t0`) and after (`t`): with no usable id, 400 and
/// no call; else with the resolve's own answer; or, once the server
/// resolved, with an error that `allowed` admits.
pub open spec fn route_failed(t0: Seq<HostCall>, t: Seq<HostCall>, params: Seq<(String, String)>, e: ApiError, allowed: spec_fn(ApiError) -> bool) -> bool {
    failed_for(t0, t, param_id(params), e, allowed)
}

/// [`route_failed`] for the server id the route carries, if any.
pub open spec fn failed_for(t0: Seq<HostCall>, t: Seq<HostCall>, id: Option<u64>, e: ApiError, allowed: spec_fn(ApiError) -> bool) -> bool {
    match id {
        None => e.status == 400 && t == t0,
        Some(id) => resolve_answers(calls_since(t0, t), id, Err(e))
            || (allowed(e) && exists|tm: Seq<HostCall>, c: ServerCtx| #[trigger] resolved_at(t0, tm, id, c) && grew(tm, t)),
    }
}

/// The failure clause holds of a resolve failure, and of an allowed error
/// raised after a resolve that succeeded.
pub proof fn lemma_route_failed(t0: Seq<HostCall>, tm: Seq<HostCall>, t: Seq<HostCall>, params: Seq<(String, String)>, c: ServerCtx, e: ApiError, allowed: spec_fn(ApiError) -> bool)
    requires
        param_id(params) == Some(c.server_id),
        resolved_at(t0, tm, c.server_id, c),
        grew(tm, t),
        allowed(e),
    ensures
        route_failed(t0, t, params, e, allowed),
{
}

impl ServerCtx {
    /// Looks up the server, its game and node, checks for Source 2, and
    /// locates the game directory.
    #[verifier::rlimit(60)]
    #[verifier::spinoff_prover]
    pub fn resolve<H: HostApi>(host: &mut H, params: &Vec<(String, String)>) -> (r: Result<ServerCtx, ApiError>)
        ensures
            param_id(params@) is None ==> (r matches Err(e) && e.status == 400),
            param_id(params@) is None ==> final(host).trace() == old(host).trace(),
            reads_only(old(host).trace(), final(host).trace()),
            no_fetch(old(host).trace(), final(host).trace()),
            param_id(params@) matches Some(id) ==> resolve_answers(calls_since(old(host).trace(), final(host).trace()), id, r),
            r matches Ok(c) ==> param_id(params@) == Some(c.server_id) && ctx_wf(c),
            r matches Ok(c) ==> known_dir_spec(c.game_code@) == Some(c.game_dir@)
                || exists|name: Seq<char>| c.game_dir@ == join_spec(gamedir::GAME_PARENT@, name),
    {
        let server_id = match parse_id(params) {
            Some(id) => id,
            None => return Err(ApiError::bad_request(String::from_str("invalid server id"))),
        };
        let ghost t0 = host.trace();
        let server = match crate::handlers::lift(host.get_server(server_id))? {
            Some(s) => s,
            None => return Err(ApiError::not_found("SERVER_NOT_FOUND", String::from_str("server not found"))),
        };
        let game = match crate::handlers::lift(host.get_game(server.game_code.as_str()))? {
            Some(g) => g,
            None => return Err(ApiError::not_found("GAME_NOT_FOUND", String::from_str("game not found"))),
        };
        if !is_source2(game.engine.as_str(), game.engine_version.as_str()) {
            let engine = cat3("server engine is \"", game.engine.as_str(), "\" v\"");
            let message = cat3(engine.as_str(), game.engine_version.as_str(), "\", expected Source 2");
            return Err(ApiError::unprocessable("UNSUPPORTED_ENGINE", message));
        }
        let node = match crate::handlers::lift(host.get_node(server.node_id))? {
            Some(n) => n,
            None => return Err(ApiError::not_found("NODE_NOT_FOUND", String::from_str("node not found"))),
        };
        let root_abs = join(node.work_path.as_str(), server.dir.as_str());
        let ghost t3 = host.trace();
        let located = resolve_game_dir(host, node.id, root_abs.as_str(), server.game_code.as_str());
        proof {
            let t = host.trace();
            assert(t3.len() == t0.len() + 3);
            lemma_game_dir_shift(t, t0.len() as int, t3.len() as int, node.id, root_abs@, server.game_code@, dir_view(located));
            assert(calls_since(t0, t) =~= t.skip(t0.len() as int));
            let c = calls_since(t0, t);
            assert(c[0] == t3[t0.len() as int]);
            assert(c[1] == t3[t0.len() as int + 1]);
            assert(c[2] == t3[t0.len() as int + 2]);
        }
        let game_dir = match crate::handlers::lift(located)? {
            Some(d) => d,
            None => return Err(ApiError::unprocessable(
                "GAME_DIR_NOT_FOUND",
                String::from_str("could not locate the game directory (gameinfo.gi) inside the server directory"),
            )),
        };
        let game_abs = join(root_abs.as_str(), game_dir.as_str());
        Ok(ServerCtx {
            server_id,
            node_id: node.id,
            node_os: node.os,
            game_code: server.game_code,
            engine: game.engine,
            engine_version: game.engine_version,
            root_abs,
            game_dir,
            game_abs,
        })
    }

    /// Path relative to the server dir, for the frontend file-manager API.
    pub fn rel(&self, game_relative: &str) -> (r: String)
        ensures
            r@ == join_spec(self.game_dir@, game_relative@),
    {
        join(self.game_dir.as_str(), game_relative)
    }
}

/// A located game dir as plain values.
pub open spec fn dir_view(r: Result<Option<String>, HostApiError>) -> Result<Option<Seq<char>>, HostApiError> {
    match r {
        Ok(Some(d)) => Ok(Some(d@)),
        Ok(None) => Ok(None),
        Err(h) => Err(h),
    }
}

/// A hint as plain values.
pub open spec fn hint_view(hint: Option<&str>) -> Option<Seq<char>> {
    match hint {
        Some(d) => Some(d@),
        None => None,
    }
}

/// Lists `game/` and scans it for the game dir ([`listing_answer`]).
#[verifier::rlimit(60)]
#[verifier::spinoff_prover]
fn scan_game<H: HostApi>(host: &mut H, node_id: u64, root_abs: &str, hint: Option<&str>) -> (r: Result<Option<String>, HostApiError>)
    ensures
        reads_only(old(host).trace(), final(host).trace()),
        no_fetch(old(host).trace(), final(host).trace()),
        listing_answer(final(host).trace(), old(host).trace().len() as int, node_id, root_abs@, hint_view(hint), dir_view(r)),
        r matches Ok(Some(d)) ==> exists|name: Seq<char>| d@ == join_spec(gamedir::GAME_PARENT@, name),
{
    let ghost t0 = host.trace();
    let ghost hv = hint_view(hint);
    let parent_abs = join(root_abs, gamedir::GAME_PARENT);
    let listed = host.read_dir(node_id, parent_abs.as_str());
    let ghost ts = host.trace();
    let ghost start = ts.len() as int;
    proof {
        assert(reads_only(t0, ts));
        assert(no_fetch(t0, ts));
    }
    proof {
        assert(ts[start - 1] == ts.last());
    }
    let entries = match listed {
        Ok(Some(e)) => e,
        Ok(None) => {
            return Ok(None);
        },
        Err(h) => {
            return Err(h);
        },
    };
    let mut taken: usize = 0;
    let mut i: usize = 0;
    while i < entries.len() && taken < GAME_DIR_SCAN_CAP
        invariant
            i <= entries@.len(),
            taken <= i,
            t0 == old(host).trace(),
            reads_only(t0, host.trace()),
            no_fetch(t0, host.trace()),
            grew(ts, host.trace()),
            start == ts.len(),
            start >= 1,
            hv == hint_view(hint),
            t0.len() + 1 == start,
            match hint { Some(d) => hv == Some(d@), None => hv is None },
            listed == Ok::<Option<Vec<DirEntry>>, HostApiError>(Some(entries)),
            ts.last() == HostCall::ReadDir(node_id, join_spec(root_abs@, gamedir::GAME_PARENT@), listed),
            forall|tf: Seq<HostCall>, rr: Result<Option<Seq<char>>, HostApiError>|
                grew(host.trace(), tf) && #[trigger] scan_answer(tf, host.trace().len() as int, node_id, root_abs@, hv, entries@, i as int, taken as int, rr)
                ==> scan_answer(tf, start, node_id, root_abs@, hv, entries@, 0, 0, rr),
        decreases entries@.len() - i,
    {
        let ghost cur = host.trace();
        if entries[i].is_dir {
            let candidate = join(gamedir::GAME_PARENT, entries[i].name.as_str());
            let same_as_hint = match hint {
                Some(dir) => str_eq(candidate.as_str(), dir),
                None => false,
            };
            if same_as_hint {
                taken = taken + 1;
                proof {
                    assert forall|tf: Seq<HostCall>, rr: Result<Option<Seq<char>>, HostApiError>|
                        grew(host.trace(), tf) && #[trigger] scan_answer(tf, host.trace().len() as int, node_id, root_abs@, hv, entries@, i + 1, taken as int, rr)
                        implies scan_answer(tf, start, node_id, root_abs@, hv, entries@, 0, 0, rr) by {
                        assert(scan_answer(tf, cur.len() as int, node_id, root_abs@, hv, entries@, i as int, taken - 1, rr));
                    }
                }
            } else {
                let found = has_gameinfo(host, node_id, root_abs, candidate.as_str());
                let ghost after = host.trace();
                proof {
                    lemma_reads_only_trans(t0, cur, after);
                    crate::host_api::lemma_no_fetch_trans(t0, cur, after);
                    crate::host_api::lemma_grew_trans(ts, cur, after);
                    assert(candidate@ == join_spec(gamedir::GAME_PARENT@, entries@[i as int].name@));
                }
                match found {
                    Ok(true) => {
                        proof {
                            assert(scan_answer(after, cur.len() as int, node_id, root_abs@, hv, entries@, i as int, taken as int,
                                Ok(Some(candidate@))));
                            assert(after[start - 1] == ts[start - 1]);
                        }
                        return Ok(Some(candidate));
                    },
                    Ok(false) => {},
                    Err(h) => {
                        proof {
                            assert(scan_answer(after, cur.len() as int, node_id, root_abs@, hv, entries@, i as int, taken as int, Err(h)));
                            assert(after[start - 1] == ts[start - 1]);
                        }
                        return Err(h);
                    },
                }
                taken = taken + 1;
                proof {
                    assert forall|tf: Seq<HostCall>, rr: Result<Option<Seq<char>>, HostApiError>|
                        grew(after, tf) && #[trigger] scan_answer(tf, after.len() as int, node_id, root_abs@, hv, entries@, i + 1, taken as int, rr)
                        implies scan_answer(tf, start, node_id, root_abs@, hv, entries@, 0, 0, rr) by {
                        crate::host_api::lemma_grew_trans(cur, after, tf);
                        assert(tf[cur.len() as int] == after[cur.len() as int]);
                        assert(scan_answer(tf, cur.len() as int, node_id, root_abs@, hv, entries@, i as int, taken - 1, rr));
                    }
                }
            }
        } else {
            proof {
                assert forall|tf: Seq<HostCall>, rr: Result<Option<Seq<char>>, HostApiError>|
                    grew(host.trace(), tf) && #[trigger] scan_answer(tf, host.trace().len() as int, node_id, root_abs@, hv, entries@, i + 1, taken as int, rr)
                    implies scan_answer(tf, start, node_id, root_abs@, hv, entries@, 0, 0, rr) by {
                    assert(scan_answer(tf, cur.len() as int, node_id, root_abs@, hv, entries@, i as int, taken as int, rr));
                }
            }
        }
        i = i + 1;
    }
    proof {
        let t = host.trace();
        assert(scan_answer(t, t.len() as int, node_id, root_abs@, hv, entries@, i as int, taken as int, Ok(None)));
        assert(t[start - 1] == ts[start - 1]);
    }
    Ok(None)
}

/// The game dir inside the server root: the known one for the game code when
/// it holds gameinfo.gi, else the first of up to [`GAME_DIR_SCAN_CAP`]
/// folders under `game/` that does.
fn resolve_game_dir<H: HostApi>(host: &mut H, node_id: u64, root_abs: &str, game_code: &str) -> (r: Result<Option<String>, HostApiError>)
    ensures
        reads_only(old(host).trace(), final(host).trace()),
        no_fetch(old(host).trace(), final(host).trace()),
        game_dir_answer(final(host).trace(), old(host).trace().len() as int, node_id, root_abs@, game_code@, dir_view(r)),
        r matches Ok(Some(d)) ==> known_dir_spec(game_code@) == Some(d@)
            || exists|name: Seq<char>| d@ == join_spec(gamedir::GAME_PARENT@, name),
{
    let ghost t0 = host.trace();
    let hint = gamedir::known_game_dir(game_code);
    match hint {
        Some(dir) => {
            let found = has_gameinfo(host, node_id, root_abs, dir);
            match found {
                Ok(true) => return Ok(Some(dir.to_owned())),
                Ok(false) => {},
                Err(h) => return Err(h),
            }
        },
        None => {},
    }
    let ghost tl = host.trace();
    let r = scan_game(host, node_id, root_abs, hint);
    proof {
        let t = host.trace();
        lemma_reads_only_trans(t0, tl, t);
        crate::host_api::lemma_no_fetch_trans(t0, tl, t);
        if hint is Some {
            assert(t[t0.len() as int] == tl[t0.len() as int]);
        }
        assert(hint_view(hint) == known_dir_spec(game_code@));
    }
    r
}

fn has_gameinfo<H: HostApi>(host: &mut H, node_id: u64, root_abs: &str, dir: &str) -> (r: Result<bool, HostApiError>)
    ensures
        reads_only(old(host).trace(), final(host).trace()),
        no_fetch(old(host).trace(), final(host).trace()),
        final(host).trace().len() == old(host).trace().len() + 1,
        exists|a: Result<Option<crate::host_api::FileStat>, HostApiError>| {
            &&& final(host).trace() == old(host).trace().push(
                HostCall::Stat(node_id, join_spec(join_spec(root_abs@, dir@), crate::source2::GAMEINFO_FILE@), a))
            &&& r == #[trigger] crate::handlers::stat_file(a)
        },
{
    let gameinfo = join(join(root_abs, dir).as_str(), crate::source2::GAMEINFO_FILE);
    let a = host.stat(node_id, gameinfo.as_str());
    let ghost ga = a;
    let r = match a {
        Ok(Some(s)) => Ok(!s.is_dir),
        Ok(None) => Ok(false),
        Err(e) => Err(e),
    };
    assert(r == crate::handlers::stat_file(ga));
    r
}

/// A plugin folder name a request may use: one safe path component, and
/// not the disabled-plugins folder itself.
pub open spec fn valid_plugin_name(name: Seq<char>) -> bool {
    valid_file_name(name) && !eq_ic(name, "disabled"@)
}

/// Validates a plugin folder name coming from a request; 400 when unfit.
pub fn sanitize_plugin_name(name: &str) -> (r: Result<(), ApiError>)
    ensures
        r is Ok <==> valid_plugin_name(name@),
        r matches Err(e) ==> e.status == 400,
{
    match sanitize_file_name(name) {
        Ok(()) => {},
        Err(message) => return Err(ApiError::bad_request(message)),
    }
    let v = chars_of(name);
    let disabled = chars_of(crate::source2::DISABLED_DIR_NAME);
    proof {
        reveal_strlit("disabled");
    }
    if eq_ignore_case(v.as_slice(), disabled.as_slice()) {
        return Err(ApiError::bad_request(String::from_str("the disabled folder itself is not a plugin")));
    }
    Ok(())
}

} // verus!
