//! GET /servers/{id}/doctor: every cheap server-side health check in one
//! pass. The frontend adds its own checks (RCON reachability, -usercon in
//! the launch command) on top.

use vstd::prelude::*;

use crate::handlers::ctx::{lemma_route_failed, param_id, resolve_answers, resolved_at, route_failed, ServerCtx};
use crate::handlers::state::contains_ic;
use crate::handlers::{css_disabled_abs, css_plugins_abs, host_failure, is_dir_at, is_file_at, read_manifest, stat_dir, stat_file};
use crate::json::json_text;
use crate::source2::paths::join_spec;
use crate::host_api::{calls_since, grew, lemma_reads_only_trans, reads_only, DirEntry, HostApi, HostApiError, HostCall};
use crate::http::{json_response, ApiError, ApiResult};
use crate::json::Json;
use crate::model::{DoctorCheck, DoctorResponse};
use crate::source2;
use crate::source2::gameinfo;
use crate::source2::paths::join;
use crate::source2::vdf;
use crate::text::{cat, cat3, chars_of, ends_with, eq_ic, eq_ignore_case, has_suffix, lower_seq, str_eq, string_of, sub_chars, to_lower, u64_text};

verus! {

pub fn check(id: &str, status: &str, detail: String) -> (c: DoctorCheck)
    ensures
        c.id@ == id@,
        c.status@ == status@,
        c.detail == detail,
{
    DoctorCheck { id: id.to_owned(), status: status.to_owned(), detail }
}

pub fn ok(id: &str, detail: String) -> (c: DoctorCheck)
    ensures
        c.id@ == id@,
        c.status@ == "ok"@,
        c.detail == detail,
{
    check(id, "ok", detail)
}

pub fn warn(id: &str, detail: String) -> (c: DoctorCheck)
    ensures
        c.id@ == id@,
        c.status@ == "warn"@,
        c.detail == detail,
{
    check(id, "warn", detail)
}

pub fn fail(id: &str, detail: String) -> (c: DoctorCheck)
    ensures
        c.id@ == id@,
        c.status@ == "fail"@,
        c.detail == detail,
{
    check(id, "fail", detail)
}

/// The texts of `items` joined with `sep` between neighbours.
pub open spec fn joined(items: Seq<String>, sep: Seq<char>) -> Seq<char>
    decreases items.len(),
{
    if items.len() == 0 {
        Seq::empty()
    } else if items.len() == 1 {
        items[0]@
    } else {
        joined(items.drop_last(), sep) + sep + items.last()@
    }
}

/// `items` joined with `sep`.
pub fn join_all(items: &Vec<String>, sep: &str) -> (s: String)
    ensures
        s@ == joined(items@, sep@),
{
    let mut out = String::new();
    let mut i: usize = 0;
    while i < items.len()
        invariant
            i <= items@.len(),
            out@ == joined(items@.take(i as int), sep@),
        decreases items@.len() - i,
    {
        proof {
            assert(items@.take(i + 1).drop_last() =~= items@.take(i as int));
        }
        if i > 0 {
            out = cat(out.as_str(), sep);
        }
        out = cat(out.as_str(), items[i].as_str());
        proof {
            if i == 0 {
                assert(out@ =~= items@[0]@);
            }
        }
        i = i + 1;
    }
    assert(items@.take(items@.len() as int) =~= items@);
    out
}

/// The folder names of a directory listing, in listing order (without the
/// disabled folder when `skip_disabled_dir`).
pub open spec fn dir_names(entries: Seq<DirEntry>, skip_disabled_dir: bool) -> Seq<Seq<char>>
    decreases entries.len(),
{
    if entries.len() == 0 {
        Seq::empty()
    } else {
        let init = dir_names(entries.drop_last(), skip_disabled_dir);
        let e = entries.last();
        if e.is_dir && !(skip_disabled_dir && eq_ic(e.name@, source2::DISABLED_DIR_NAME@)) {
            init.push(e.name@)
        } else {
            init
        }
    }
}

/// Names of the folders directly inside `dir_abs` (without the disabled
/// folder when `skip_disabled_dir`).
pub fn folder_names<H: HostApi>(host: &mut H, node_id: u64, dir_abs: &str, skip_disabled_dir: bool) -> (r: Result<Vec<String>, HostApiError>)
    ensures
        r matches Ok(names) ==> skip_disabled_dir ==> forall|i: int| 0 <= i < names@.len()
            ==> !eq_ic(#[trigger] names@[i]@, source2::DISABLED_DIR_NAME@),
        r matches Ok(names) ==> exists|listing: Seq<DirEntry>|
            names@.map_values(|n: String| n@) == #[trigger] dir_names(listing, skip_disabled_dir),
    reads_only(old(host).trace(), final(host).trace()),
        final(host).trace().len() == old(host).trace().len() + 1,
        final(host).trace().last() matches HostCall::ReadDir(n, p, a) && n == node_id && p == dir_abs@
            && (r matches Ok(names) ==> a is Ok && names@.map_values(|x: String| x@) == dir_names(listing_of(a), skip_disabled_dir)),
{
    let listed = host.read_dir(node_id, dir_abs);
    let entries = match listed {
        Ok(l) => l,
        Err(h) => return Err(h),
    };
    let entries = match entries {
        Some(e) => e,
        None => {
            let v: Vec<String> = Vec::new();
            assert(v@.map_values(|n: String| n@) =~= dir_names(Seq::<DirEntry>::empty(), skip_disabled_dir));
            return Ok(v);
        },
    };
    let disabled = chars_of(source2::DISABLED_DIR_NAME);
    let mut names: Vec<String> = Vec::new();
    let mut i: usize = 0;
    assert(entries@.take(0) =~= Seq::<DirEntry>::empty());
    assert(names@.map_values(|n: String| n@) =~= dir_names(entries@.take(0), skip_disabled_dir));
    while i < entries.len()
        invariant
            i <= entries@.len(),
            disabled@ == source2::DISABLED_DIR_NAME@,
            skip_disabled_dir ==> forall|j: int| 0 <= j < names@.len() ==> !eq_ic(#[trigger] names@[j]@, source2::DISABLED_DIR_NAME@),
            names@.map_values(|n: String| n@) == dir_names(entries@.take(i as int), skip_disabled_dir),
        decreases entries@.len() - i,
    {
        assert(entries@.take(i + 1).drop_last() =~= entries@.take(i as int));
        assert(entries@.take(i + 1).last() == entries@[i as int]);
        let ghost before = names@;
        if entries[i].is_dir
            && !(skip_disabled_dir && eq_ignore_case(chars_of(entries[i].name.as_str()).as_slice(), disabled.as_slice())) {
            names.push(entries[i].name.clone());
            assert(names@.map_values(|n: String| n@) =~= before.map_values(|n: String| n@).push(entries@[i as int].name@));
        }
        i = i + 1;
    }
    assert(entries@.take(entries@.len() as int) =~= entries@);
    Ok(names)
}

/// The folders CounterStrikeSharp itself keeps in its directory.
pub open spec fn css_own_dirs() -> Seq<Seq<char>> {
    seq!["plugins"@, "shared"@, "configs"@, "gamedata"@, "api"@, "bin"@, "dotnet"@, "logs"@, "backups"@]
}

/// Whether `name` is, up to ASCII case, one of CounterStrikeSharp's own
/// folders.
pub fn is_css_own_dir(name: &str) -> (b: bool)
    ensures
        b == css_own_dirs().contains(lower_seq(name@)),
{
    let lower = to_lower(chars_of(name).as_slice());
    let own: Vec<&'static str> = vec!["plugins", "shared", "configs", "gamedata", "api", "bin", "dotnet", "logs", "backups"];
    assert(own@.len() == 9);
    assert forall|j: int| 0 <= j < 9 implies (#[trigger] own@[j])@ == css_own_dirs()[j] by {}
    let mut k: usize = 0;
    while k < own.len()
        invariant
            k <= own@.len(),
            own@.len() == css_own_dirs().len(),
            forall|j: int| 0 <= j < own@.len() ==> (#[trigger] own@[j])@ == css_own_dirs()[j],
            lower@ == lower_seq(name@),
            forall|j: int| 0 <= j < k ==> css_own_dirs()[j] != lower@,
        decreases own@.len() - k,
    {
        if crate::text::seq_eq(lower.as_slice(), chars_of(own[k]).as_slice()) {
            assert(css_own_dirs()[k as int] == lower@);
            return true;
        }
        k = k + 1;
    }
    false
}

/// The folders of a listing that are not CounterStrikeSharp's own, in
/// listing order: where a plugin unpacked one level too high would sit.
pub open spec fn stray_candidates(names: Seq<Seq<char>>) -> Seq<Seq<char>>
    decreases names.len(),
{
    if names.len() == 0 {
        Seq::empty()
    } else {
        let rest = stray_candidates(names.drop_last());
        if css_own_dirs().contains(lower_seq(names.last())) {
            rest
        } else {
            rest.push(names.last())
        }
    }
}

/// The folders among `names` whose dll probe (call `k` onwards of `t`)
/// found a file, in order.
pub open spec fn found_dlls(t: Seq<HostCall>, k: int, names: Seq<Seq<char>>) -> Seq<Seq<char>>
    decreases names.len(),
{
    if names.len() == 0 {
        Seq::empty()
    } else {
        found_dlls(t, k, names.drop_last()) + if (t[k + names.len() - 1] matches HostCall::Stat(_, _, a)
            && stat_file(a) == Ok::<bool, HostApiError>(true)) {
            seq![names.last()]
        } else {
            Seq::empty()
        }
    }
}

/// The found dlls read off calls that stay as more are appended.
pub proof fn lemma_found_dlls_grow(t: Seq<HostCall>, u: Seq<HostCall>, k: int, names: Seq<Seq<char>>)
    requires
        0 <= k,
        k + names.len() <= t.len(),
        grew(t, u),
    ensures
        found_dlls(u, k, names) == found_dlls(t, k, names),
    decreases names.len(),
{
    if names.len() > 0 {
        lemma_found_dlls_grow(t, u, k, names.drop_last());
        assert(u[k + names.len() - 1] == t[k + names.len() - 1]);
    }
}

/// The stray check's detail for the stray folders `names`.
pub open spec fn stray_text(names: Seq<String>) -> Seq<char> {
    if names.len() == 0 {
        "no plugin folder outside plugins/"@
    } else {
        "plugin folders outside plugins/, which CounterStrikeSharp never loads: "@ + joined(names, ", "@)
            + " - move them into plugins/"@
    }
}

/// The stray check `c` follows from `listing` of the CounterStrikeSharp
/// dir and the dll probes from call `k` of `t` on: it fails, naming them,
/// exactly when some folder that is not CounterStrikeSharp's own holds
/// `<Name>/<Name>.dll`.
pub open spec fn stray_from(t: Seq<HostCall>, k: int, node: u64, css: Seq<char>, listing: Seq<DirEntry>, c: DoctorCheck) -> bool {
    let cands = stray_candidates(dir_names(listing, false));
    let found = found_dlls(t, k, cands);
    &&& k + cands.len() <= t.len()
    &&& dll_probes(t, k, node, css, cands)
    &&& c.id@ == "stray"@
    &&& c.status@ == (if found.len() == 0 { "ok"@ } else { "fail"@ })
    &&& exists|names: Seq<String>| names.map_values(|x: String| x@) == found && c.detail@ == stray_text(names)
}

/// Call `k` of `t` listed the CounterStrikeSharp dir and the calls after it
/// probed the stray candidates, giving the stray check `c`.
pub open spec fn stray_observed(t: Seq<HostCall>, k: int, node: u64, css: Seq<char>, c: DoctorCheck) -> bool {
    &&& 0 <= k < t.len()
    &&& t[k] matches HostCall::ReadDir(n, p, a) && n == node && p == css && a is Ok
        && stray_from(t, k + 1, node, css, listing_of(a), c)
}

/// A stray check observed stays observed as calls are appended.
pub proof fn lemma_stray_grows(t: Seq<HostCall>, u: Seq<HostCall>, k: int, node: u64, css: Seq<char>, c: DoctorCheck)
    requires
        stray_observed(t, k, node, css, c),
        grew(t, u),
    ensures
        stray_observed(u, k, node, css, c),
{
    assert(u[k] == t[k]);
    if let HostCall::ReadDir(n, p, a) = t[k] {
        let cands = stray_candidates(dir_names(listing_of(a), false));
        lemma_found_dlls_grow(t, u, k + 1, cands);
        lemma_probes_grow(t, u, k + 1, node, css, cands);
    }
}

/// Plugin folders unpacked one level too high: `<Name>/<Name>.dll` directly
/// in the CounterStrikeSharp dir, where nothing loads them.
pub fn stray_check<H: HostApi>(host: &mut H, node_id: u64, css_abs: &str) -> (r: Result<DoctorCheck, HostApiError>)
    ensures
        r matches Ok(c) ==> stray_observed(final(host).trace(), old(host).trace().len() as int, node_id, css_abs@, c),
        reads_only(old(host).trace(), final(host).trace()),
{
    let ghost t0 = host.trace();
    let names = folder_names(host, node_id, css_abs, false)?;
    let ghost t1 = host.trace();
    let ghost k1 = t1.len() as int;
    let ghost nv = names@.map_values(|n: String| n@);
    let ghost listing = match t1.last() {
        HostCall::ReadDir(_, _, a) => listing_of(a),
        _ => Seq::<DirEntry>::empty(),
    };
    assert(nv == dir_names(listing, false));
    let mut stray: Vec<String> = Vec::new();
    let mut i: usize = 0;
    assert(nv.take(0) =~= Seq::<Seq<char>>::empty());
    assert(stray@.map_values(|n: String| n@) =~= found_dlls(t1, k1, stray_candidates(nv.take(0))));
    while i < names.len()
        invariant
            i <= names@.len(),
            t0 == old(host).trace(),
            reads_only(t0, host.trace()),
            grew(t1, host.trace()),
            k1 == t1.len(),
            k1 == t0.len() + 1,
            nv == names@.map_values(|n: String| n@),
            host.trace().len() == k1 + stray_candidates(nv.take(i as int)).len(),
            dll_probes(host.trace(), k1, node_id, css_abs@, stray_candidates(nv.take(i as int))),
            stray@.map_values(|n: String| n@) == found_dlls(host.trace(), k1, stray_candidates(nv.take(i as int))),
        decreases names@.len() - i,
    {
        let ghost c0 = stray_candidates(nv.take(i as int));
        proof {
            assert(nv.take(i + 1).drop_last() =~= nv.take(i as int));
            assert(nv.take(i + 1).last() == nv[i as int]);
            assert(nv[i as int] == names@[i as int]@);
        }
        if !is_css_own_dir(names[i].as_str()) {
            let dll = join(join(css_abs, names[i].as_str()).as_str(), cat(names[i].as_str(), ".dll").as_str());
            let ghost tp = host.trace();
            let present = is_file_at(host, node_id, dll.as_str());
            proof {
                lemma_reads_only_trans(t0, tp, host.trace());
                crate::host_api::lemma_grew_trans(t1, tp, host.trace());
            }
            let present = match present {
                Ok(b) => b,
                Err(e) => return Err(e),
            };
            let ghost before = stray@;
            proof {
                let t = host.trace();
                let c1 = stray_candidates(nv.take(i + 1));
                assert(c1 == c0.push(nv[i as int]));
                assert(c1.drop_last() =~= c0);
                reveal_strlit(".dll");
                assert(dll@ == dll_path(css_abs@, nv[i as int]));
                lemma_found_dlls_grow(tp, t, k1, c0);
                let a = choose|a: Result<Option<crate::host_api::FileStat>, HostApiError>|
                    t == tp.push(HostCall::Stat(node_id, dll@, a)) && Ok::<bool, HostApiError>(present) == #[trigger] stat_file(a);
                assert(t[k1 + c0.len()] == HostCall::Stat(node_id, dll@, a));
                assert forall|q: int| 0 <= q < c1.len() implies ((#[trigger] t[k1 + q]) matches HostCall::Stat(n, p, a)
                    && n == node_id && p == dll_path(css_abs@, c1[q]) && a is Ok) by {
                    if q < c0.len() {
                        assert(t[k1 + q] == tp[k1 + q]);
                        assert(c1[q] == c0[q]);
                    }
                }
            }
            if present {
                stray.push(names[i].clone());
                proof {
                    assert(stray@.map_values(|n: String| n@) =~= before.map_values(|n: String| n@).push(nv[i as int]));
                }
            } else {
                proof {
                    assert(stray@.map_values(|n: String| n@) =~= before.map_values(|n: String| n@) + Seq::<Seq<char>>::empty());
                }
            }
        } else {
            proof {
                assert(stray_candidates(nv.take(i + 1)) == c0);
            }
        }
        i = i + 1;
    }
    proof {
        assert(nv.take(nv.len() as int) =~= nv);
        assert(host.trace()[t0.len() as int] == t1.last());
    }
    let detail = if stray.len() == 0 {
        String::from_str("no plugin folder outside plugins/")
    } else {
        cat3(
            "plugin folders outside plugins/, which CounterStrikeSharp never loads: ",
            join_all(&stray, ", ").as_str(),
            " - move them into plugins/",
        )
    };
    proof {
        assert(stray@.map_values(|x: String| x@).len() == stray@.len());
        assert(detail@ == stray_text(stray@));
    }
    if stray.len() == 0 {
        Ok(ok("stray", detail))
    } else {
        Ok(fail("stray", detail))
    }
}

/// A file entry whose name ends in `.dll`, ignoring case.
pub open spec fn is_dll_entry(e: DirEntry) -> bool {
    !e.is_dir && has_suffix(lower_seq(e.name@), ".dll"@)
}

/// The name of the first dll file of a listing.
pub open spec fn first_dll(es: Seq<DirEntry>) -> Option<Seq<char>>
    decreases es.len(),
{
    if es.len() == 0 {
        None
    } else if is_dll_entry(es[0]) {
        Some(es[0].name@)
    } else {
        first_dll(es.drop_first())
    }
}

/// A file name without its last four characters (its extension).
pub open spec fn dll_stem(name: Seq<char>) -> Seq<char> {
    if name.len() >= 4 {
        name.subrange(0, name.len() - 4)
    } else {
        name
    }
}

/// The problem the shared check names for folder `n` holding dll `d`.
pub open spec fn shared_problem(n: Seq<char>, d: Seq<char>) -> Seq<char> {
    "shared/"@ + n + " holds "@ + d + " - rename the folder to "@ + dll_stem(d)
}

/// The entries a listing call was answered with.
pub open spec fn dir_answer(c: HostCall) -> Seq<DirEntry> {
    match c {
        HostCall::ReadDir(_, _, b) => listing_of(b),
        _ => Seq::empty(),
    }
}

/// How many calls the shared check spends on the folder whose calls start
/// at `j`: one probe of its own dll, and a listing when that found nothing.
pub open spec fn shared_step_len(t: Seq<HostCall>, j: int) -> int {
    if t[j] matches HostCall::Stat(_, _, a) && stat_file(a) == Ok::<bool, HostApiError>(true) {
        1
    } else {
        2
    }
}

/// The calls the shared check spends on `names`, from call `k` of `t` on.
pub open spec fn shared_calls(t: Seq<HostCall>, k: int, names: Seq<Seq<char>>) -> int
    decreases names.len(),
{
    if names.len() == 0 {
        0
    } else {
        let c = shared_calls(t, k, names.drop_last());
        c + shared_step_len(t, k + c)
    }
}

/// The calls from `j` on are those the shared check makes for folder `n`
/// of `sh`, all answered.
pub open spec fn shared_step_ok(t: Seq<HostCall>, j: int, node: u64, sh: Seq<char>, n: Seq<char>) -> bool {
    &&& 0 <= j && j + shared_step_len(t, j) <= t.len()
    &&& t[j] matches HostCall::Stat(nn, p, a) && nn == node && p == dll_path(sh, n) && a is Ok
    &&& shared_step_len(t, j) == 2 ==> (t[j + 1] matches HostCall::ReadDir(nn, p, b) && nn == node
        && p == join_spec(sh, n) && b is Ok)
}

/// The calls from `k` on are the shared check's for each of `names`.
pub open spec fn shared_probes(t: Seq<HostCall>, k: int, node: u64, sh: Seq<char>, names: Seq<Seq<char>>) -> bool
    decreases names.len(),
{
    if names.len() == 0 {
        0 <= k <= t.len()
    } else {
        &&& shared_probes(t, k, node, sh, names.drop_last())
        &&& shared_step_ok(t, k + shared_calls(t, k, names.drop_last()), node, sh, names.last())
    }
}

/// The problems the shared check reads off its calls from `k` on: each
/// folder without its own dll whose listing holds a dll, naming the first.
pub open spec fn shared_problems(t: Seq<HostCall>, k: int, names: Seq<Seq<char>>) -> Seq<Seq<char>>
    decreases names.len(),
{
    if names.len() == 0 {
        Seq::empty()
    } else {
        let j = k + shared_calls(t, k, names.drop_last());
        shared_problems(t, k, names.drop_last()) + if shared_step_len(t, j) == 2 {
            match first_dll(dir_answer(t[j + 1])) {
                Some(d) => seq![shared_problem(names.last(), d)],
                None => Seq::empty(),
            }
        } else {
            Seq::empty()
        }
    }
}

/// What the shared check read stays as calls are appended.
pub proof fn lemma_shared_grows(t: Seq<HostCall>, u: Seq<HostCall>, k: int, node: u64, sh: Seq<char>, names: Seq<Seq<char>>)
    requires
        shared_probes(t, k, node, sh, names),
        grew(t, u),
    ensures
        shared_probes(u, k, node, sh, names),
        shared_calls(u, k, names) == shared_calls(t, k, names),
        shared_problems(u, k, names) == shared_problems(t, k, names),
        k + shared_calls(t, k, names) <= t.len(),
    decreases names.len(),
{
    if names.len() > 0 {
        lemma_shared_grows(t, u, k, node, sh, names.drop_last());
        let j = k + shared_calls(t, k, names.drop_last());
        assert(u[j] == t[j]);
        if shared_step_len(t, j) == 2 {
            assert(u[j + 1] == t[j + 1]);
        }
    }
}

/// The shared check's detail for the problems `ps`.
pub open spec fn shared_text(ps: Seq<String>) -> Seq<char> {
    if ps.len() == 0 {
        "every shared assembly sits in a folder of its own name"@
    } else {
        joined(ps, "; "@)
    }
}

/// The shared check `c` follows from `listing` of `shared/` and the calls
/// from `k` of `t` on: it warns, naming them, exactly when some folder
/// lacks `<Name>/<Name>.dll` but holds another dll.
pub open spec fn shared_from(t: Seq<HostCall>, k: int, node: u64, sh: Seq<char>, listing: Seq<DirEntry>, c: DoctorCheck) -> bool {
    let names = dir_names(listing, false);
    let ps = shared_problems(t, k, names);
    &&& shared_probes(t, k, node, sh, names)
    &&& c.id@ == "shared"@
    &&& c.status@ == (if ps.len() == 0 { "ok"@ } else { "warn"@ })
    &&& exists|texts: Seq<String>| texts.map_values(|x: String| x@) == ps && c.detail@ == shared_text(texts)
}

/// Call `k` of `t` listed `<css>/shared` and the calls after it are the
/// shared check's, giving `c`.
pub open spec fn shared_observed(t: Seq<HostCall>, k: int, node: u64, css: Seq<char>, c: DoctorCheck) -> bool {
    &&& 0 <= k < t.len()
    &&& t[k] matches HostCall::ReadDir(n, p, a) && n == node && p == join_spec(css, "shared"@) && a is Ok
        && shared_from(t, k + 1, node, join_spec(css, "shared"@), listing_of(a), c)
}

/// A shared check observed stays observed as calls are appended.
pub proof fn lemma_shared_observed_grows(t: Seq<HostCall>, u: Seq<HostCall>, k: int, node: u64, css: Seq<char>, c: DoctorCheck)
    requires
        shared_observed(t, k, node, css, c),
        grew(t, u),
    ensures
        shared_observed(u, k, node, css, c),
{
    assert(u[k] == t[k]);
    if let HostCall::ReadDir(n, p, a) = t[k] {
        lemma_shared_grows(t, u, k + 1, node, join_spec(css, "shared"@), dir_names(listing_of(a), false));
    }
}

/// The first dll file among `files`, by a front-to-back scan.
fn find_first_dll(files: &Vec<DirEntry>) -> (found: Option<String>)
    ensures
        match found {
            Some(d) => first_dll(files@) == Some(d@),
            None => first_dll(files@) is None,
        },
{
    let dll_ext = chars_of(".dll");
    let mut k: usize = 0;
    let mut found: Option<String> = None;
    proof { reveal_strlit(".dll"); }
    assert(files@.skip(0) =~= files@);
    while k < files.len() && found.is_none()
        invariant
            k <= files@.len(),
            dll_ext@ == ".dll"@,
            found is None ==> first_dll(files@) == first_dll(files@.skip(k as int)),
            found matches Some(d) ==> first_dll(files@) == Some(d@),
        decreases files@.len() - k,
    {
        let lower = to_lower(chars_of(files[k].name.as_str()).as_slice());
        proof {
            assert(files@.skip(k as int)[0] == files@[k as int]);
            assert(files@.skip(k as int).drop_first() =~= files@.skip(k + 1));
        }
        if !files[k].is_dir && ends_with(lower.as_slice(), dll_ext.as_slice()) {
            found = Some(files[k].name.clone());
        }
        k = k + 1;
    }
    proof {
        if found is None {
            assert(files@.skip(k as int) =~= Seq::<DirEntry>::empty());
        }
    }
    found
}

/// Shared-assembly folders whose dll does not carry the folder's name: the
/// loader resolves `shared/<Name>/<Name>.dll` only.
#[verifier::rlimit(60)]
pub fn shared_check<H: HostApi>(host: &mut H, node_id: u64, css_abs: &str) -> (r: Result<DoctorCheck, HostApiError>)
    ensures
        r matches Ok(c) ==> shared_observed(final(host).trace(), old(host).trace().len() as int, node_id, css_abs@, c),
        reads_only(old(host).trace(), final(host).trace()),
{
    let ghost t0 = host.trace();
    let shared_abs = join(css_abs, "shared");
    let names = folder_names(host, node_id, shared_abs.as_str(), false)?;
    let ghost t1 = host.trace();
    let ghost k1 = t1.len() as int;
    let ghost nv = names@.map_values(|n: String| n@);
    let ghost sh = shared_abs@;
    let ghost listing = dir_answer(t1.last());
    assert(nv == dir_names(listing, false));
    let mut problems: Vec<String> = Vec::new();
    let mut i: usize = 0;
    assert(nv.take(0) =~= Seq::<Seq<char>>::empty());
    assert(problems@.map_values(|n: String| n@) =~= shared_problems(t1, k1, nv.take(0)));
    while i < names.len()
        invariant
            i <= names@.len(),
            t0 == old(host).trace(),
            reads_only(t0, host.trace()),
            grew(t1, host.trace()),
            k1 == t1.len(),
            k1 == t0.len() + 1,
            sh == shared_abs@,
            nv == names@.map_values(|n: String| n@),
            host.trace().len() == k1 + shared_calls(host.trace(), k1, nv.take(i as int)),
            shared_probes(host.trace(), k1, node_id, sh, nv.take(i as int)),
            problems@.map_values(|n: String| n@) == shared_problems(host.trace(), k1, nv.take(i as int)),
        decreases names@.len() - i,
    {
        let ghost tp = host.trace();
        let ghost c0 = shared_calls(tp, k1, nv.take(i as int));
        let ghost before = problems@;
        proof {
            assert(nv.take(i + 1).drop_last() =~= nv.take(i as int));
            assert(nv.take(i + 1).last() == nv[i as int]);
            assert(nv[i as int] == names@[i as int]@);
        }
        let folder_abs = join(shared_abs.as_str(), names[i].as_str());
        let own = join(folder_abs.as_str(), cat(names[i].as_str(), ".dll").as_str());
        let own_present = is_file_at(host, node_id, own.as_str());
        proof {
            lemma_reads_only_trans(t0, tp, host.trace());
            crate::host_api::lemma_grew_trans(t1, tp, host.trace());
            lemma_shared_grows(tp, host.trace(), k1, node_id, sh, nv.take(i as int));
        }
        let own_present = match own_present {
            Ok(b) => b,
            Err(e) => return Err(e),
        };
        let ghost ts = host.trace();
        proof {
            reveal_strlit(".dll");
            assert(own@ == dll_path(sh, nv[i as int]));
            let a = choose|a: Result<Option<crate::host_api::FileStat>, HostApiError>|
                ts == tp.push(HostCall::Stat(node_id, own@, a)) && Ok::<bool, HostApiError>(own_present) == #[trigger] stat_file(a);
            assert(ts[k1 + c0] == HostCall::Stat(node_id, own@, a));
        }
        if !own_present {
            let listing_r = host.read_dir(node_id, folder_abs.as_str());
            proof {
                lemma_reads_only_trans(t0, ts, host.trace());
                crate::host_api::lemma_grew_trans(t1, ts, host.trace());
                lemma_shared_grows(ts, host.trace(), k1, node_id, sh, nv.take(i as int));
            }
            let listing_o = match listing_r {
                Ok(l) => l,
                Err(e) => return Err(e),
            };
            let ghost t = host.trace();
            proof {
                assert(t[k1 + c0] == ts[k1 + c0]);
                assert(shared_step_len(t, k1 + c0) == 2);
                assert(t[k1 + c0 + 1] == HostCall::ReadDir(node_id, folder_abs@, Ok::<Option<Vec<DirEntry>>, HostApiError>(listing_o)));
            }
            match listing_o {
                Some(files) => {
                    let found = find_first_dll(&files);
                    match found {
                        Some(dll) => {
                            let v = chars_of(dll.as_str());
                            let stem = if v.len() >= 4 { string_of(sub_chars(v.as_slice(), 0, v.len() - 4).as_slice()) } else { dll.clone() };
                            let item = cat3(
                                cat3("shared/", names[i].as_str(), " holds ").as_str(),
                                dll.as_str(),
                                cat(" - rename the folder to ", stem.as_str()).as_str(),
                            );
                            proof {
                                assert(stem@ == dll_stem(dll@));
                                assert(item@ =~= shared_problem(nv[i as int], dll@));
                            }
                            problems.push(item);
                            proof {
                                assert(problems@.map_values(|n: String| n@) =~= before.map_values(|n: String| n@)
                                    .push(shared_problem(nv[i as int], dll@)));
                            }
                        },
                        None => {
                            proof {
                                assert(problems@.map_values(|n: String| n@) =~= before.map_values(|n: String| n@) + Seq::<Seq<char>>::empty());
                            }
                        },
                    }
                },
                None => {
                    proof {
                        assert(dir_answer(t[k1 + c0 + 1]) =~= Seq::<DirEntry>::empty());
                        assert(problems@.map_values(|n: String| n@) =~= before.map_values(|n: String| n@) + Seq::<Seq<char>>::empty());
                    }
                },
            }
        } else {
            proof {
                assert(shared_step_len(ts, k1 + c0) == 1);
                assert(problems@.map_values(|n: String| n@) =~= before.map_values(|n: String| n@) + Seq::<Seq<char>>::empty());
            }
        }
        i = i + 1;
    }
    proof {
        assert(nv.take(nv.len() as int) =~= nv);
        assert(host.trace()[t0.len() as int] == t1.last());
    }
    let detail = if problems.len() == 0 {
        String::from_str("every shared assembly sits in a folder of its own name")
    } else {
        join_all(&problems, "; ")
    };
    proof {
        assert(problems@.map_values(|x: String| x@).len() == problems@.len());
        assert(detail@ == shared_text(problems@));
    }
    if problems.len() == 0 {
        Ok(ok("shared", detail))
    } else {
        Ok(warn("shared", detail))
    }
}

/// The lowercased names of a run of aliases.
pub open spec fn lowers(v: Seq<vdf::VdfPlugin>) -> Seq<Seq<char>> {
    v.map_values(|p: vdf::VdfPlugin| lower_seq(p.name@))
}

/// The names of the aliases of `v` that repeat, up to ASCII case, an
/// earlier one; each name once, in order of first repetition.
pub open spec fn repeats(v: Seq<vdf::VdfPlugin>) -> Seq<Seq<char>>
    decreases v.len(),
{
    if v.len() == 0 {
        Seq::empty()
    } else {
        let rest = repeats(v.drop_last());
        if lowers(v.drop_last()).contains(lower_seq(v.last().name@)) && !rest.contains(v.last().name@) {
            rest.push(v.last().name@)
        } else {
            rest
        }
    }
}

/// Alias `j` of `v` has the name, up to ASCII case, of an earlier alias.
pub open spec fn repeated_at(v: Seq<vdf::VdfPlugin>, j: int) -> bool {
    exists|i: int| 0 <= i < j && lower_seq(#[trigger] v[i].name@) == lower_seq(v[j].name@)
}

/// `x` is the name of an alias of `v` that repeats an earlier one.
pub open spec fn repeating_name(v: Seq<vdf::VdfPlugin>, x: Seq<char>) -> bool {
    exists|j: int| 0 <= j < v.len() && #[trigger] repeated_at(v, j) && x == v[j].name@
}

/// The ambiguous aliases are exactly the names that occur more than once
/// up to ASCII case: every name reported repeats an earlier alias, every
/// repeating alias is reported, and no name is reported twice.
pub proof fn lemma_repeats_are_the_duplicates(v: Seq<vdf::VdfPlugin>)
    ensures
        forall|a: int| 0 <= a < repeats(v).len() ==> repeating_name(v, #[trigger] repeats(v)[a]),
        forall|j: int| 0 <= j < v.len() && repeated_at(v, j) ==> repeats(v).contains(#[trigger] v[j].name@),
        forall|a: int, b: int| 0 <= a < b < repeats(v).len() ==> repeats(v)[a] != repeats(v)[b],
    decreases v.len(),
{
    if v.len() > 0 {
        let w = v.drop_last();
        let n = v.len() - 1;
        lemma_repeats_are_the_duplicates(w);
        assert forall|i: int| 0 <= i < w.len() implies w[i] == v[i] by {}
        assert forall|j: int| 0 <= j < w.len() implies repeated_at(w, j) == repeated_at(v, j) by {
            if repeated_at(v, j) {
                let i = choose|i: int| 0 <= i < j && lower_seq(#[trigger] v[i].name@) == lower_seq(v[j].name@);
                assert(w[i] == v[i]);
            }
            if repeated_at(w, j) {
                let i = choose|i: int| 0 <= i < j && lower_seq(#[trigger] w[i].name@) == lower_seq(w[j].name@);
                assert(w[i] == v[i]);
            }
        }
        let l = lower_seq(v.last().name@);
        assert(lowers(w).contains(l) == repeated_at(v, n)) by {
            if lowers(w).contains(l) {
                let i = choose|i: int| 0 <= i < lowers(w).len() && lowers(w)[i] == l;
                assert(lower_seq(v[i].name@) == l);
            }
            if repeated_at(v, n) {
                let i = choose|i: int| 0 <= i < n && lower_seq(#[trigger] v[i].name@) == lower_seq(v[n].name@);
                assert(lowers(w)[i] == lower_seq(w[i].name@));
            }
        }
        let r = repeats(w);
        if repeated_at(v, n) && !r.contains(v.last().name@) {
            assert(repeats(v) == r.push(v.last().name@));
            assert forall|a: int| 0 <= a < repeats(v).len() implies repeating_name(v, #[trigger] repeats(v)[a]) by {
                if a < r.len() {
                    assert(repeats(v)[a] == r[a]);
                    let j = choose|j: int| 0 <= j < w.len() && #[trigger] repeated_at(w, j) && r[a] == w[j].name@;
                    assert(repeated_at(v, j));
                    assert(w[j] == v[j]);
                    assert(0 <= j < v.len() && repeated_at(v, j) && repeats(v)[a] == v[j].name@);
                } else {
                    assert(repeats(v)[a] == v[n].name@);
                    assert(0 <= n < v.len() && repeated_at(v, n) && repeats(v)[a] == v[n].name@);
                }
            }
            assert forall|j: int| 0 <= j < v.len() && repeated_at(v, j) implies repeats(v).contains(#[trigger] v[j].name@) by {
                if j < n {
                    assert(repeated_at(w, j));
                    assert(r.contains(w[j].name@));
                    let a = choose|a: int| 0 <= a < r.len() && r[a] == w[j].name@;
                    assert(repeats(v)[a] == r[a]);
                } else {
                    assert(repeats(v)[r.len() as int] == v[j].name@);
                }
            }
            assert forall|a: int, b: int| 0 <= a < b < repeats(v).len() implies repeats(v)[a] != repeats(v)[b] by {
                if b < r.len() {
                    assert(repeats(v)[a] == r[a] && repeats(v)[b] == r[b]);
                } else {
                    assert(repeats(v)[a] == r[a]);
                }
            }
        } else {
            assert(repeats(v) == r);
            assert forall|a: int| 0 <= a < repeats(v).len() implies repeating_name(v, #[trigger] repeats(v)[a]) by {
                let j = choose|j: int| 0 <= j < w.len() && #[trigger] repeated_at(w, j) && r[a] == w[j].name@;
                assert(repeated_at(v, j));
                assert(w[j] == v[j]);
                assert(0 <= j < v.len() && repeated_at(v, j) && repeats(v)[a] == v[j].name@);
            }
            assert forall|j: int| 0 <= j < v.len() && repeated_at(v, j) implies repeats(v).contains(#[trigger] v[j].name@) by {
                if j < n {
                    assert(repeated_at(w, j));
                    assert(r.contains(w[j].name@));
                }
            }
        }
    }
}

/// The aliases whose name, up to ASCII case, came before: a vdf both live
/// and parked loads unpredictably.
#[verifier::rlimit(40)]
pub fn ambiguous_aliases(vdfs: &Vec<vdf::VdfPlugin>) -> (amb: Vec<String>)
    ensures
        amb@.map_values(|x: String| x@) == repeats(vdfs@),
        forall|a: int| 0 <= a < amb@.len() ==> repeating_name(vdfs@, (#[trigger] amb@[a])@),
        forall|j: int| 0 <= j < vdfs@.len() && repeated_at(vdfs@, j)
            ==> exists|a: int| 0 <= a < amb@.len() && (#[trigger] amb@[a])@ == vdfs@[j].name@,
        forall|a: int, b: int| 0 <= a < b < amb@.len() ==> amb@[a]@ != amb@[b]@,
{
    let mut seen: Vec<String> = Vec::new();
    let mut ambiguous: Vec<String> = Vec::new();
    let mut i: usize = 0;
    assert(vdfs@.take(0) =~= Seq::<vdf::VdfPlugin>::empty());
    assert(ambiguous@.map_values(|x: String| x@) =~= repeats(vdfs@.take(0)));
    while i < vdfs.len()
        invariant
            i <= vdfs@.len(),
            forall|x: Seq<char>| seen@.map_values(|y: String| y@).contains(x) <==> lowers(vdfs@.take(i as int)).contains(x),
            ambiguous@.map_values(|x: String| x@) == repeats(vdfs@.take(i as int)),
        decreases vdfs@.len() - i,
    {
        let ghost v1 = vdfs@.take(i + 1);
        let ghost sv = seen@.map_values(|y: String| y@);
        let ghost av = ambiguous@.map_values(|x: String| x@);
        proof {
            assert(v1.drop_last() =~= vdfs@.take(i as int));
            assert(v1.last() == vdfs@[i as int]);
            assert(lowers(v1) =~= lowers(vdfs@.take(i as int)).push(lower_seq(vdfs@[i as int].name@)));
        }
        let lower = string_of(to_lower(chars_of(vdfs[i].name.as_str()).as_slice()).as_slice());
        let is_seen = crate::handlers::has_string(&seen, lower.as_str());
        proof {
            if is_seen {
                let k = choose|k: int| 0 <= k < seen@.len() && (#[trigger] seen@[k])@ == lower@;
                assert(sv[k] == lower@);
            }
            if sv.contains(lower@) {
                let k = choose|k: int| 0 <= k < sv.len() && sv[k] == lower@;
                assert(seen@[k]@ == lower@);
            }
            assert(is_seen == lowers(vdfs@.take(i as int)).contains(lower_seq(vdfs@[i as int].name@)));
        }
        if is_seen {
            let named = crate::handlers::has_string(&ambiguous, vdfs[i].name.as_str());
            proof {
                if named {
                    let k = choose|k: int| 0 <= k < ambiguous@.len() && (#[trigger] ambiguous@[k])@ == vdfs@[i as int].name@;
                    assert(av[k] == vdfs@[i as int].name@);
                }
                if av.contains(vdfs@[i as int].name@) {
                    let k = choose|k: int| 0 <= k < av.len() && av[k] == vdfs@[i as int].name@;
                    assert(ambiguous@[k]@ == vdfs@[i as int].name@);
                }
            }
            if !named {
                ambiguous.push(vdfs[i].name.clone());
                proof {
                    assert(ambiguous@.map_values(|x: String| x@) =~= av.push(vdfs@[i as int].name@));
                }
            }
            proof {
                assert forall|x: Seq<char>| seen@.map_values(|y: String| y@).contains(x) <==> lowers(v1).contains(x) by {
                    if lowers(v1).contains(x) && x != lower@ {
                        let q = choose|q: int| 0 <= q < lowers(v1).len() && lowers(v1)[q] == x;
                        assert(lowers(vdfs@.take(i as int))[q] == x);
                    }
                    if lowers(vdfs@.take(i as int)).contains(x) {
                        let q = choose|q: int| 0 <= q < lowers(vdfs@.take(i as int)).len() && lowers(vdfs@.take(i as int))[q] == x;
                        assert(lowers(v1)[q] == x);
                    }
                }
            }
        } else {
            seen.push(lower);
            proof {
                assert(seen@.map_values(|y: String| y@) =~= sv.push(lower@));
                assert forall|x: Seq<char>| seen@.map_values(|y: String| y@).contains(x) <==> lowers(v1).contains(x) by {
                    if lowers(v1).contains(x) && x != lower@ {
                        let q = choose|q: int| 0 <= q < lowers(v1).len() && lowers(v1)[q] == x;
                        assert(lowers(vdfs@.take(i as int))[q] == x);
                        assert(lowers(vdfs@.take(i as int)).contains(x));
                        assert(sv.contains(x));
                        let k = choose|k: int| 0 <= k < sv.len() && sv[k] == x;
                        assert(seen@.map_values(|y: String| y@)[k] == sv.push(lower@)[k]);
                        assert(seen@.map_values(|y: String| y@)[k] == x);
                    }
                    if lowers(vdfs@.take(i as int)).contains(x) {
                        let q = choose|q: int| 0 <= q < lowers(vdfs@.take(i as int)).len() && lowers(vdfs@.take(i as int))[q] == x;
                        assert(lowers(v1)[q] == x);
                    }
                    if seen@.map_values(|y: String| y@).contains(x) && x != lower@ {
                        let sv2 = seen@.map_values(|y: String| y@);
                        let k = choose|k: int| 0 <= k < sv2.len() && sv2[k] == x;
                        assert(sv[k] == x);
                    }
                    if x == lower@ {
                        assert(lowers(v1)[i as int] == x);
                        assert(seen@.map_values(|y: String| y@)[sv.len() as int] == x);
                    }
                }
            }
        }
        i = i + 1;
    }
    assert(vdfs@.take(vdfs@.len() as int) =~= vdfs@);
    proof {
        lemma_repeats_are_the_duplicates(vdfs@);
        let av = ambiguous@.map_values(|x: String| x@);
        assert forall|a: int| 0 <= a < ambiguous@.len() implies repeating_name(vdfs@, (#[trigger] ambiguous@[a])@) by {
            assert(av[a] == ambiguous@[a]@);
        }
        assert forall|j: int| 0 <= j < vdfs@.len() && repeated_at(vdfs@, j)
            implies exists|a: int| 0 <= a < ambiguous@.len() && (#[trigger] ambiguous@[a])@ == vdfs@[j].name@ by {
            assert(av.contains(vdfs@[j].name@));
            let a = choose|a: int| 0 <= a < av.len() && av[a] == vdfs@[j].name@;
            assert(ambiguous@[a]@ == av[a]);
        }
        assert forall|a: int, b: int| 0 <= a < b < ambiguous@.len() implies ambiguous@[a]@ != ambiguous@[b]@ by {
            assert(av[a] == ambiguous@[a]@ && av[b] == ambiguous@[b]@);
        }
    }
    ambiguous
}

/// Call `k` of `t` listed `path` on `node`, answered with a listing whose
/// aliases, taken in the order `v`, make `amb` the ambiguous names.
pub open spec fn ambiguous_from_call(t: Seq<HostCall>, k: int, node: u64, path: Seq<char>, v: Seq<vdf::VdfPlugin>,
    amb: Seq<String>) -> bool {
    &&& 0 <= k < t.len()
    &&& t[k] matches HostCall::ReadDir(n, p, a) && n == node && p == path && a is Ok
        && v.map_values(|q: vdf::VdfPlugin| vdf::plugin_view(q)).to_multiset() == vdf::classified(listing_of(a)).to_multiset()
    &&& amb.map_values(|x: String| x@) == repeats(v)
}

/// With Metamod installed, the ambiguous aliases the doctor reports are the
/// repeated names among the aliases of a listing of addons/metamod made
/// after `t0`.
pub open spec fn ambiguous_seen(t0: Seq<HostCall>, t: Seq<HostCall>, ctx: ServerCtx, f: DoctorFacts) -> bool {
    f.metamod_dir ==> exists|k: int, v: Seq<vdf::VdfPlugin>| t0.len() <= k && #[trigger] ambiguous_from_call(t, k, ctx.node_id,
        join_spec(ctx.game_abs@, source2::METAMOD_DIR@), v, f.ambiguous@)
}

/// What the doctor observed on a server, from which its checks follow.
pub struct DoctorFacts {
    /// addons/metamod is a directory.
    pub metamod_dir: bool,
    /// Server-relative path of addons/metamod.
    pub metamod_rel: String,
    /// gameinfo.gi: `None` when missing, else whether it loads Metamod.
    pub gameinfo: Option<bool>,
    /// addons/counterstrikesharp is a directory.
    pub css_dir: bool,
    /// Server-relative path of addons/counterstrikesharp.
    pub css_rel: String,
    /// Folders both in plugins/ and plugins/disabled/.
    pub duplicates: Vec<String>,
    /// Plugin folders without their `<Name>.dll`.
    pub broken: Vec<String>,
    /// Manifest entries whose folder is gone.
    pub orphans: Vec<String>,
    /// The stray-folder and shared-folder checks, when CounterStrikeSharp is there.
    pub stray: Option<DoctorCheck>,
    pub shared: Option<DoctorCheck>,
    /// Metamod aliases present both live and parked.
    pub ambiguous: Vec<String>,
    /// Leftover downloads in the scratch dir.
    pub scratch: u64,
}

/// A check as plain values: (id, status, detail).
pub open spec fn check_view(c: DoctorCheck) -> (Seq<char>, Seq<char>, Seq<char>) {
    (c.id@, c.status@, c.detail@)
}

pub open spec fn checks_view(cs: Seq<DoctorCheck>) -> Seq<(Seq<char>, Seq<char>, Seq<char>)> {
    cs.map_values(|c: DoctorCheck| check_view(c))
}

/// A check of `id` that is `ok` when nothing is listed, else `status` with
/// `lead`, the listed names joined by ", " and `tail`.
pub open spec fn list_check(id: Seq<char>, ok_detail: Seq<char>, status: Seq<char>, lead: Seq<char>, names: Seq<String>, tail: Seq<char>)
    -> (Seq<char>, Seq<char>, Seq<char>)
{
    if names.len() == 0 {
        (id, "ok"@, ok_detail)
    } else {
        (id, status, lead + joined(names, ", "@) + tail)
    }
}

/// The doctor's checks, in order: Metamod, gameinfo.gi, CounterStrikeSharp;
/// with CounterStrikeSharp, duplicates, layout, orphans, stray folders and
/// shared folders; with Metamod, the vdf aliases; last the scratch dir.
pub open spec fn doctor_checks(f: DoctorFacts) -> Seq<(Seq<char>, Seq<char>, Seq<char>)> {
    let metamod = if f.metamod_dir {
        ("metamod"@, "ok"@, f.metamod_rel@)
    } else {
        ("metamod"@, "warn"@, "addons/metamod is not installed"@)
    };
    let gameinfo = match f.gameinfo {
        Some(true) => ("gameinfo"@, "ok"@, "Metamod search path present"@),
        Some(false) => if f.metamod_dir {
            ("gameinfo"@, "fail"@, "Metamod installed but gameinfo.gi does not load it"@)
        } else {
            ("gameinfo"@, "ok"@, "no Metamod to wire"@)
        },
        None => ("gameinfo"@, "fail"@, "gameinfo.gi is missing"@),
    };
    let css = if f.css_dir {
        ("css"@, "ok"@, f.css_rel@)
    } else {
        ("css"@, "warn"@, "CounterStrikeSharp is not installed"@)
    };
    let css_checks = if f.css_dir {
        seq![
            list_check("duplicates"@, "no folder is both enabled and disabled"@, "fail"@,
                "in both plugins/ and plugins/disabled/: "@, f.duplicates@, " - delete one copy"@),
            list_check("layout"@, "every plugin folder carries its dll"@, "warn"@,
                "missing <Name>/<Name>.dll: "@, f.broken@, ""@),
            list_check("orphans"@, "plugins_meta.json matches the folders on disk"@, "warn"@,
                "tracked but folder gone: "@, f.orphans@, ""@),
            check_view(f.stray.unwrap()),
            check_view(f.shared.unwrap()),
        ]
    } else {
        Seq::empty()
    };
    let vdf_checks = if f.metamod_dir {
        seq![list_check("vdf"@, "Metamod plugin aliases are unambiguous"@, "fail"@,
            "both .vdf and .vdf.disabled exist for: "@, f.ambiguous@, " - delete one"@)]
    } else {
        Seq::empty()
    };
    let scratch = if f.scratch == 0 {
        ("scratch"@, "ok"@, "no leftover downloads"@)
    } else {
        ("scratch"@, "warn"@, crate::text::decimal(f.scratch as nat)
            + " leftover download(s) in .cs2addons/ from an interrupted install"@ + " - safe to delete"@)
    };
    seq![metamod, gameinfo, css] + css_checks + vdf_checks + seq![scratch]
}

/// Facts the checks can be built from.
pub open spec fn facts_wf(f: DoctorFacts) -> bool {
    f.css_dir ==> f.stray is Some && f.shared is Some
}

fn list_check_of(id: &str, ok_detail: &str, status: &str, lead: &str, names: &Vec<String>, tail: &str) -> (c: DoctorCheck)
    ensures
        check_view(c) == list_check(id@, ok_detail@, status@, lead@, names@, tail@),
{
    if names.len() == 0 {
        check(id, "ok", String::from_str(ok_detail))
    } else {
        check(id, status, cat3(lead, join_all(names, ", ").as_str(), tail))
    }
}

fn copy_check(c: &DoctorCheck) -> (r: DoctorCheck)
    ensures
        check_view(r) == check_view(*c),
{
    DoctorCheck { id: c.id.clone(), status: c.status.clone(), detail: c.detail.clone() }
}

/// The checks the facts give, in the doctor's order.
pub fn checks_of(f: &DoctorFacts) -> (r: Vec<DoctorCheck>)
    requires
        facts_wf(*f),
    ensures
        checks_view(r@) == doctor_checks(*f),
{
    let mut checks: Vec<DoctorCheck> = Vec::new();
    checks.push(if f.metamod_dir {
        check("metamod", "ok", f.metamod_rel.clone())
    } else {
        check("metamod", "warn", String::from_str("addons/metamod is not installed"))
    });
    checks.push(match f.gameinfo {
        Some(true) => check("gameinfo", "ok", String::from_str("Metamod search path present")),
        Some(false) => if f.metamod_dir {
            check("gameinfo", "fail", String::from_str("Metamod installed but gameinfo.gi does not load it"))
        } else {
            check("gameinfo", "ok", String::from_str("no Metamod to wire"))
        },
        None => check("gameinfo", "fail", String::from_str("gameinfo.gi is missing")),
    });
    checks.push(if f.css_dir {
        check("css", "ok", f.css_rel.clone())
    } else {
        check("css", "warn", String::from_str("CounterStrikeSharp is not installed"))
    });
    let ghost head = checks@;
    if f.css_dir {
        checks.push(list_check_of("duplicates", "no folder is both enabled and disabled", "fail",
            "in both plugins/ and plugins/disabled/: ", &f.duplicates, " - delete one copy"));
        checks.push(list_check_of("layout", "every plugin folder carries its dll", "warn",
            "missing <Name>/<Name>.dll: ", &f.broken, ""));
        checks.push(list_check_of("orphans", "plugins_meta.json matches the folders on disk", "warn",
            "tracked but folder gone: ", &f.orphans, ""));
        match &f.stray {
            Some(c) => checks.push(copy_check(c)),
            None => {},
        }
        match &f.shared {
            Some(c) => checks.push(copy_check(c)),
            None => {},
        }
    }
    let ghost mid = checks@;
    if f.metamod_dir {
        checks.push(list_check_of("vdf", "Metamod plugin aliases are unambiguous", "fail",
            "both .vdf and .vdf.disabled exist for: ", &f.ambiguous, " - delete one"));
    }
    let ghost late = checks@;
    if f.scratch == 0 {
        checks.push(check("scratch", "ok", String::from_str("no leftover downloads")));
    } else {
        checks.push(check("scratch", "warn", cat3(
            u64_text(f.scratch).as_str(),
            " leftover download(s) in .cs2addons/ from an interrupted install",
            " - safe to delete",
        )));
    }
    assert(checks_view(checks@) =~= doctor_checks(*f));
    checks
}

/// The doctor route's answer for server `id`: the server resolved from the
/// panel's answers, then the checks of what was observed on it.
pub open spec fn doctor_handled(body: Seq<u8>, t0: Seq<HostCall>, t: Seq<HostCall>, id: u64) -> bool {
    exists|tm: Seq<HostCall>, ctx: ServerCtx| #![trigger doctor_answer(body, tm, t, ctx)]
        resolve_answers(calls_since(t0, tm), id, Ok(ctx)) && doctor_answer(body, tm, t, ctx)
}

pub fn handle<H: HostApi>(host: &mut H, params: &Vec<(String, String)>) -> (r: ApiResult)
    ensures
        param_id(params@) is None ==> (r matches Err(e) && e.status == 400),
        r matches Ok(resp) ==> resp.status == 200,
        r matches Ok(resp) ==> param_id(params@) is Some
            && doctor_handled(resp.body@, old(host).trace(), final(host).trace(), param_id(params@).unwrap()),
        r matches Err(e) ==> route_failed(old(host).trace(), final(host).trace(), params@, e, |x: ApiError| host_failure(x)),
        reads_only(old(host).trace(), final(host).trace()),
{
    let ghost t0 = host.trace();
    let ctx = ServerCtx::resolve(host, params)?;
    let ghost tm = host.trace();
    let r = diagnose(host, &ctx);
    proof {
        lemma_reads_only_trans(t0, tm, host.trace());
        if r is Ok {
            assert(doctor_answer(r->Ok_0.body@, tm, host.trace(), ctx));
        } else {
            assert(resolved_at(t0, tm, ctx.server_id, ctx));
            lemma_route_failed(t0, tm, host.trace(), params@, ctx, r->Err_0, |x: ApiError| host_failure(x));
        }
    }
    r
}

/// What the doctor saw of the three install facts, given the transcript
/// before (`t0`) and after (`t`) it ran on the resolved server: its first
/// probe is addons/metamod, its second gameinfo.gi (downloaded when it is a
/// file), and a probe of addons/counterstrikesharp answers the third.
pub open spec fn observed(t0: Seq<HostCall>, t: Seq<HostCall>, ctx: ServerCtx, f: DoctorFacts) -> bool {
    let base = t0.len() as int;
    let gi = join_spec(ctx.game_abs@, source2::GAMEINFO_FILE@);
    &&& t.len() >= base + 3
    &&& t[base] matches HostCall::Stat(n0, p0, a0)
    &&& n0 == ctx.node_id && p0 == join_spec(ctx.game_abs@, source2::METAMOD_DIR@)
    &&& stat_dir(a0) == Ok::<bool, HostApiError>(f.metamod_dir)
    &&& f.metamod_rel@ == join_spec(ctx.game_dir@, source2::METAMOD_DIR@)
    &&& t[base + 1] matches HostCall::Stat(n1, p1, a1)
    &&& n1 == ctx.node_id && p1 == gi
    &&& match f.gameinfo {
        None => stat_file(a1) == Ok::<bool, HostApiError>(false),
        Some(wired) => stat_file(a1) == Ok::<bool, HostApiError>(true)
            && (t[base + 2] matches HostCall::Download(n2, p2, Ok(content))
                && n2 == ctx.node_id && p2 == gi && wired == gameinfo::metamod_wired(content@)),
    }
    &&& exists|k: int| #![trigger t[k]] base <= k < t.len() && (t[k] matches HostCall::Stat(n3, p3, a3)
        && n3 == ctx.node_id && p3 == join_spec(ctx.game_abs@, source2::CSS_DIR@)
        && stat_dir(a3) == Ok::<bool, HostApiError>(f.css_dir))
    &&& f.css_rel@ == join_spec(ctx.game_dir@, source2::CSS_DIR@)
    &&& t.last() matches HostCall::ReadDir(n4, p4, a4)
    &&& n4 == ctx.node_id && p4 == join_spec(ctx.root_abs@, source2::DOWNLOAD_SCRATCH_DIR@)
    &&& f.scratch == match a4 {
        Ok(Some(es)) => es@.len() as u64,
        _ => 0u64,
    }
}

/// The names of `en` that `dis` also holds, up to ASCII case, in order.
pub open spec fn dup_names(en: Seq<Seq<char>>, dis: Seq<Seq<char>>) -> Seq<Seq<char>>
    decreases en.len(),
{
    if en.len() == 0 {
        Seq::empty()
    } else {
        dup_names(en.drop_last(), dis) + if exists|k: int| 0 <= k < dis.len() && eq_ic(#[trigger] dis[k], en.last()) {
            seq![en.last()]
        } else {
            Seq::empty()
        }
    }
}

/// The keys of a manifest's members, in order.
pub open spec fn keys_of(root: Seq<(String, Json)>) -> Seq<Seq<char>> {
    root.map_values(|m: (String, Json)| m.0@)
}

/// Whether `names` holds `n` up to ASCII case.
pub open spec fn holds_ic(names: Seq<Seq<char>>, n: Seq<char>) -> bool {
    exists|k: int| 0 <= k < names.len() && eq_ic(#[trigger] names[k], n)
}

/// The manifest names that neither folder list holds, up to ASCII case, in
/// manifest order.
pub open spec fn orphan_names(names: Seq<Seq<char>>, en: Seq<Seq<char>>, dis: Seq<Seq<char>>) -> Seq<Seq<char>>
    decreases names.len(),
{
    if names.len() == 0 {
        Seq::empty()
    } else {
        orphan_names(names.drop_last(), en, dis) + if !holds_ic(en, names.last()) && !holds_ic(dis, names.last()) {
            seq![names.last()]
        } else {
            Seq::empty()
        }
    }
}

/// What a listing answer lists: nothing when the directory is missing.
pub open spec fn listing_of(a: Result<Option<Vec<DirEntry>>, HostApiError>) -> Seq<DirEntry> {
    match a {
        Ok(Some(es)) => es@,
        _ => Seq::empty(),
    }
}

/// Among the calls after `t0` is a listing of `path` that was answered,
/// with `listing`.
pub open spec fn listed_at(t0: Seq<HostCall>, t: Seq<HostCall>, node: u64, path: Seq<char>, listing: Seq<DirEntry>) -> bool {
    exists|k: int| #![trigger t[k]] t0.len() <= k < t.len() && (t[k] matches HostCall::ReadDir(n, p, a)
        && n == node && p == path && a is Ok && listing == listing_of(a))
}

/// A listing seen stays seen as calls are appended.
pub proof fn lemma_listed_grows(t0: Seq<HostCall>, a: Seq<HostCall>, b: Seq<HostCall>, node: u64, path: Seq<char>, listing: Seq<DirEntry>)
    requires
        listed_at(t0, a, node, path, listing),
        crate::host_api::grew(a, b),
    ensures
        listed_at(t0, b, node, path, listing),
{
    let k = choose|k: int| #![trigger a[k]] t0.len() <= k < a.len() && (a[k] matches HostCall::ReadDir(n, p, x)
        && n == node && p == path && x is Ok && listing == listing_of(x));
    assert(b[k] == a[k]);
}

/// The orphans the doctor reports are the keys of the manifest it read that
/// neither listing's folders carry, the listings being the answers to its
/// listings of plugins/ and plugins/disabled/.
pub open spec fn orphans_observed(t0: Seq<HostCall>, t: Seq<HostCall>, ctx: ServerCtx, f: DoctorFacts) -> bool {
    let plugins = join_spec(ctx.game_abs@, source2::CSS_PLUGINS_DIR@);
    f.css_dir ==> exists|le: Seq<DirEntry>, ld: Seq<DirEntry>, ta: Seq<HostCall>, tb: Seq<HostCall>, root: Seq<(String, Json)>|
        #![trigger listed_at(t0, t, ctx.node_id, plugins, le), listed_at(t0, t, ctx.node_id, join_spec(plugins, source2::DISABLED_DIR_NAME@), ld),
            crate::handlers::manifest_read(ta, tb, ctx.node_id, ctx.game_abs@, root)]
    {
        &&& listed_at(t0, t, ctx.node_id, plugins, le)
        &&& listed_at(t0, t, ctx.node_id, join_spec(plugins, source2::DISABLED_DIR_NAME@), ld)
        &&& t0.len() <= ta.len() && grew(tb, t) && crate::handlers::manifest_read(ta, tb, ctx.node_id, ctx.game_abs@, root)
        &&& f.orphans@.map_values(|n: String| n@) == orphan_names(keys_of(root), dir_names(le, true), dir_names(ld, false))
    }
}

/// Where the dll of plugin folder `name` in `dir` sits.
pub open spec fn dll_path(dir: Seq<char>, name: Seq<char>) -> Seq<char> {
    join_spec(join_spec(dir, name), name + ".dll"@)
}

/// Calls `k` onwards of `t` are the answered dll probes of `names` in `dir`.
pub open spec fn dll_probes(t: Seq<HostCall>, k: int, node: u64, dir: Seq<char>, names: Seq<Seq<char>>) -> bool {
    &&& 0 <= k && k + names.len() <= t.len()
    &&& forall|q: int| 0 <= q < names.len() ==> ((#[trigger] t[k + q]) matches HostCall::Stat(n, p, a)
        && n == node && p == dll_path(dir, names[q]) && a is Ok)
}

/// The folders among `names` whose dll probe (call `k` onwards of `t`)
/// found nothing, in order.
pub open spec fn missing_dlls(t: Seq<HostCall>, k: int, names: Seq<Seq<char>>) -> Seq<Seq<char>>
    decreases names.len(),
{
    if names.len() == 0 {
        Seq::empty()
    } else {
        missing_dlls(t, k, names.drop_last()) + if t[k + names.len() - 1] matches HostCall::Stat(_, _, Ok(None)) {
            seq![names.last()]
        } else {
            Seq::empty()
        }
    }
}

/// The missing dlls read off calls that stay as more are appended.
pub proof fn lemma_missing_dlls_grow(t: Seq<HostCall>, u: Seq<HostCall>, k: int, names: Seq<Seq<char>>)
    requires
        0 <= k,
        k + names.len() <= t.len(),
        grew(t, u),
    ensures
        missing_dlls(u, k, names) == missing_dlls(t, k, names),
    decreases names.len(),
{
    if names.len() > 0 {
        lemma_missing_dlls_grow(t, u, k, names.drop_last());
        assert(u[k + names.len() - 1] == t[k + names.len() - 1]);
    }
}

/// Dll probes stay as calls are appended.
pub proof fn lemma_probes_grow(t: Seq<HostCall>, u: Seq<HostCall>, k: int, node: u64, dir: Seq<char>, names: Seq<Seq<char>>)
    requires
        dll_probes(t, k, node, dir, names),
        grew(t, u),
    ensures
        dll_probes(u, k, node, dir, names),
{
    assert forall|q: int| 0 <= q < names.len() implies ((#[trigger] u[k + q]) matches HostCall::Stat(n, p, a)
        && n == node && p == dll_path(dir, names[q]) && a is Ok) by {
        assert(u[k + q] == t[k + q]);
    }
}

/// The duplicates and the layout the doctor reports come from its listings
/// of plugins/ and plugins/disabled/: the duplicates are the folders of the
/// first that the second also holds, and the broken folders those whose dll
/// probe, folder by folder and in listing order, found nothing.
pub open spec fn duplicates_observed(t0: Seq<HostCall>, t: Seq<HostCall>, ctx: ServerCtx, f: DoctorFacts) -> bool {
    let plugins = join_spec(ctx.game_abs@, source2::CSS_PLUGINS_DIR@);
    let disabled = join_spec(plugins, source2::DISABLED_DIR_NAME@);
    f.css_dir ==> exists|le: Seq<DirEntry>, ld: Seq<DirEntry>, kb: int|
        #![trigger listed_at(t0, t, ctx.node_id, plugins, le), listed_at(t0, t, ctx.node_id, disabled, ld), missing_dlls(t, kb, dir_names(le, true))]
    {
        &&& listed_at(t0, t, ctx.node_id, plugins, le)
        &&& listed_at(t0, t, ctx.node_id, disabled, ld)
        &&& f.duplicates@.map_values(|n: String| n@) == dup_names(dir_names(le, true), dir_names(ld, false))
        &&& dll_probes(t, kb, ctx.node_id, plugins, dir_names(le, true))
        &&& dll_probes(t, kb + dir_names(le, true).len(), ctx.node_id, disabled, dir_names(ld, false))
        &&& f.broken@.map_values(|n: String| n@) == missing_dlls(t, kb, dir_names(le, true))
            + missing_dlls(t, kb + dir_names(le, true).len(), dir_names(ld, false))
    }
}

/// The doctor's answer: the JSON of the checks the facts give.
pub open spec fn answers_doctor(body: Seq<u8>, f: DoctorFacts) -> bool {
    exists|t: DoctorResponse, j: Json| #[trigger] t.json_is(j) && body == json_text(j) && checks_view(t.checks@) == doctor_checks(f)
}

/// The doctor's answer on a resolved server, given the transcript before
/// and after it ran: the checks of facts it observed.
pub open spec fn doctor_answer(body: Seq<u8>, t0: Seq<HostCall>, t: Seq<HostCall>, ctx: ServerCtx) -> bool {
    exists|f: DoctorFacts| #[trigger] answers_doctor(body, f) && facts_wf(f) && observed(t0, t, ctx, f) && duplicates_observed(t0, t, ctx, f)
        && orphans_observed(t0, t, ctx, f) && stray_seen(t0, t, ctx, f) && shared_seen(t0, t, ctx, f)
        && ambiguous_seen(t0, t, ctx, f)
}

/// The shared check the doctor reports follows from a listing of
/// `shared/` made after `t0` and the calls that came after it.
pub open spec fn shared_seen(t0: Seq<HostCall>, t: Seq<HostCall>, ctx: ServerCtx, f: DoctorFacts) -> bool {
    f.shared matches Some(c) ==> exists|k: int| t0.len() <= k
        && #[trigger] shared_observed(t, k, ctx.node_id, join_spec(ctx.game_abs@, source2::CSS_DIR@), c)
}

/// The stray check the doctor reports follows from a listing of the
/// CounterStrikeSharp dir made after `t0` and the probes that came after it.
pub open spec fn stray_seen(t0: Seq<HostCall>, t: Seq<HostCall>, ctx: ServerCtx, f: DoctorFacts) -> bool {
    f.stray matches Some(c) ==> exists|k: int| t0.len() <= k
        && #[trigger] stray_observed(t, k, ctx.node_id, join_spec(ctx.game_abs@, source2::CSS_DIR@), c)
}

/// The checks of a resolved server.
#[verifier::rlimit(80)]
#[verifier::spinoff_prover]
pub fn diagnose<H: HostApi>(host: &mut H, ctx: &ServerCtx) -> (r: ApiResult)
    ensures
        r matches Ok(resp) ==> resp.status == 200,
        r matches Err(e) ==> crate::handlers::host_failure(e),
        reads_only(old(host).trace(), final(host).trace()),
        r matches Ok(resp) ==> doctor_answer(resp.body@, old(host).trace(), final(host).trace(), *ctx),
{
    let ghost t0 = host.trace();
    // Metamod dir + gameinfo wiring.
    let metamod_abs = join(ctx.game_abs.as_str(), source2::METAMOD_DIR);
    let metamod_dir = crate::handlers::lift(is_dir_at(host, ctx.node_id, metamod_abs.as_str()))?;

    let gameinfo_abs = join(ctx.game_abs.as_str(), source2::GAMEINFO_FILE);
    let ghost t1 = host.trace();
    let gameinfo = if crate::handlers::lift(is_file_at(host, ctx.node_id, gameinfo_abs.as_str()))? {
        let content = crate::handlers::lift(host.download(ctx.node_id, gameinfo_abs.as_str()))?;
        Some(gameinfo::is_metamod_wired(content.as_slice()))
    } else {
        None
    };
    let ghost t2 = host.trace();
    proof {
        assert(t2[t0.len() as int] == t1[t0.len() as int]);
    }

    // CounterStrikeSharp presence.
    let css_abs = join(ctx.game_abs.as_str(), source2::CSS_DIR);
    let css_dir = crate::handlers::lift(is_dir_at(host, ctx.node_id, css_abs.as_str()))?;
    let ghost t3 = host.trace();
    let ghost kcss = t3.len() - 1;
    proof { lemma_reads_only_trans(t0, t2, t3); }

    let mut duplicates: Vec<String> = Vec::new();
    let mut broken: Vec<String> = Vec::new();
    let mut orphans: Vec<String> = Vec::new();
    let mut stray: Option<DoctorCheck> = None;
    let mut shared: Option<DoctorCheck> = None;
    let ghost mut le: Seq<DirEntry> = Seq::empty();
    let ghost mut ld: Seq<DirEntry> = Seq::empty();
    let ghost mut ta: Seq<HostCall> = Seq::empty();
    let ghost mut ks: int = 0;
    let ghost mut tsc: Seq<HostCall> = Seq::empty();
    let ghost mut kh: int = 0;
    let ghost mut kv: int = 0;
    let ghost mut vv: Seq<vdf::VdfPlugin> = Seq::empty();
    let ghost mut tva: Seq<HostCall> = Seq::empty();
    let ghost mut thc: Seq<HostCall> = Seq::empty();
    let ghost mut tb: Seq<HostCall> = Seq::empty();
    let ghost mut mroot: Seq<(String, Json)> = Seq::empty();
    let ghost mut tlast: Seq<HostCall> = t3;
    let ghost mut kbg: int = 0;
    if css_dir {
        // Folders present in both plugins/ and plugins/disabled/.
        let plugins_abs = css_plugins_abs(ctx);
        let disabled_abs = css_disabled_abs(ctx);
        let listed_enabled = folder_names(host, ctx.node_id, plugins_abs.as_str(), true);
        let ghost te = host.trace();
        proof { lemma_reads_only_trans(t3, t3, host.trace()); lemma_reads_only_trans(t0, t3, host.trace()); }
        let enabled_names = crate::handlers::lift(listed_enabled)?;
        let ghost tn = host.trace();
        let listed_disabled = folder_names(host, ctx.node_id, disabled_abs.as_str(), false);
        let ghost td = host.trace();
        proof { lemma_reads_only_trans(t3, tn, host.trace()); lemma_reads_only_trans(t0, t3, host.trace()); }
        let disabled_names = crate::handlers::lift(listed_disabled)?;
        let ghost en = enabled_names@.map_values(|n: String| n@);
        let ghost dis = disabled_names@.map_values(|n: String| n@);
        proof {
            le = listing_of(te[t3.len() as int]->ReadDir_2);
            ld = listing_of(td[tn.len() as int]->ReadDir_2);
            assert(en == dir_names(le, true));
            assert(dis == dir_names(ld, false));
        }
        let mut i: usize = 0;
        assert(en.take(0) =~= Seq::<Seq<char>>::empty());
        while i < enabled_names.len()
            invariant
                i <= enabled_names@.len(),
                en == enabled_names@.map_values(|n: String| n@),
                dis == disabled_names@.map_values(|n: String| n@),
                duplicates@.map_values(|n: String| n@) == dup_names(en.take(i as int), dis),
            decreases enabled_names@.len() - i,
        {
            let ghost before = duplicates@;
            assert(en.take(i + 1).drop_last() =~= en.take(i as int));
            assert(en.take(i + 1).last() == enabled_names@[i as int]@);
            let dup = contains_ic(&disabled_names, enabled_names[i].as_str());
            proof {
                assert(dup == exists|k: int| 0 <= k < dis.len() && eq_ic(#[trigger] dis[k], enabled_names@[i as int]@)) by {
                    if dup {
                        let k = choose|k: int| 0 <= k < disabled_names@.len() && eq_ic(#[trigger] disabled_names@[k]@, enabled_names@[i as int]@);
                        assert(dis[k] == disabled_names@[k]@);
                    }
                    if exists|k: int| 0 <= k < dis.len() && eq_ic(#[trigger] dis[k], enabled_names@[i as int]@) {
                        let k = choose|k: int| 0 <= k < dis.len() && eq_ic(#[trigger] dis[k], enabled_names@[i as int]@);
                        assert(dis[k] == disabled_names@[k]@);
                    }
                }
            }
            if dup {
                duplicates.push(enabled_names[i].clone());
                assert(duplicates@.map_values(|n: String| n@) =~= before.map_values(|n: String| n@).push(enabled_names@[i as int]@));
            } else {
                assert(duplicates@.map_values(|n: String| n@) =~= before.map_values(|n: String| n@) + Seq::<Seq<char>>::empty());
            }
            i = i + 1;
        }
        assert(en.take(en.len() as int) =~= en);
        assert(duplicates@.map_values(|n: String| n@) == dup_names(dir_names(le, true), dir_names(ld, false)));

        // Folder layout: <Name>/<Name>.dll must exist.
        let ghost tl = host.trace();
        let ghost kb = tl.len() as int;
        let mut j: usize = 0;
        assert(en.take(0) =~= Seq::<Seq<char>>::empty());
        assert(broken@.map_values(|n: String| n@) =~= missing_dlls(tl, kb, en.take(0)));
        while j < enabled_names.len()
            invariant
                j <= enabled_names@.len(),
                reads_only(t3, host.trace()),
                reads_only(t0, t3),
                t0 == old(host).trace(),
                grew(td, host.trace()),
                grew(tl, host.trace()),
                kb == tl.len(),
                en == enabled_names@.map_values(|n: String| n@),
                plugins_abs@ == join_spec(ctx.game_abs@, source2::CSS_PLUGINS_DIR@),
                host.trace().len() == kb + j,
                dll_probes(host.trace(), kb, ctx.node_id, plugins_abs@, en.take(j as int)),
                broken@.map_values(|n: String| n@) == missing_dlls(host.trace(), kb, en.take(j as int)),
            decreases enabled_names@.len() - j,
        {
            let name = enabled_names[j].as_str();
            let dll_abs = join(join(plugins_abs.as_str(), name).as_str(), cat(name, ".dll").as_str());
            let ghost tp = host.trace();
            let found = host.stat(ctx.node_id, dll_abs.as_str());
            proof { lemma_reads_only_trans(t3, tp, host.trace()); lemma_reads_only_trans(t0, t3, host.trace()); crate::host_api::lemma_grew_trans(td, tp, host.trace()); crate::host_api::lemma_grew_trans(tl, tp, host.trace()); }
            let found = crate::handlers::lift(found)?;
            let ghost before = broken@;
            proof {
                let t = host.trace();
                reveal_strlit(".dll");
                lemma_missing_dlls_grow(tp, t, kb, en.take(j as int));
                assert(en.take(j + 1).drop_last() =~= en.take(j as int));
                assert(en.take(j + 1).last() == en[j as int]);
                assert(dll_abs@ == dll_path(plugins_abs@, en[j as int]));
                assert forall|q: int| 0 <= q < en.take(j + 1).len() implies ((#[trigger] t[kb + q]) matches HostCall::Stat(n, p, a)
                    && n == ctx.node_id && p == dll_path(plugins_abs@, en.take(j + 1)[q]) && a is Ok) by {
                    if q < j {
                        assert(t[kb + q] == tp[kb + q]);
                        assert(en.take(j + 1)[q] == en.take(j as int)[q]);
                    }
                }
            }
            if found.is_none() {
                broken.push(enabled_names[j].clone());
                proof {
                    assert(broken@.map_values(|n: String| n@) =~= before.map_values(|n: String| n@).push(en[j as int]));
                }
            } else {
                proof {
                    assert(broken@.map_values(|n: String| n@) =~= before.map_values(|n: String| n@) + Seq::<Seq<char>>::empty());
                }
            }
            j = j + 1;
        }
        assert(en.take(en.len() as int) =~= en);
        let ghost tk = host.trace();
        let ghost kd = tk.len() as int;
        let ghost mid = broken@.map_values(|n: String| n@);
        let mut k: usize = 0;
        assert(dis.take(0) =~= Seq::<Seq<char>>::empty());
        assert(broken@.map_values(|n: String| n@) =~= mid + missing_dlls(tk, kd, dis.take(0)));
        while k < disabled_names.len()
            invariant
                k <= disabled_names@.len(),
                reads_only(t3, host.trace()),
                reads_only(t0, t3),
                t0 == old(host).trace(),
                grew(td, host.trace()),
                grew(tk, host.trace()),
                kd == tk.len(),
                kd == kb + en.len(),
                dis == disabled_names@.map_values(|n: String| n@),
                disabled_abs@ == join_spec(join_spec(ctx.game_abs@, source2::CSS_PLUGINS_DIR@), source2::DISABLED_DIR_NAME@),
                host.trace().len() == kd + k,
                dll_probes(host.trace(), kd, ctx.node_id, disabled_abs@, dis.take(k as int)),
                broken@.map_values(|n: String| n@) == mid + missing_dlls(host.trace(), kd, dis.take(k as int)),
            decreases disabled_names@.len() - k,
        {
            let name = disabled_names[k].as_str();
            let dll_abs = join(join(disabled_abs.as_str(), name).as_str(), cat(name, ".dll").as_str());
            let ghost tp = host.trace();
            let found = host.stat(ctx.node_id, dll_abs.as_str());
            proof { lemma_reads_only_trans(t3, tp, host.trace()); lemma_reads_only_trans(t0, t3, host.trace()); crate::host_api::lemma_grew_trans(td, tp, host.trace()); crate::host_api::lemma_grew_trans(tk, tp, host.trace()); }
            let found = crate::handlers::lift(found)?;
            let ghost before = broken@;
            proof {
                let t = host.trace();
                reveal_strlit(".dll");
                lemma_missing_dlls_grow(tp, t, kd, dis.take(k as int));
                assert(dis.take(k + 1).drop_last() =~= dis.take(k as int));
                assert(dis.take(k + 1).last() == dis[k as int]);
                assert(dll_abs@ == dll_path(disabled_abs@, dis[k as int]));
                assert forall|q: int| 0 <= q < dis.take(k + 1).len() implies ((#[trigger] t[kd + q]) matches HostCall::Stat(n, p, a)
                    && n == ctx.node_id && p == dll_path(disabled_abs@, dis.take(k + 1)[q]) && a is Ok) by {
                    if q < k {
                        assert(t[kd + q] == tp[kd + q]);
                        assert(dis.take(k + 1)[q] == dis.take(k as int)[q]);
                    }
                }
            }
            if found.is_none() {
                broken.push(disabled_names[k].clone());
                proof {
                    assert(broken@.map_values(|n: String| n@) =~= before.map_values(|n: String| n@).push(dis[k as int]));
                }
            } else {
                proof {
                    assert(broken@.map_values(|n: String| n@) =~= before.map_values(|n: String| n@) + Seq::<Seq<char>>::empty());
                }
            }
            k = k + 1;
        }
        assert(dis.take(dis.len() as int) =~= dis);
        proof {
            lemma_missing_dlls_grow(tk, host.trace(), kb, en);
        }
        let ghost tz = host.trace();

        // Manifest entries whose folder is gone.
        let ghost tm = host.trace();
        let manifest = read_manifest(host, ctx)?;
        proof {
            lemma_reads_only_trans(t3, tm, host.trace()); lemma_reads_only_trans(t0, t3, host.trace());
            ta = tm;
            tb = host.trace();
            crate::host_api::lemma_grew_trans(td, tm, tb);
            mroot = manifest.root@;
        }
        let names = manifest.names();
        let ghost mn = manifest.root@.map_values(|m: (String, Json)| m.0@);
        assert(names@.map_values(|x: String| x@) =~= mn);
        let mut n: usize = 0;
        assert(mn.take(0) =~= Seq::<Seq<char>>::empty());
        while n < names.len()
            invariant
                n <= names@.len(),
                mn == names@.map_values(|x: String| x@),
                en == enabled_names@.map_values(|x: String| x@),
                dis == disabled_names@.map_values(|x: String| x@),
                orphans@.map_values(|x: String| x@) == orphan_names(mn.take(n as int), en, dis),
            decreases names@.len() - n,
        {
            let ghost before = orphans@;
            assert(mn.take(n + 1).drop_last() =~= mn.take(n as int));
            assert(mn.take(n + 1).last() == names@[n as int]@);
            let in_en = contains_ic(&enabled_names, names[n].as_str());
            let in_dis = contains_ic(&disabled_names, names[n].as_str());
            proof {
                assert(in_en == holds_ic(en, names@[n as int]@)) by {
                    if in_en {
                        let k = choose|k: int| 0 <= k < enabled_names@.len() && eq_ic(#[trigger] enabled_names@[k]@, names@[n as int]@);
                        assert(en[k] == enabled_names@[k]@);
                    }
                    if holds_ic(en, names@[n as int]@) {
                        let k = choose|k: int| 0 <= k < en.len() && eq_ic(#[trigger] en[k], names@[n as int]@);
                        assert(en[k] == enabled_names@[k]@);
                    }
                }
                assert(in_dis == holds_ic(dis, names@[n as int]@)) by {
                    if in_dis {
                        let k = choose|k: int| 0 <= k < disabled_names@.len() && eq_ic(#[trigger] disabled_names@[k]@, names@[n as int]@);
                        assert(dis[k] == disabled_names@[k]@);
                    }
                    if holds_ic(dis, names@[n as int]@) {
                        let k = choose|k: int| 0 <= k < dis.len() && eq_ic(#[trigger] dis[k], names@[n as int]@);
                        assert(dis[k] == disabled_names@[k]@);
                    }
                }
            }
            if !in_en && !in_dis {
                orphans.push(names[n].clone());
                assert(orphans@.map_values(|x: String| x@) =~= before.map_values(|x: String| x@).push(names@[n as int]@));
            } else {
                assert(orphans@.map_values(|x: String| x@) =~= before.map_values(|x: String| x@) + Seq::<Seq<char>>::empty());
            }
            n = n + 1;
        }
        assert(mn.take(mn.len() as int) =~= mn);
        assert(orphans@.map_values(|x: String| x@) == orphan_names(keys_of(manifest.root@),
            dir_names(le, true), dir_names(ld, false)));

        let ghost ts = host.trace();
        let sc = stray_check(host, ctx.node_id, css_abs.as_str());
        proof { lemma_reads_only_trans(t3, ts, host.trace()); lemma_reads_only_trans(t0, t3, host.trace()); }
        let sc = crate::handlers::lift(sc)?;
        proof {
            ks = ts.len() as int;
            tsc = host.trace();
            assert(stray_observed(tsc, ks, ctx.node_id, css_abs@, sc));
        }
        stray = Some(sc);
        let ghost tt = host.trace();
        let hc = shared_check(host, ctx.node_id, css_abs.as_str());
        proof { lemma_reads_only_trans(t3, tt, host.trace()); lemma_reads_only_trans(t0, t3, host.trace()); }
        let hc = crate::handlers::lift(hc)?;
        proof {
            kh = tt.len() as int;
            thc = host.trace();
            assert(shared_observed(thc, kh, ctx.node_id, css_abs@, hc));
        }
        shared = Some(hc);
        proof {
            lemma_reads_only_trans(t3, tt, host.trace()); lemma_reads_only_trans(t0, t3, host.trace());
            let t = host.trace();
            lemma_reads_only_trans(tb, tt, t);
            crate::host_api::lemma_grew_trans(td, tb, t);
            crate::host_api::lemma_grew_trans(te, td, t);
            let plugins = join_spec(ctx.game_abs@, source2::CSS_PLUGINS_DIR@);
            assert(t[t3.len() as int] == te[t3.len() as int]);
            assert(t[tn.len() as int] == td[tn.len() as int]);
            assert(listed_at(t0, t, ctx.node_id, plugins, le));
            assert(listed_at(t0, t, ctx.node_id, join_spec(plugins, source2::DISABLED_DIR_NAME@), ld));
            crate::host_api::lemma_grew_trans(tz, tb, t);
            lemma_missing_dlls_grow(tz, t, kb, en);
            lemma_missing_dlls_grow(tz, t, kd, dis);
            lemma_probes_grow(tz, t, kb, ctx.node_id, plugins_abs@, en);
            lemma_probes_grow(tz, t, kd, ctx.node_id, disabled_abs@, dis);
            tlast = t;
            kbg = kb;
        }
    }
    let ghost t4 = host.trace();

    let mut ambiguous: Vec<String> = Vec::new();
    if metamod_dir {
        // A vdf that exists both live and parked loads unpredictably.
        let ghost tv = host.trace();
        let listed = vdf::list(host, ctx.node_id, metamod_abs.as_str());
        proof { lemma_reads_only_trans(t3, tv, host.trace()); lemma_reads_only_trans(t0, t3, host.trace()); }
        let ghost tv2 = host.trace();
        let vdfs = crate::handlers::lift(listed)?;
        ambiguous = ambiguous_aliases(&vdfs);
        proof {
            kv = tv.len() as int;
            vv = vdfs@;
            tva = tv2;
            assert(tv2[kv] == tv2.last());
            assert(ambiguous_from_call(tv2, kv, ctx.node_id, metamod_abs@, vv, ambiguous@));
        }
    }

    // Leftover download scratch from an interrupted platform install.
    let scratch_abs = join(ctx.root_abs.as_str(), source2::DOWNLOAD_SCRATCH_DIR);
    let ghost tr = host.trace();
    let scratch_listing = host.read_dir(ctx.node_id, scratch_abs.as_str());
    proof { lemma_reads_only_trans(t3, tr, host.trace()); lemma_reads_only_trans(t0, t3, host.trace()); }
    let ghost gs = scratch_listing;
    let scratch = match crate::handlers::lift(scratch_listing)? {
        Some(entries) => entries.len() as u64,
        None => 0,
    };

    let facts = DoctorFacts {
        metamod_dir,
        metamod_rel: ctx.rel(source2::METAMOD_DIR),
        gameinfo,
        css_dir,
        css_rel: ctx.rel(source2::CSS_DIR),
        duplicates,
        broken,
        orphans,
        stray,
        shared,
        ambiguous,
        scratch,
    };
    let checks = checks_of(&facts);
    let response = DoctorResponse { checks };
    let j = response.to_json();
    let resp = json_response(200, &j);
    proof {
        let t = host.trace();
        lemma_reads_only_trans(t0, t3, t);
        assert(t[kcss] == t3[kcss]);
        assert(t[t0.len() as int] == t2[t0.len() as int]);
        assert(t[t0.len() as int + 1] == t2[t0.len() as int + 1]);
        if gameinfo is Some {
            assert(t[t0.len() as int + 2] == t2[t0.len() as int + 2]);
        }
        assert(observed(t0, t, *ctx, facts));
        if css_dir {
            let plugins = join_spec(ctx.game_abs@, source2::CSS_PLUGINS_DIR@);
            lemma_listed_grows(t0, tlast, t, ctx.node_id, plugins, le);
            lemma_listed_grows(t0, tlast, t, ctx.node_id, join_spec(plugins, source2::DISABLED_DIR_NAME@), ld);
            crate::host_api::lemma_grew_trans(tb, tlast, t);
            let en = dir_names(le, true);
            let dis = dir_names(ld, false);
            lemma_missing_dlls_grow(tlast, t, kbg, en);
            lemma_missing_dlls_grow(tlast, t, kbg + en.len(), dis);
            lemma_probes_grow(tlast, t, kbg, ctx.node_id, plugins, en);
            lemma_probes_grow(tlast, t, kbg + en.len(), ctx.node_id, join_spec(plugins, source2::DISABLED_DIR_NAME@), dis);
            assert(duplicates_observed(t0, t, *ctx, facts));
            assert(orphans_observed(t0, t, *ctx, facts));
            lemma_stray_grows(tsc, t, ks, ctx.node_id, join_spec(ctx.game_abs@, source2::CSS_DIR@), facts.stray.unwrap());
            assert(stray_seen(t0, t, *ctx, facts));
            lemma_shared_observed_grows(thc, t, kh, ctx.node_id, join_spec(ctx.game_abs@, source2::CSS_DIR@), facts.shared.unwrap());
            assert(shared_seen(t0, t, *ctx, facts));
        }
        assert(response.json_is(j) && resp.body@ == json_text(j));
        if metamod_dir {
            assert(t[kv] == tva[kv]);
            assert(ambiguous_from_call(t, kv, ctx.node_id, join_spec(ctx.game_abs@, source2::METAMOD_DIR@), vv,
                facts.ambiguous@));
            assert(ambiguous_seen(t0, t, *ctx, facts));
        }
        assert(answers_doctor(resp.body@, facts));
        assert(doctor_answer(resp.body@, t0, t, *ctx));
    }
    Ok(resp)
}

} // verus!
