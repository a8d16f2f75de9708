//! GET /servers/{id}/state: the Metamod:Source / CounterStrikeSharp picture
//! of a server.

use vstd::prelude::*;

use crate::handlers::ctx::{lemma_route_failed, param_id, resolved_at, route_failed, ServerCtx};
use crate::handlers::{css_disabled_abs, css_plugins_abs, host_failure, is_dir_at, is_file_at, read_manifest};
use crate::host_api::{grew, lemma_reads_only_trans, reads_only, DirEntry, HostApi, HostApiError, HostCall};
use crate::handlers::doctor::{dir_names, keys_of, listed_at, listing_of};
use crate::http::{json_response, ApiError, ApiResult};
use crate::json::{json_text, Json};
use crate::model::{CssPluginEntry, CssState, MetamodPluginEntry, MetamodState, StatePaths, StateResponse};
use crate::order::{lemma_lex_asymmetric, lemma_lex_total, lemma_lex_transitive, lex_less, lex_lt};
use crate::source2;
use crate::source2::gameinfo;
use crate::source2::paths::{join, join_spec};
use crate::source2::vdf;
use crate::source2::vdf::{classified, vdf_sorted, VdfPlugin};
use crate::text::{cat, cat3, chars_of, eq_ic, eq_ignore_case, lower_seq, to_lower};

verus! {

/// Whether `name` equals one of `names` up to ASCII case.
pub fn contains_ic(names: &Vec<String>, name: &str) -> (b: bool)
    ensures
        b == exists|k: int| 0 <= k < names@.len() && eq_ic(#[trigger] names@[k]@, name@),
{
    let wanted = chars_of(name);
    let mut k: usize = 0;
    while k < names.len()
        invariant
            k <= names@.len(),
            wanted@ == name@,
            forall|j: int| 0 <= j < k ==> !eq_ic(#[trigger] names@[j]@, name@),
        decreases names@.len() - k,
    {
        if eq_ignore_case(chars_of(names[k].as_str()).as_slice(), wanted.as_slice()) {
            return true;
        }
        k = k + 1;
    }
    false
}

/// Index of the first of `names` from `i` on equal to `name` up to ASCII
/// case; the length when there is none.
pub open spec fn first_ic(names: Seq<String>, name: Seq<char>, i: int) -> int
    decreases names.len() - i,
{
    if i < 0 || i >= names.len() {
        names.len() as int
    } else if eq_ic(names[i]@, name) {
        i
    } else {
        first_ic(names, name, i + 1)
    }
}

/// Nothing before the first case-insensitive match matches.
proof fn lemma_first_ic_is_first(names: Seq<String>, name: Seq<char>, i: int, x: int)
    requires
        0 <= i <= x,
        x == first_ic(names, name, i),
        x < names.len(),
    ensures
        forall|k: int| i <= k < x ==> !eq_ic(#[trigger] names[k]@, name),
    decreases names.len() - i,
{
    if i < x {
        assert(!eq_ic(names[i]@, name));
        lemma_first_ic_is_first(names, name, i + 1, x);
    }
}

/// Position of the first of `names` equal to `name` up to ASCII case.
pub fn position_ic(names: &Vec<String>, name: &str) -> (r: Option<usize>)
    ensures
        r matches Some(i) ==> i < names@.len() && eq_ic(names@[i as int]@, name@),
        r is None ==> forall|k: int| 0 <= k < names@.len() ==> !eq_ic(#[trigger] names@[k]@, name@),
        (match r { Some(i) => i as int, None => names@.len() as int }) == first_ic(names@, name@, 0),
{
    let wanted = chars_of(name);
    let mut k: usize = 0;
    while k < names.len()
        invariant
            k <= names@.len(),
            wanted@ == name@,
            forall|j: int| 0 <= j < k ==> !eq_ic(#[trigger] names@[j]@, name@),
            first_ic(names@, name@, 0) == first_ic(names@, name@, k as int),
        decreases names@.len() - k,
    {
        if eq_ignore_case(chars_of(names[k].as_str()).as_slice(), wanted.as_slice()) {
            return Some(k);
        }
        k = k + 1;
    }
    None
}

/// The texts of a list of strings.
pub open spec fn texts(s: Seq<String>) -> Seq<Seq<char>> {
    s.map_values(|x: String| x@)
}

/// Ordered by ASCII-lowercase form, ties allowed.
pub open spec fn sorted_ic(s: Seq<String>) -> bool {
    forall|i: int, j: int| 0 <= i < j < s.len() ==> !lex_lt(lower_seq(s[j]@), lower_seq(s[i]@))
}

/// Inserting an element adds it to the multiset of a sequence.
pub proof fn lemma_insert_to_multiset<A>(s: Seq<A>, p: int, x: A)
    requires
        0 <= p <= s.len(),
    ensures
        s.insert(p, x).to_multiset() =~= s.to_multiset().insert(x),
{
    broadcast use vstd::seq_lib::group_to_multiset_ensures;
    let t = s.insert(p, x);
    assert(t.remove(p) =~= s);
    assert(t[p] == x);
    assert(t.to_multiset().count(x) > 0);
}

/// Sorts group names by their ASCII-lowercase form: the same names, in
/// order, with equal forms kept in their input order.
pub fn sort_ic(names: Vec<String>) -> (r: Vec<String>)
    ensures
        texts(r@).to_multiset() == texts(names@).to_multiset(),
        sorted_ic(r@),
{
    let mut out: Vec<String> = Vec::new();
    let mut i: usize = 0;
    assert(texts(out@) =~= texts(names@.take(0)));
    while i < names.len()
        invariant
            i <= names@.len(),
            texts(out@).to_multiset() == texts(names@.take(i as int)).to_multiset(),
            sorted_ic(out@),
        decreases names@.len() - i,
    {
        let key = to_lower(chars_of(names[i].as_str()).as_slice());
        assert(key@ == lower_seq(names@[i as int]@));
        let mut p: usize = 0;
        while p < out.len() && !lex_less(key.as_slice(), to_lower(chars_of(out[p].as_str()).as_slice()).as_slice())
            invariant
                p <= out@.len(),
                key@ == lower_seq(names@[i as int]@),
                forall|q: int| 0 <= q < p ==> !lex_lt(key@, lower_seq((#[trigger] out@[q])@)),
            decreases out@.len() - p,
        {
            p = p + 1;
        }
        let item = names[i].clone();
        let ghost before = out@;
        out.insert(p, item);
        proof {
            let after = out@;
            let pp = p as int;
            assert(texts(after) =~= texts(before).insert(pp, names@[i as int]@));
            lemma_insert_to_multiset(texts(before), pp, names@[i as int]@);
            assert(texts(names@.take(i + 1)) =~= texts(names@.take(i as int)).push(names@[i as int]@));
            broadcast use vstd::seq_lib::group_to_multiset_ensures;
            assert forall|a: int, b: int| 0 <= a < b < after.len() implies !lex_lt(lower_seq(after[b]@), lower_seq(after[a]@)) by {
                if b < pp {
                    assert(after[a] == before[a] && after[b] == before[b]);
                } else if b == pp {
                    assert(after[a] == before[a]);
                    assert(!lex_lt(key@, lower_seq(before[a]@)));
                } else if a == pp {
                    assert(after[b] == before[b - 1]);
                    assert(lex_lt(key@, lower_seq(before[pp]@)));
                    let x = lower_seq(before[pp]@);
                    let y = lower_seq(before[b - 1]@);
                    if b - 1 > pp {
                        assert(!lex_lt(y, x));
                        lemma_lex_total(x, y);
                        if x != y {
                            lemma_lex_transitive(key@, x, y);
                        }
                    }
                    lemma_lex_asymmetric(key@, y);
                } else if a < pp {
                    assert(after[a] == before[a] && after[b] == before[b - 1]);
                } else {
                    assert(after[a] == before[a - 1] && after[b] == before[b - 1]);
                }
            }
        }
        i = i + 1;
    }
    proof {
        assert(names@.take(names@.len() as int) =~= names@);
    }
    out
}

/// A row of the plugin table as plain values: (folder, enabled, missing).
pub open spec fn row_view(r: (String, bool, bool)) -> (Seq<char>, bool, bool) {
    (r.0@, r.1, r.2)
}

pub open spec fn rows_view(rows: Seq<(String, bool, bool)>) -> Seq<(Seq<char>, bool, bool)> {
    rows.map_values(|r: (String, bool, bool)| row_view(r))
}

/// Whether some row carries `name` up to ASCII case.
pub open spec fn has_row_ic(rows: Seq<(String, bool, bool)>, name: Seq<char>) -> bool {
    exists|k: int| 0 <= k < rows.len() && eq_ic((#[trigger] rows[k]).0@, name)
}

/// The "Missing" rows: each manifest name that no folder row carries (up to
/// ASCII case), in manifest order, as a disabled, missing row.
pub open spec fn missing_rows(names: Seq<String>, rows: Seq<(String, bool, bool)>) -> Seq<(Seq<char>, bool, bool)>
    decreases names.len(),
{
    if names.len() == 0 {
        Seq::empty()
    } else {
        let rest = missing_rows(names.drop_last(), rows);
        if has_row_ic(rows, names.last()@) {
            rest
        } else {
            rest.push((names.last()@, false, true))
        }
    }
}

/// The folder rows followed by the rows of manifest entries whose folder is
/// gone.
pub fn with_missing_rows(plugins: Vec<(String, bool, bool)>, names: &Vec<String>) -> (r: Vec<(String, bool, bool)>)
    ensures
        rows_view(r@) == rows_view(plugins@) + missing_rows(names@, plugins@),
{
    let mut seen: Vec<String> = Vec::new();
    let mut i: usize = 0;
    while i < plugins.len()
        invariant
            i <= plugins@.len(),
            seen@.len() == i,
            forall|j: int| 0 <= j < i ==> (#[trigger] seen@[j])@ == plugins@[j].0@,
        decreases plugins@.len() - i,
    {
        seen.push(plugins[i].0.clone());
        i = i + 1;
    }
    let ghost rows = plugins@;
    let mut out = plugins;
    let mut k: usize = 0;
    assert(names@.take(0) =~= Seq::<String>::empty());
    assert(rows_view(out@) =~= rows_view(rows) + missing_rows(names@.take(0), rows));
    while k < names.len()
        invariant
            k <= names@.len(),
            seen@.len() == rows.len(),
            forall|j: int| 0 <= j < rows.len() ==> (#[trigger] seen@[j])@ == rows[j].0@,
            rows_view(out@) == rows_view(rows) + missing_rows(names@.take(k as int), rows),
        decreases names@.len() - k,
    {
        let ghost before = out@;
        assert(names@.take(k + 1).drop_last() =~= names@.take(k as int));
        let found = contains_ic(&seen, names[k].as_str());
        proof {
            if found {
                let j = choose|j: int| 0 <= j < seen@.len() && eq_ic(#[trigger] seen@[j]@, names@[k as int]@);
                assert(eq_ic(rows[j].0@, names@[k as int]@));
                assert(has_row_ic(rows, names@[k as int]@));
            } else {
                assert forall|j: int| 0 <= j < rows.len() implies !eq_ic((#[trigger] rows[j]).0@, names@[k as int]@) by {
                    assert(seen@[j]@ == rows[j].0@);
                }
            }
        }
        if !found {
            out.push((names[k].clone(), false, true));
            proof {
                assert(rows_view(out@) =~= rows_view(before).push((names@[k as int]@, false, true)));
            }
        }
        k = k + 1;
    }
    assert(names@.take(names@.len() as int) =~= names@);
    out
}

/// The groups named among `groups`, each once up to ASCII case (the first
/// spelling wins), in order of first appearance.
pub open spec fn distinct_groups(groups: Seq<Option<String>>) -> Seq<Seq<char>>
    decreases groups.len(),
{
    if groups.len() == 0 {
        Seq::empty()
    } else {
        let rest = distinct_groups(groups.drop_last());
        match groups.last() {
            Some(g) => if exists|k: int| 0 <= k < rest.len() && eq_ic(#[trigger] rest[k], g@) {
                rest
            } else {
                rest.push(g@)
            },
            None => rest,
        }
    }
}

/// Group display order: the named groups, each once, sorted by their
/// ASCII-lowercase form.
pub fn display_groups(groups: &Vec<Option<String>>) -> (r: Vec<String>)
    ensures
        texts(r@).to_multiset() == distinct_groups(groups@).to_multiset(),
        sorted_ic(r@),
{
    let mut names: Vec<String> = Vec::new();
    let mut j: usize = 0;
    assert(groups@.take(0) =~= Seq::<Option<String>>::empty());
    assert(texts(names@) =~= distinct_groups(groups@.take(0)));
    while j < groups.len()
        invariant
            j <= groups@.len(),
            texts(names@) == distinct_groups(groups@.take(j as int)),
        decreases groups@.len() - j,
    {
        assert(groups@.take(j + 1).drop_last() =~= groups@.take(j as int));
        match &groups[j] {
            Some(group) => {
                let found = contains_ic(&names, group.as_str());
                proof {
                    let rest = distinct_groups(groups@.take(j as int));
                    if found {
                        let k = choose|k: int| 0 <= k < names@.len() && eq_ic(#[trigger] names@[k]@, group@);
                        assert(rest[k] == names@[k]@);
                    } else {
                        assert forall|k: int| 0 <= k < rest.len() implies !eq_ic(#[trigger] rest[k], group@) by {
                            assert(rest[k] == names@[k]@);
                        }
                    }
                }
                if !found {
                    let ghost before = names@;
                    names.push(group.clone());
                    proof {
                        assert(texts(names@) =~= texts(before).push(group@));
                    }
                }
            },
            None => {},
        }
        j = j + 1;
    }
    assert(groups@.take(groups@.len() as int) =~= groups@);
    sort_ic(names)
}

/// Where a row with `group` sits in the display: the index of its group
/// (the count of groups when it is not among them) and the header; rows
/// without a group share `u32::MAX` and no header.
pub open spec fn group_slot_spec(group_names: Seq<String>, group: Option<String>) -> (u32, Option<Seq<char>>) {
    match group {
        Some(title) => (first_ic(group_names, title@, 0) as u32, Some(title@)),
        None => (4294967295u32, None),
    }
}

pub fn group_slot(group_names: &Vec<String>, group: &Option<String>) -> (r: (u32, Option<String>))
    ensures
        (r.0, match r.1 { Some(t) => Some(t@), None => None }) == group_slot_spec(group_names@, *group),
        group is None ==> r.0 == u32::MAX && r.1 is None,
        group matches Some(t) ==> r.1 matches Some(s) && s@ == t@,
        group matches Some(t) ==> (group_names@.len() < u32::MAX ==> {
            &&& r.0 <= group_names@.len()
            &&& r.0 < group_names@.len() ==> eq_ic(group_names@[r.0 as int]@, t@)
            &&& forall|k: int| 0 <= k < r.0 && k < group_names@.len() ==> !eq_ic(#[trigger] group_names@[k]@, t@)
        }),
{
    match group {
        Some(title) => {
            let found = position_ic(group_names, title.as_str());
            let index = match found {
                Some(x) => x,
                None => group_names.len(),
            };
            proof {
                if let Some(x) = found {
                    lemma_first_ic_is_first(group_names@, title@, 0, x as int);
                }
            }
            (index as u32, Some(title.clone()))
        },
        None => (4294967295u32, None),
    }
}

/// Among the calls after `t0` is a probe of `path` whose answer said a file
/// is there exactly when `present`.
pub open spec fn probed_at(t0: Seq<HostCall>, t: Seq<HostCall>, node: u64, path: Seq<char>, present: bool) -> bool {
    exists|k: int| #![trigger t[k]] t0.len() <= k < t.len() && (t[k] matches HostCall::Stat(n, p, a)
        && n == node && p == path && crate::handlers::stat_file(a) == Ok::<bool, HostApiError>(present))
}

/// A probe seen stays seen as calls are appended.
pub proof fn lemma_probed_grows(t0: Seq<HostCall>, a: Seq<HostCall>, b: Seq<HostCall>, node: u64, path: Seq<char>, present: bool)
    requires
        probed_at(t0, a, node, path, present),
        grew(a, b),
    ensures
        probed_at(t0, b, node, path, present),
{
    let k = choose|k: int| #![trigger a[k]] t0.len() <= k < a.len() && (a[k] matches HostCall::Stat(n, p, x)
        && n == node && p == path && crate::handlers::stat_file(x) == Ok::<bool, HostApiError>(present));
    assert(b[k] == a[k]);
}

/// A probe seen after `t1` was seen after any earlier `t0` too.
pub proof fn lemma_probed_earlier(t0: Seq<HostCall>, t1: Seq<HostCall>, t: Seq<HostCall>, node: u64, path: Seq<char>, present: bool)
    requires
        probed_at(t1, t, node, path, present),
        t0.len() <= t1.len(),
    ensures
        probed_at(t0, t, node, path, present),
{
    let k = choose|k: int| #![trigger t[k]] t1.len() <= k < t.len() && (t[k] matches HostCall::Stat(n, p, x)
        && n == node && p == path && crate::handlers::stat_file(x) == Ok::<bool, HostApiError>(present));
    assert(t[k] == t[k]);
}

/// A plugin row's missing flag follows from a probe, after `t0`, of its
/// dll in `dir`.
pub open spec fn row_probed(t0: Seq<HostCall>, t: Seq<HostCall>, node: u64, dir: Seq<char>, e: CssPluginEntry) -> bool {
    probed_at(t0, t, node, crate::handlers::doctor::dll_path(dir, e.name@), !e.missing)
}

/// The missing flag of a folder row follows from a probe of its dll.
pub open spec fn flag_probed(t0: Seq<HostCall>, t: Seq<HostCall>, node: u64, dir: Seq<char>, row: (String, bool, bool)) -> bool {
    probed_at(t0, t, node, crate::handlers::doctor::dll_path(dir, row.0@), !row.2)
}

/// Plugin folders directly inside `dir_abs` as (name, enabled, missing),
/// `missing` when the folder lacks its `<name>.dll`.
fn collect_plugin_dirs<H: HostApi>(
    host: &mut H,
    node_id: u64,
    dir_abs: &str,
    enabled: bool,
    out: &mut Vec<(String, bool, bool)>,
) -> (r: Result<(), HostApiError>)
    ensures
        final(out)@.len() >= old(out)@.len(),
        final(out)@.take(old(out)@.len() as int) == old(out)@,
        forall|j: int| old(out)@.len() <= j < final(out)@.len() ==> (#[trigger] final(out)@[j]).1 == enabled
            && (enabled ==> !eq_ic(final(out)@[j].0@, source2::DISABLED_DIR_NAME@)),
        r is Ok ==> exists|listing: Seq<DirEntry>|
            final(out)@.skip(old(out)@.len() as int).map_values(|t: (String, bool, bool)| t.0@)
                == #[trigger] dir_names(listing, enabled),
        reads_only(old(host).trace(), final(host).trace()),
        forall|j: int| old(out)@.len() <= j < final(out)@.len()
            ==> flag_probed(old(host).trace(), final(host).trace(), node_id, dir_abs@, #[trigger] final(out)@[j]),
        final(host).trace().len() > old(host).trace().len(),
        final(host).trace()[old(host).trace().len() as int] matches HostCall::ReadDir(n, p, a) && n == node_id && p == dir_abs@
            && (r is Ok ==> a is Ok && final(out)@.skip(old(out)@.len() as int).map_values(|t: (String, bool, bool)| t.0@)
                == dir_names(listing_of(a), enabled)),
{
    let ghost start = out@;
    let ghost t0 = host.trace();
    let listed = host.read_dir(node_id, dir_abs);
    let ghost t1 = host.trace();
    let entries = match listed {
        Ok(l) => l,
        Err(h) => return Err(h),
    };
    let entries = match entries {
        Some(e) => e,
        None => {
            assert(out@.skip(start.len() as int).map_values(|t: (String, bool, bool)| t.0@)
                =~= dir_names(Seq::<DirEntry>::empty(), enabled));
            return Ok(());
        },
    };
    assert(entries@.take(0) =~= Seq::<DirEntry>::empty());
    assert(out@.skip(start.len() as int).map_values(|t: (String, bool, bool)| t.0@)
        =~= dir_names(entries@.take(0), enabled));
    let disabled = chars_of(source2::DISABLED_DIR_NAME);
    let mut i: usize = 0;
    while i < entries.len()
        invariant
            i <= entries@.len(),
            disabled@ == source2::DISABLED_DIR_NAME@,
            start == old(out)@,
            out@.len() >= start.len(),
            out@.take(start.len() as int) == start,
            forall|j: int| start.len() <= j < out@.len() ==> (#[trigger] out@[j]).1 == enabled
                && (enabled ==> !eq_ic(out@[j].0@, source2::DISABLED_DIR_NAME@)),
            out@.skip(start.len() as int).map_values(|t: (String, bool, bool)| t.0@)
                == dir_names(entries@.take(i as int), enabled),
            reads_only(t0, host.trace()),
            t0 == old(host).trace(),
            grew(t1, host.trace()),
            t1.len() == t0.len() + 1,
            t1[t0.len() as int] == HostCall::ReadDir(node_id, dir_abs@, listed),
            listed == Ok::<Option<Vec<DirEntry>>, HostApiError>(Some(entries)),
            forall|j: int| start.len() <= j < out@.len()
                ==> flag_probed(t0, host.trace(), node_id, dir_abs@, #[trigger] out@[j]),
        decreases entries@.len() - i,
    {
        assert(entries@.take(i + 1).drop_last() =~= entries@.take(i as int));
        assert(entries@.take(i + 1).last() == entries@[i as int]);
        let entry = &entries[i];
        if entry.is_dir && !(enabled && eq_ignore_case(chars_of(entry.name.as_str()).as_slice(), disabled.as_slice())) {
            let dll_abs = join(join(dir_abs, entry.name.as_str()).as_str(), cat(entry.name.as_str(), ".dll").as_str());
            let ghost tb = host.trace();
            let dll_present = is_file_at(host, node_id, dll_abs.as_str());
            proof {
                lemma_reads_only_trans(t0, tb, host.trace());
                crate::host_api::lemma_grew_trans(t1, tb, host.trace());
            }
            proof {
                assert forall|j: int| start.len() <= j < out@.len()
                    implies flag_probed(t0, host.trace(), node_id, dir_abs@, #[trigger] out@[j]) by {
                    lemma_probed_grows(t0, tb, host.trace(), node_id,
                        crate::handlers::doctor::dll_path(dir_abs@, out@[j].0@), !out@[j].2);
                }
            }
            let dll_present = match dll_present {
                Ok(b) => b,
                Err(e) => return Err(e),
            };
            let ghost before = out@;
            proof {
                let t = host.trace();
                reveal_strlit(".dll");
                assert(dll_abs@ == crate::handlers::doctor::dll_path(dir_abs@, entries@[i as int].name@));
                let a = choose|a: Result<Option<crate::host_api::FileStat>, HostApiError>|
                    t == tb.push(HostCall::Stat(node_id, dll_abs@, a))
                    && Ok::<bool, HostApiError>(dll_present) == #[trigger] crate::handlers::stat_file(a);
                assert(t[tb.len() as int] == HostCall::Stat(node_id, dll_abs@, a));
                assert forall|j: int| start.len() <= j < before.len()
                    implies flag_probed(t0, t, node_id, dir_abs@, #[trigger] before[j]) by {
                    lemma_probed_grows(t0, tb, t, node_id,
                        crate::handlers::doctor::dll_path(dir_abs@, before[j].0@), !before[j].2);
                }
            }
            out.push((entry.name.clone(), enabled, !dll_present));
            proof {
                let t = host.trace();
                assert(out@[before.len() as int].0@ == entries@[i as int].name@);
                assert(flag_probed(t0, t, node_id, dir_abs@, out@[before.len() as int]));
                assert forall|j: int| start.len() <= j < out@.len()
                    implies flag_probed(t0, t, node_id, dir_abs@, #[trigger] out@[j]) by {
                    if j < before.len() {
                        assert(out@[j] == before[j]);
                    }
                }
            }
            assert(out@.take(start.len() as int) =~= before.take(start.len() as int));
            assert(out@.skip(start.len() as int).map_values(|t: (String, bool, bool)| t.0@)
                =~= before.skip(start.len() as int).map_values(|t: (String, bool, bool)| t.0@).push(entries@[i as int].name@));
        }
        i = i + 1;
    }
    assert(entries@.take(entries@.len() as int) =~= entries@);
    assert(host.trace()[t0.len() as int] == t1[t0.len() as int]);
    Ok(())
}

/// The state answer of the server with this id.
pub open spec fn answers_state(body: Seq<u8>, server_id: u64) -> bool {
    exists|t: StateResponse, j: Json| #[trigger] t.json_is(j) && body == json_text(j) && t.server_id == server_id
        && t.metamod.installed == (t.metamod.dir_present && t.metamod.gameinfo_wired)
        && state_rows(t)
}

/// The plugin rows of a state answer as plain values: (name, enabled, missing).
pub open spec fn entry_rows(es: Seq<CssPluginEntry>) -> Seq<(Seq<char>, bool, bool)> {
    es.map_values(|e: CssPluginEntry| (e.name@, e.enabled, e.missing))
}

/// The Metamod rows of a state answer as plain values: (name, enabled).
pub open spec fn mm_rows(es: Seq<MetamodPluginEntry>) -> Seq<(Seq<char>, bool)> {
    es.map_values(|e: MetamodPluginEntry| (e.name@, e.enabled))
}

/// How a state answer's rows are made: the folders of plugins/ (but the
/// disabled folder) as enabled rows, then those of plugins/disabled/ as
/// disabled rows, in listing order, then one "Missing" row per manifest
/// name no folder carries; the Metamod rows are the VDF plugins of a
/// listing of addons/metamod, in VDF order.
pub open spec fn state_rows(t: StateResponse) -> bool {
    exists|le: Seq<DirEntry>, ld: Seq<DirEntry>, vl: Seq<DirEntry>, mk: Seq<Seq<char>>| #[trigger] rows_from(t, le, ld, vl, mk)
}

/// [`state_rows`] from the manifest's names (`mk`) and the listings of
/// plugins/ (`le`), plugins/disabled/
/// (`ld`) and addons/metamod (`vl`).
pub open spec fn rows_from(t: StateResponse, le: Seq<DirEntry>, ld: Seq<DirEntry>, vl: Seq<DirEntry>, mk: Seq<Seq<char>>) -> bool {
    exists|folders: Seq<(String, bool, bool)>, names: Seq<String>, vdfs: Seq<VdfPlugin>|
        #![trigger missing_rows(names, folders), vdf_sorted(vdfs)]
    {
        &&& folders.map_values(|r: (String, bool, bool)| r.0@) == dir_names(le, true) + dir_names(ld, false)
        &&& forall|i: int| 0 <= i < folders.len() ==> (#[trigger] folders[i]).1 == (i < dir_names(le, true).len())
        &&& names.map_values(|n: String| n@) == mk
        &&& entry_rows(t.css.plugins@) == rows_view(folders) + missing_rows(names, folders)
        &&& vdf_sorted(vdfs)
        &&& mm_rows(t.metamod.plugins@) == vdfs.map_values(|p: VdfPlugin| vdf::plugin_view(p))
        &&& vdfs.map_values(|p: VdfPlugin| vdf::plugin_view(p)).to_multiset() == classified(vl).to_multiset()
    }
}

/// The state answer of a resolved server, read off the calls after `t0`:
/// its rows come from the answers to its listings of plugins/,
/// plugins/disabled/ and addons/metamod.
pub open spec fn state_seen(body: Seq<u8>, t0: Seq<HostCall>, t: Seq<HostCall>, ctx: ServerCtx) -> bool {
    let plugins = join_spec(ctx.game_abs@, source2::CSS_PLUGINS_DIR@);
    exists|st: StateResponse, j: Json, le: Seq<DirEntry>, ld: Seq<DirEntry>, vl: Seq<DirEntry>,
        ta: Seq<HostCall>, tb: Seq<HostCall>, root: Seq<(String, Json)>|
        #![trigger st.json_is(j), rows_from(st, le, ld, vl, keys_of(root)), crate::handlers::manifest_read(ta, tb, ctx.node_id, ctx.game_abs@, root)]
    {
        &&& st.json_is(j) && body == json_text(j) && st.server_id == ctx.server_id
        &&& rows_from(st, le, ld, vl, keys_of(root))
        &&& t0.len() <= ta.len() && grew(tb, t) && crate::handlers::manifest_read(ta, tb, ctx.node_id, ctx.game_abs@, root)
        &&& listed_at(t0, t, ctx.node_id, plugins, le)
        &&& listed_at(t0, t, ctx.node_id, join_spec(plugins, source2::DISABLED_DIR_NAME@), ld)
        &&& listed_at(t0, t, ctx.node_id, join_spec(ctx.game_abs@, source2::METAMOD_DIR@), vl)
        &&& forall|q: int| 0 <= q < dir_names(le, true).len()
            ==> row_probed(t0, t, ctx.node_id, plugins, #[trigger] st.css.plugins@[q])
        &&& forall|q: int| dir_names(le, true).len() <= q < dir_names(le, true).len() + dir_names(ld, false).len()
            ==> row_probed(t0, t, ctx.node_id, join_spec(plugins, source2::DISABLED_DIR_NAME@), #[trigger] st.css.plugins@[q])
    }
}

/// The state route on server `id`: the server resolved, then [`state_seen`].
pub open spec fn state_handled(body: Seq<u8>, t0: Seq<HostCall>, t: Seq<HostCall>, id: u64) -> bool {
    exists|tm: Seq<HostCall>, c: ServerCtx| #[trigger] resolved_at(t0, tm, id, c) && state_seen(body, tm, t, c)
}

pub fn handle<H: HostApi>(host: &mut H, params: &Vec<(String, String)>) -> (r: ApiResult)
    ensures
        param_id(params@) is None ==> (r matches Err(e) && e.status == 400),
        r matches Ok(resp) ==> resp.status == 200 && param_id(params@) is Some && answers_state(resp.body@, param_id(params@).unwrap()),
        r matches Ok(resp) ==> state_handled(resp.body@, old(host).trace(), final(host).trace(), param_id(params@).unwrap()),
        r matches Err(e) ==> route_failed(old(host).trace(), final(host).trace(), params@, e, |x: ApiError| host_failure(x)),
        reads_only(old(host).trace(), final(host).trace()),
{
    let ghost t0 = host.trace();
    let ctx = ServerCtx::resolve(host, params)?;
    let ghost tm = host.trace();
    assert(resolved_at(t0, tm, ctx.server_id, ctx));
    let r = state_of(host, &ctx);
    proof {
        lemma_reads_only_trans(t0, tm, host.trace());
        if r is Err {
            lemma_route_failed(t0, tm, host.trace(), params@, ctx, r->Err_0, |x: ApiError| host_failure(x));
        }
    }
    r
}

/// The state response of a resolved server.
#[verifier::rlimit(60)]
#[verifier::spinoff_prover]
pub fn state_of<H: HostApi>(host: &mut H, ctx: &ServerCtx) -> (r: ApiResult)
    ensures
        r matches Ok(resp) ==> resp.status == 200 && answers_state(resp.body@, ctx.server_id),
        r matches Ok(resp) ==> state_seen(resp.body@, old(host).trace(), final(host).trace(), *ctx),
        r matches Err(e) ==> crate::handlers::host_failure(e),
        reads_only(old(host).trace(), final(host).trace()),
{
    let ctx = ctx;
    let ghost t0 = host.trace();

    // Metamod:Source: the addons dir plus the gameinfo.gi search-path wiring.
    let metamod_abs = join(ctx.game_abs.as_str(), source2::METAMOD_DIR);
    let dir_present = crate::handlers::lift(is_dir_at(host, ctx.node_id, metamod_abs.as_str()))?;
    let ghost ta = host.trace();
    let gameinfo_abs = join(ctx.game_abs.as_str(), source2::GAMEINFO_FILE);
    let gi_file = is_file_at(host, ctx.node_id, gameinfo_abs.as_str());
    let ghost tg = host.trace();
    proof {
        lemma_reads_only_trans(t0, ta, tg);
    }
    let gameinfo_wired = if crate::handlers::lift(gi_file)? {
        let content = host.download(ctx.node_id, gameinfo_abs.as_str());
        proof {
            lemma_reads_only_trans(t0, tg, host.trace());
        }
        let content = crate::handlers::lift(content)?;
        gameinfo::is_metamod_wired(content.as_slice())
    } else {
        false
    };
    let ghost tb = host.trace();
    let vdfs = vdf::list(host, ctx.node_id, metamod_abs.as_str());
    proof {
        lemma_reads_only_trans(t0, tb, host.trace());
    }
    let ghost tv = host.trace();
    let vdfs = crate::handlers::lift(vdfs)?;
    let ghost vl = listing_of(tv.last()->ReadDir_2);

    let css_abs = join(ctx.game_abs.as_str(), source2::CSS_DIR);
    let ghost tc = host.trace();
    let css_installed = is_dir_at(host, ctx.node_id, css_abs.as_str());
    proof {
        lemma_reads_only_trans(t0, tc, host.trace());
    }
    let css_installed = crate::handlers::lift(css_installed)?;

    let ghost td = host.trace();
    let manifest = read_manifest(host, ctx);
    proof {
        lemma_reads_only_trans(t0, td, host.trace());
    }
    let manifest = manifest?;
    let ghost tm = host.trace();

    // Folder scan: plugins/ (enabled) and plugins/disabled/ (disabled).
    let mut plugins: Vec<(String, bool, bool)> = Vec::new();
    let ghost te = host.trace();
    let first = collect_plugin_dirs(host, ctx.node_id, css_plugins_abs(ctx).as_str(), true, &mut plugins);
    proof {
        lemma_reads_only_trans(t0, te, host.trace());
    }
    crate::handlers::lift(first)?;
    let ghost p1 = plugins@;
    let ghost tf = host.trace();
    let ghost le = listing_of(tf[te.len() as int]->ReadDir_2);
    let second = collect_plugin_dirs(host, ctx.node_id, css_disabled_abs(ctx).as_str(), false, &mut plugins);
    proof {
        lemma_reads_only_trans(t0, tf, host.trace());
    }
    crate::handlers::lift(second)?;
    let ghost p2 = plugins@;
    let ghost tq = host.trace();
    let ghost ld = listing_of(tq[tf.len() as int]->ReadDir_2);
    proof {
        let plugins_dir = join_spec(ctx.game_abs@, source2::CSS_PLUGINS_DIR@);
        assert(tq[te.len() as int] == tf[te.len() as int]);
        assert(tq[tb.len() as int] == tv[tb.len() as int]) by {
            crate::host_api::lemma_grew_trans(tv, tf, tq);
        }
        assert(listed_at(t0, tq, ctx.node_id, plugins_dir, le));
        assert(listed_at(t0, tq, ctx.node_id, join_spec(plugins_dir, source2::DISABLED_DIR_NAME@), ld));
        assert(listed_at(t0, tq, ctx.node_id, join_spec(ctx.game_abs@, source2::METAMOD_DIR@), vl));
    }
    proof {
        assert(p1.skip(0) =~= p1);
        assert(p2 =~= p1 + p2.skip(p1.len() as int));
        assert(p2.map_values(|r: (String, bool, bool)| r.0@) =~= dir_names(le, true) + dir_names(ld, false));
        assert(p1.map_values(|t: (String, bool, bool)| t.0@).len() == p1.len());
    }

    // Manifest entries whose folder has vanished: the "Missing" status.
    let names = manifest.names();
    let ghost folders = plugins@;
    let plugins = with_missing_rows(plugins, &names);

    // Group display order: named groups alphabetically, ungrouped last.
    let mut groups: Vec<Option<String>> = Vec::new();
    let mut j: usize = 0;
    while j < plugins.len()
        invariant
            j <= plugins@.len(),
        decreases plugins@.len() - j,
    {
        groups.push(manifest.group(plugins[j].0.as_str()));
        j = j + 1;
    }
    let group_names = display_groups(&groups);

    let mut entries: Vec<CssPluginEntry> = Vec::new();
    let mut p: usize = 0;
    while p < plugins.len()
        invariant
            p <= plugins@.len(),
            entries@.len() == p,
            forall|q: int| 0 <= q < p ==> (#[trigger] entries@[q]).name@ == plugins@[q].0@
                && entries@[q].enabled == plugins@[q].1 && entries@[q].missing == plugins@[q].2,
            reads_only(t0, host.trace()),
            t0 == old(host).trace(),
            grew(tq, host.trace()),
        decreases plugins@.len() - p,
    {
        let name = plugins[p].0.as_str();
        let config_rel = join(source2::CSS_CONFIGS_DIR, cat3(name, "/", cat(name, ".json").as_str()).as_str());
        let config_abs = join(ctx.game_abs.as_str(), config_rel.as_str());
        let ghost th = host.trace();
        let has_config = is_file_at(host, ctx.node_id, config_abs.as_str());
        proof {
            lemma_reads_only_trans(t0, th, host.trace());
            crate::host_api::lemma_grew_trans(tq, th, host.trace());
        }
        let has_config = crate::handlers::lift(has_config)?;
        let group = manifest.group(name);
        let (group_index, group_title) = group_slot(&group_names, &group);
        let entry = CssPluginEntry {
            name: plugins[p].0.clone(),
            enabled: plugins[p].1,
            missing: plugins[p].2,
            comment: manifest.comment(name),
            group,
            has_config,
            config_path: if has_config { Some(ctx.rel(config_rel.as_str())) } else { None },
            group_index,
            group_title,
        };
        entries.push(entry);
        p = p + 1;
    }

    let mut mm_plugins: Vec<MetamodPluginEntry> = Vec::new();
    let mut v: usize = 0;
    while v < vdfs.len()
        invariant
            v <= vdfs@.len(),
            mm_plugins@.len() == v,
            forall|q: int| 0 <= q < v ==> (#[trigger] mm_plugins@[q]).name@ == vdfs@[q].name@
                && mm_plugins@[q].enabled == vdfs@[q].enabled,
        decreases vdfs@.len() - v,
    {
        let entry = MetamodPluginEntry {
            name: vdfs[v].name.clone(),
            enabled: vdfs[v].enabled,
            platform: vdf::is_platform(vdfs[v].name.as_str()),
        };
        mm_plugins.push(entry);
        v = v + 1;
    }

    let response = StateResponse {
        server_id: ctx.server_id,
        game_code: ctx.game_code.clone(),
        engine: ctx.engine.clone(),
        engine_version: ctx.engine_version.clone(),
        game_dir: ctx.game_dir.clone(),
        paths: StatePaths {
            gameinfo: ctx.rel(source2::GAMEINFO_FILE),
            metamod_dir: ctx.rel(source2::METAMOD_DIR),
            css_dir: ctx.rel(source2::CSS_DIR),
            css_plugins_dir: ctx.rel(source2::CSS_PLUGINS_DIR),
            css_disabled_dir: ctx.rel(join(source2::CSS_PLUGINS_DIR, source2::DISABLED_DIR_NAME).as_str()),
            css_configs_dir: ctx.rel(source2::CSS_CONFIGS_DIR),
            meta_manifest: ctx.rel(source2::META_MANIFEST),
        },
        metamod: MetamodState {
            installed: dir_present && gameinfo_wired,
            dir_present,
            gameinfo_wired,
            plugins: mm_plugins,
        },
        css: CssState { installed: css_installed, plugins: entries },
    };
    let j = response.to_json();
    let resp = json_response(200, &j);
    proof {
        assert(entry_rows(response.css.plugins@) =~= rows_view(plugins@));
        assert(mm_rows(response.metamod.plugins@) =~= vdfs@.map_values(|p: VdfPlugin| vdf::plugin_view(p)));
        assert forall|q: int| 0 <= q < folders.len() implies (#[trigger] folders[q]).1 == (q < dir_names(le, true).len()) by {
            if q < p1.len() {
                assert(folders[q] == p1[q]);
            }
        }
        assert(names@.map_values(|n: String| n@) =~= keys_of(manifest.root@));
        assert(rows_from(response, le, ld, vl, keys_of(manifest.root@)));
        assert(state_rows(response));
        let t = host.trace();
        crate::handlers::doctor::lemma_listed_grows(t0, tq, t, ctx.node_id, join_spec(ctx.game_abs@, source2::CSS_PLUGINS_DIR@), le);
        crate::handlers::doctor::lemma_listed_grows(t0, tq, t, ctx.node_id,
            join_spec(join_spec(ctx.game_abs@, source2::CSS_PLUGINS_DIR@), source2::DISABLED_DIR_NAME@), ld);
        crate::handlers::doctor::lemma_listed_grows(t0, tq, t, ctx.node_id, join_spec(ctx.game_abs@, source2::METAMOD_DIR@), vl);
        crate::host_api::lemma_grew_trans(tm, tq, t);
        assert(crate::handlers::manifest_read(td, tm, ctx.node_id, ctx.game_abs@, manifest.root@));
        let plugins_dir = join_spec(ctx.game_abs@, source2::CSS_PLUGINS_DIR@);
        let disabled_dir = join_spec(plugins_dir, source2::DISABLED_DIR_NAME@);
        let n1 = dir_names(le, true).len();
        let n2 = dir_names(ld, false).len();
        assert(p1.map_values(|r: (String, bool, bool)| r.0@).len() == p1.len());
        assert(p1.len() == n1);
        assert(folders.len() == n1 + n2);
        assert forall|q: int| 0 <= q < n1 + n2 implies row_view(plugins@[q]) == row_view(folders[q]) by {
            assert(rows_view(plugins@)[q] == rows_view(folders)[q]);
        }
        assert forall|q: int| 0 <= q < n1
            implies row_probed(t0, t, ctx.node_id, plugins_dir, #[trigger] response.css.plugins@[q]) by {
            assert(folders[q] == p1[q]);
            assert(flag_probed(te, tf, ctx.node_id, plugins_dir, p1[q]));
            lemma_probed_earlier(t0, te, tf, ctx.node_id, crate::handlers::doctor::dll_path(plugins_dir, p1[q].0@), !p1[q].2);
            lemma_probed_grows(t0, tf, t, ctx.node_id, crate::handlers::doctor::dll_path(plugins_dir, p1[q].0@), !p1[q].2);
            assert(row_view(plugins@[q]) == row_view(folders[q]));
        }
        assert forall|q: int| n1 <= q < n1 + n2
            implies row_probed(t0, t, ctx.node_id, disabled_dir, #[trigger] response.css.plugins@[q]) by {
            assert(flag_probed(tf, tq, ctx.node_id, disabled_dir, p2[q]));
            lemma_probed_earlier(t0, tf, tq, ctx.node_id, crate::handlers::doctor::dll_path(disabled_dir, p2[q].0@), !p2[q].2);
            lemma_probed_grows(t0, tq, t, ctx.node_id, crate::handlers::doctor::dll_path(disabled_dir, p2[q].0@), !p2[q].2);
            assert(row_view(plugins@[q]) == row_view(folders[q]));
        }
    }
    assert(response.json_is(j) && resp.body@ == json_text(j));
    Ok(resp)
}

} // verus!
