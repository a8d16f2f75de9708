//! Binary Metamod plugins, registered by `addons/metamod/<name>.vdf` files.
//!
//! Metamod:Source 2.x loads every `*.vdf` alias file in its own directory.
//! Renaming one to `<name>.vdf.disabled` is the persistent off switch.

use vstd::prelude::*;

use crate::host_api::{DirEntry, HostApi, HostApiError};
use crate::order::{lemma_lex_asymmetric, lemma_lex_irreflexive, lemma_lex_total, lemma_lex_transitive, lex_less, lex_lt};
use crate::text::{chars_of, ends_with, eq_ic, eq_ignore_case, has_suffix, lower_seq, string_of, to_lower};

verus! {

pub const VDF_EXT: &'static str = ".vdf";
pub const DISABLED_SUFFIX: &'static str = ".vdf.disabled";

#[derive(Debug, Clone, PartialEq, Eq)]
pub struct VdfPlugin {
    pub name: String,
    pub enabled: bool,
}

pub open spec fn vdf_ext() -> Seq<char> {
    seq!['.', 'v', 'd', 'f']
}

pub open spec fn disabled_suffix() -> Seq<char> {
    seq!['.', 'v', 'd', 'f', '.', 'd', 'i', 's', 'a', 'b', 'l', 'e', 'd']
}

/// A metamod-dir entry as a VDF plugin: `<stem>.vdf` is enabled,
/// `<stem>.vdf.disabled` is parked (suffixes matched regardless of ASCII
/// case, the stem kept as written); directories, other files and an empty
/// stem are not plugins.
pub open spec fn classify_spec(name: Seq<char>, is_dir: bool) -> Option<(Seq<char>, bool)> {
    if is_dir {
        None
    } else if has_suffix(lower_seq(name), disabled_suffix()) {
        let stem = name.take(name.len() - 13);
        if stem.len() > 0 { Some((stem, false)) } else { None }
    } else if has_suffix(lower_seq(name), vdf_ext()) {
        let stem = name.take(name.len() - 4);
        if stem.len() > 0 { Some((stem, true)) } else { None }
    } else {
        None
    }
}

pub open spec fn plugin_view(p: VdfPlugin) -> (Seq<char>, bool) {
    (p.name@, p.enabled)
}

fn prefix_string(v: &Vec<char>, n: usize) -> (s: String)
    requires
        n <= v@.len(),
    ensures
        s@ == v@.take(n as int),
{
    let mut out: Vec<char> = Vec::new();
    let mut i: usize = 0;
    while i < n
        invariant
            i <= n <= v@.len(),
            out@ == v@.take(i as int),
        decreases n - i,
    {
        out.push(v[i]);
        assert(v@.take(i + 1) == v@.take(i as int).push(v@[i as int]));
        i = i + 1;
    }
    string_of(out.as_slice())
}

/// The file name of the live alias of `stem`.
pub open spec fn live_alias(stem: Seq<char>) -> Seq<char> {
    stem + seq!['.', 'v', 'd', 'f']
}

/// The file name of the parked alias of `stem`.
pub open spec fn parked_alias(stem: Seq<char>) -> Seq<char> {
    stem + seq!['.', 'v', 'd', 'f', '.', 'd', 'i', 's', 'a', 'b', 'l', 'e', 'd']
}

/// How an alias file is named: `<stem>.vdf` is the live alias of `stem`,
/// `<stem>.vdf.disabled` the parked one, and a classified entry is always
/// its stem followed by one of those suffixes (in any case).
pub proof fn lemma_alias_names(name: Seq<char>, is_dir: bool)
    ensures
        is_dir ==> classify_spec(name, is_dir) is None,
        forall|stem: Seq<char>| !is_dir && stem.len() > 0 && name == #[trigger] live_alias(stem)
            ==> classify_spec(name, is_dir) == Some((stem, true)),
        forall|stem: Seq<char>| !is_dir && stem.len() > 0
            && name == #[trigger] parked_alias(stem)
            ==> classify_spec(name, is_dir) == Some((stem, false)),
        classify_spec(name, is_dir) matches Some((st, live)) ==> {
            &&& st.len() > 0
            &&& name.take(st.len() as int) == st
            &&& live ==> eq_ic(name.skip(st.len() as int), seq!['.', 'v', 'd', 'f'])
            &&& !live ==> eq_ic(name.skip(st.len() as int), seq!['.', 'v', 'd', 'f', '.', 'd', 'i', 's', 'a', 'b', 'l', 'e', 'd'])
        },
{
    let l = lower_seq(name);
    let live = seq!['.', 'v', 'd', 'f'];
    let parked = seq!['.', 'v', 'd', 'f', '.', 'd', 'i', 's', 'a', 'b', 'l', 'e', 'd'];
    assert(lower_seq(live) =~= live);
    assert(lower_seq(parked) =~= parked);
    assert forall|stem: Seq<char>| !is_dir && stem.len() > 0 && name == #[trigger] live_alias(stem)
        implies classify_spec(name, is_dir) == Some((stem, true)) by {
        assert(l.skip(l.len() - 4) =~= lower_seq(live));
        assert(l.last() == 'f');
        if l.len() >= 13 {
            assert(l.skip(l.len() - 13).last() == 'f');
            assert(parked.last() == 'd');
        }
        assert(!has_suffix(l, disabled_suffix()));
        assert(name.take(name.len() - 4) =~= stem);
    }
    assert forall|stem: Seq<char>| !is_dir && stem.len() > 0 && name == #[trigger] parked_alias(stem)
        implies classify_spec(name, is_dir) == Some((stem, false)) by {
        assert(l.skip(l.len() - 13) =~= lower_seq(parked));
        assert(name.take(name.len() - 13) =~= stem);
    }
    if let Some((st, lv)) = classify_spec(name, is_dir) {
        let k = st.len() as int;
        assert(lower_seq(name.skip(k)) =~= l.skip(k));
    }
}

/// Classifies one metamod-dir entry; `None` for anything that is not a VDF
/// alias (metaplugins.ini, the binaries dir, leftovers).
pub fn classify(entry: &DirEntry) -> (r: Option<VdfPlugin>)
    ensures
        match r {
            Some(p) => classify_spec(entry.name@, entry.is_dir) == Some(plugin_view(p)),
            None => classify_spec(entry.name@, entry.is_dir) is None,
        },
        entry.is_dir ==> r is None,
        forall|stem: Seq<char>| !entry.is_dir && stem.len() > 0 && entry.name@ == #[trigger] live_alias(stem)
            ==> (r matches Some(p) && p.name@ == stem && p.enabled),
        forall|stem: Seq<char>| !entry.is_dir && stem.len() > 0
            && entry.name@ == #[trigger] parked_alias(stem)
            ==> (r matches Some(p) && p.name@ == stem && !p.enabled),
        r matches Some(p) ==> {
            &&& p.name@.len() > 0
            &&& entry.name@.take(p.name@.len() as int) == p.name@
            &&& p.enabled ==> eq_ic(entry.name@.skip(p.name@.len() as int), seq!['.', 'v', 'd', 'f'])
            &&& !p.enabled ==> eq_ic(entry.name@.skip(p.name@.len() as int),
                seq!['.', 'v', 'd', 'f', '.', 'd', 'i', 's', 'a', 'b', 'l', 'e', 'd'])
        },
{
    proof {
        lemma_alias_names(entry.name@, entry.is_dir);
    }
    if entry.is_dir {
        return None;
    }
    let name = chars_of(entry.name.as_str());
    let lower = to_lower(name.as_slice());
    let disabled = vec!['.', 'v', 'd', 'f', '.', 'd', 'i', 's', 'a', 'b', 'l', 'e', 'd'];
    let ext = vec!['.', 'v', 'd', 'f'];
    assert(lower@.len() == name@.len());
    if ends_with(lower.as_slice(), disabled.as_slice()) {
        if name.len() == 13 {
            return None;
        }
        let stem = prefix_string(&name, name.len() - 13);
        return Some(VdfPlugin { name: stem, enabled: false });
    }
    if ends_with(lower.as_slice(), ext.as_slice()) {
        if name.len() == 4 {
            return None;
        }
        let stem = prefix_string(&name, name.len() - 4);
        return Some(VdfPlugin { name: stem, enabled: true });
    }
    None
}

/// Whether a VDF stem is CounterStrikeSharp's own alias: switching it off
/// unloads the whole platform.
pub fn is_platform(name: &str) -> (r: bool)
    ensures
        r == eq_ic(name@, seq!['c', 'o', 'u', 'n', 't', 'e', 'r', 's', 't', 'r', 'i', 'k', 'e', 's', 'h', 'a', 'r', 'p']),
{
    let v = chars_of(name);
    let css = vec!['c', 'o', 'u', 'n', 't', 'e', 'r', 's', 't', 'r', 'i', 'k', 'e', 's', 'h', 'a', 'r', 'p'];
    eq_ignore_case(v.as_slice(), css.as_slice())
}

/// The list order: by name regardless of ASCII case, then the live alias
/// before the parked one.
pub open spec fn vdf_before(a: (Seq<char>, bool), b: (Seq<char>, bool)) -> bool {
    ||| lex_lt(lower_seq(a.0), lower_seq(b.0))
    ||| (lower_seq(a.0) == lower_seq(b.0) && a.1 && !b.1)
}

pub open spec fn vdf_sorted(s: Seq<VdfPlugin>) -> bool {
    forall|i: int, j: int| 0 <= i < j < s.len() ==> !vdf_before(plugin_view(#[trigger] s[j]), plugin_view(#[trigger] s[i]))
}

proof fn lemma_vdf_before_transitive(a: (Seq<char>, bool), b: (Seq<char>, bool), c: (Seq<char>, bool))
    requires
        vdf_before(a, b),
        vdf_before(b, c),
    ensures
        vdf_before(a, c),
{
    let (la, lb, lc) = (lower_seq(a.0), lower_seq(b.0), lower_seq(c.0));
    if lex_lt(la, lb) && lex_lt(lb, lc) {
        lemma_lex_transitive(la, lb, lc);
    }
}

proof fn lemma_vdf_not_before_total(a: (Seq<char>, bool), b: (Seq<char>, bool))
    requires
        !vdf_before(a, b),
    ensures
        vdf_before(b, a) || (lower_seq(a.0) == lower_seq(b.0) && a.1 == b.1),
{
    lemma_lex_total(lower_seq(a.0), lower_seq(b.0));
}

proof fn lemma_vdf_before_asym(a: (Seq<char>, bool), b: (Seq<char>, bool))
    requires
        vdf_before(a, b),
    ensures
        !vdf_before(b, a),
{
    if lex_lt(lower_seq(a.0), lower_seq(b.0)) {
        lemma_lex_asymmetric(lower_seq(a.0), lower_seq(b.0));
    } else {
        lemma_lex_irreflexive(lower_seq(a.0));
    }
}

fn vdf_less(a: &VdfPlugin, b: &VdfPlugin) -> (r: bool)
    ensures
        r == vdf_before(plugin_view(*a), plugin_view(*b)),
{
    let la = to_lower(chars_of(a.name.as_str()).as_slice());
    let lb = to_lower(chars_of(b.name.as_str()).as_slice());
    if lex_less(la.as_slice(), lb.as_slice()) {
        return true;
    }
    if lex_less(lb.as_slice(), la.as_slice()) {
        proof {
            lemma_lex_asymmetric(lb@, la@);
            if la@ == lb@ {
                lemma_lex_irreflexive(la@);
            }
        }
        return false;
    }
    proof {
        lemma_lex_total(la@, lb@);
    }
    a.enabled && !b.enabled
}

/// Inserts `p` after every element it does not come before, keeping the
/// order and the elements.
fn insert_sorted(out: &mut Vec<VdfPlugin>, p: VdfPlugin)
    requires
        vdf_sorted(old(out)@),
    ensures
        vdf_sorted(final(out)@),
        final(out)@.to_multiset() == old(out)@.to_multiset().insert(p),
{
    let mut pos: usize = 0;
    while pos < out.len() && !vdf_less(&p, &out[pos])
        invariant
            pos <= out@.len(),
            forall|k: int| 0 <= k < pos ==> !vdf_before(plugin_view(p), plugin_view(#[trigger] out@[k])),
        decreases out@.len() - pos,
    {
        pos = pos + 1;
    }
    let ghost before = out@;
    let ghost pv = plugin_view(p);
    out.insert(pos, p);
    proof {
        broadcast use vstd::seq_lib::to_multiset_insert;
        assert(out@ == before.insert(pos as int, p));
        assert forall|i: int, j: int| 0 <= i < j < out@.len() implies !vdf_before(
            plugin_view(#[trigger] out@[j]),
            plugin_view(#[trigger] out@[i]),
        ) by {
            let (vi, vj) = (plugin_view(out@[i]), plugin_view(out@[j]));
            if j < pos {
                assert(out@[i] == before[i] && out@[j] == before[j]);
            } else if j == pos {
                assert(out@[i] == before[i]);
                // p does not come before anything ahead of it.
                if vdf_before(vj, vi) {
                    lemma_vdf_not_before_total(pv, vi);
                }
            } else if i == pos {
                // p comes before out[pos + 1] (the old out[pos]), which
                // comes no later than anything after it.
                assert(out@[j] == before[j - 1]);
                if vdf_before(vj, vi) {
                    assert(vdf_before(pv, plugin_view(before[pos as int])));
                    if j - 1 > pos {
                        let (x, y) = (plugin_view(before[pos as int]), plugin_view(before[j - 1]));
                        assert(!vdf_before(y, x));
                        lemma_vdf_not_before_total(y, x);
                        if vdf_before(x, y) {
                            lemma_vdf_before_transitive(pv, x, y);
                        }
                    }
                    if vdf_before(pv, vj) {
                        lemma_vdf_before_asym(pv, vj);
                    } else {
                        lemma_vdf_not_before_total(pv, vj);
                        if lower_seq(pv.0) == lower_seq(vj.0) && pv.1 == vj.1 {
                            lemma_vdf_before_asym(vj, pv);
                        }
                    }
                }
            } else if i < pos {
                assert(out@[i] == before[i] && out@[j] == before[j - 1]);
            } else {
                assert(out@[i] == before[i - 1] && out@[j] == before[j - 1]);
            }
        }
    }
}

/// The VDF plugins among directory entries, in entry order.
pub open spec fn classified(entries: Seq<DirEntry>) -> Seq<(Seq<char>, bool)>
    decreases entries.len(),
{
    if entries.len() == 0 {
        Seq::empty()
    } else {
        let init = classified(entries.drop_last());
        match classify_spec(entries.last().name@, entries.last().is_dir) {
            Some(p) => init.push(p),
            None => init,
        }
    }
}

/// The VDF plugins among directory entries, sorted by name regardless of
/// ASCII case, the live alias before a parked one of the same name.
pub fn plugins_from_entries(entries: &Vec<DirEntry>) -> (r: Vec<VdfPlugin>)
    ensures
        vdf_sorted(r@),
        r@.map_values(|p: VdfPlugin| plugin_view(p)).to_multiset() == classified(entries@).to_multiset(),
{
    let mut out: Vec<VdfPlugin> = Vec::new();
    let mut i: usize = 0;
    assert(entries@.take(0) =~= Seq::<DirEntry>::empty());
    assert(out@.map_values(|p: VdfPlugin| plugin_view(p)) =~= Seq::<(Seq<char>, bool)>::empty());
    while i < entries.len()
        invariant
            i <= entries@.len(),
            vdf_sorted(out@),
            out@.map_values(|p: VdfPlugin| plugin_view(p)).to_multiset()
                == classified(entries@.take(i as int)).to_multiset(),
        decreases entries@.len() - i,
    {
        assert(entries@.take(i + 1).drop_last() == entries@.take(i as int));
        match classify(&entries[i]) {
            Some(p) => {
                let ghost before = out@;
                let ghost pv = plugin_view(p);
                insert_sorted(&mut out, p);
                proof {
                    broadcast use vstd::seq_lib::to_multiset_build;
                    lemma_view_multiset(before, out@, p);
                }
            },
            None => {},
        }
        i = i + 1;
    }
    assert(entries@.take(entries@.len() as int) == entries@);
    out
}

proof fn lemma_view_multiset(before: Seq<VdfPlugin>, after: Seq<VdfPlugin>, p: VdfPlugin)
    requires
        after.to_multiset() == before.to_multiset().insert(p),
    ensures
        after.map_values(|q: VdfPlugin| plugin_view(q)).to_multiset()
            == before.map_values(|q: VdfPlugin| plugin_view(q)).to_multiset().insert(plugin_view(p)),
{
    broadcast use vstd::seq_lib::to_multiset_build;
    let f = |q: VdfPlugin| plugin_view(q);
    // after is a permutation of before.push(p); mapping keeps multisets.
    assert(before.push(p).to_multiset() == before.to_multiset().insert(p));
    lemma_map_multiset(after, before.push(p));
    assert(before.push(p).map_values(f) =~= before.map_values(f).push(plugin_view(p)));
}

proof fn lemma_map_multiset(a: Seq<VdfPlugin>, b: Seq<VdfPlugin>)
    requires
        a.to_multiset() == b.to_multiset(),
    ensures
        a.map_values(|q: VdfPlugin| plugin_view(q)).to_multiset()
            == b.map_values(|q: VdfPlugin| plugin_view(q)).to_multiset(),
    decreases a.len(),
{
    broadcast use vstd::seq_lib::group_to_multiset_ensures;
    let f = |q: VdfPlugin| plugin_view(q);
    if a.len() == 0 {
        assert(b.to_multiset().len() == 0);
        assert(b.len() == 0);
        assert(a.map_values(f) =~= Seq::<(Seq<char>, bool)>::empty());
        assert(b.map_values(f) =~= Seq::<(Seq<char>, bool)>::empty());
    } else {
        let x = a.last();
        assert(b.to_multiset().count(x) > 0);
        assert(b.contains(x));
        let k = choose|k: int| 0 <= k < b.len() && b[k] == x;
        let b2 = b.remove(k);
        assert(b2.to_multiset() == b.to_multiset().remove(x));
        assert(a.drop_last().to_multiset() == a.to_multiset().remove(x)) by {
            assert(a == a.drop_last().push(x));
        }
        lemma_map_multiset(a.drop_last(), b2);
        assert(a.map_values(f) =~= a.drop_last().map_values(f).push(f(x)));
        assert(b.map_values(f).remove(k) =~= b2.map_values(f));
        assert(b.map_values(f)[k] == f(x));
    }
}

/// Lists the VDF plugins in the metamod dir, sorted as
/// [`plugins_from_entries`] sorts them; a missing dir lists nothing.
pub fn list<H: HostApi>(host: &mut H, node_id: u64, metamod_abs: &str) -> (r: Result<Vec<VdfPlugin>, HostApiError>)
    ensures
        r matches Ok(v) ==> vdf_sorted(v@),
        r matches Ok(v) ==> exists|listing: Seq<DirEntry>|
            v@.map_values(|p: VdfPlugin| plugin_view(p)).to_multiset() == #[trigger] classified(listing).to_multiset(),
        crate::host_api::reads_only(old(host).trace(), final(host).trace()),
        final(host).trace().len() == old(host).trace().len() + 1,
        final(host).trace().last() matches crate::host_api::HostCall::ReadDir(n, p, a) && n == node_id && p == metamod_abs@
            && (r matches Ok(v) ==> v@.map_values(|q: VdfPlugin| plugin_view(q)).to_multiset() == classified(match a {
                Ok(Some(es)) => es@,
                _ => Seq::<DirEntry>::empty(),
            }).to_multiset())
            && (a is Ok <==> r is Ok)
            && (a matches Err(h) ==> r == Err::<Vec<VdfPlugin>, HostApiError>(h))
            && (a matches Ok(None) ==> (r matches Ok(v) && v@.len() == 0)),
{
    let listed = match host.read_dir(node_id, metamod_abs) {
        Ok(l) => l,
        Err(h) => return Err(h),
    };
    match listed {
        None => {
            let v: Vec<VdfPlugin> = Vec::new();
            assert(v@.map_values(|p: VdfPlugin| plugin_view(p)) =~= Seq::<(Seq<char>, bool)>::empty());
            assert(classified(Seq::<DirEntry>::empty()) =~= Seq::<(Seq<char>, bool)>::empty());
            assert(v@.map_values(|p: VdfPlugin| plugin_view(p)).to_multiset()
                == classified(Seq::<DirEntry>::empty()).to_multiset());
            Ok(v)
        },
        Some(entries) => {
            let v = plugins_from_entries(&entries);
            assert(v@.map_values(|p: VdfPlugin| plugin_view(p)).to_multiset() == classified(entries@).to_multiset());
            Ok(v)
        },
    }
}

} // verus!
