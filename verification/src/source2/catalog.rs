//! Curated catalog of well-known CounterStrikeSharp plugins, installable
//! straight from their GitHub releases. Kept deliberately small and static:
//! every entry here is a promise that the install pipeline can handle its
//! release layout.

use vstd::prelude::*;

use crate::text::str_eq;

verus! {

#[derive(Debug, Clone)]
pub struct CatalogEntry {
    /// Stable key used by the install route and the updates cache.
    pub key: &'static str,
    pub name: &'static str,
    pub description: &'static str,
    /// GitHub "owner/repo".
    pub repo: &'static str,
    /// CSS plugin folder the release creates (also matches update badges to
    /// installed rows).
    pub folder: &'static str,
    /// Substrings the release asset name must contain, lowercase. Every
    /// pattern must match.
    pub asset_contains: Vec<&'static str>,
}

/// Key, repository and folder of each catalog entry, in catalog order.
pub open spec fn catalog_spec() -> Seq<(Seq<char>, Seq<char>, Seq<char>)> {
    seq![
        ("matchzy"@, "shobhit-pathak/MatchZy"@, "MatchZy"@),
        ("cs2-simpleadmin"@, "daffyyyy/CS2-SimpleAdmin"@, "CS2-SimpleAdmin"@),
        ("retakes"@, "B3none/cs2-retakes"@, "RetakesPlugin"@),
        ("weaponpaints"@, "Nereziel/cs2-WeaponPaints"@, "WeaponPaints"@),
        ("k4-system"@, "KitsuneLab-Development/K4-System"@, "K4-System"@),
    ]
}

pub open spec fn entry_matches(e: CatalogEntry, i: int) -> bool {
    &&& e.key@ == catalog_spec()[i].0
    &&& e.repo@ == catalog_spec()[i].1
    &&& e.folder@ == catalog_spec()[i].2
    &&& e.asset_contains@.len() == 1
    &&& e.asset_contains@[0]@ == ".zip"@
}

fn entry(
    key: &'static str,
    name: &'static str,
    description: &'static str,
    repo: &'static str,
    folder: &'static str,
) -> (e: CatalogEntry)
    ensures
        e.key == key,
        e.name == name,
        e.description == description,
        e.repo == repo,
        e.folder == folder,
        e.asset_contains@.len() == 1,
        e.asset_contains@[0]@ == ".zip"@,
{
    let mut asset_contains: Vec<&'static str> = Vec::new();
    asset_contains.push(".zip");
    CatalogEntry { key, name, description, repo, folder, asset_contains }
}

/// The catalog, in display order.
pub fn catalog() -> (c: Vec<CatalogEntry>)
    ensures
        c@.len() == catalog_spec().len(),
        forall|i: int| 0 <= i < c@.len() ==> entry_matches(#[trigger] c@[i], i),
{
    let mut c: Vec<CatalogEntry> = Vec::new();
    c.push(entry(
        "matchzy",
        "MatchZy",
        "Match system for competitive CS2: practice mode, knife round, veto, demo recording and Get5 integration.",
        "shobhit-pathak/MatchZy",
        "MatchZy",
    ));
    c.push(entry(
        "cs2-simpleadmin",
        "CS2-SimpleAdmin",
        "Admin essentials: bans, mutes, kicks, admin chat and a menu, backed by a database.",
        "daffyyyy/CS2-SimpleAdmin",
        "CS2-SimpleAdmin",
    ));
    c.push(entry(
        "retakes",
        "Retakes",
        "Retakes game mode: spawn T's on a planted bomb site, CT's retake it.",
        "B3none/cs2-retakes",
        "RetakesPlugin",
    ));
    c.push(entry(
        "weaponpaints",
        "WeaponPaints",
        "Skins, knives, gloves and agents for players, configured per SteamID.",
        "Nereziel/cs2-WeaponPaints",
        "WeaponPaints",
    ));
    c.push(entry(
        "k4-system",
        "K4-System",
        "Ranks, stats and playtime tracking with in-chat placements.",
        "KitsuneLab-Development/K4-System",
        "K4-System",
    ));
    c
}

/// No two catalog entries share a key.
pub proof fn lemma_catalog_keys_unique()
    ensures
        forall|i: int, j: int|
            0 <= i < j < catalog_spec().len() ==> catalog_spec()[i].0 != catalog_spec()[j].0,
{
    reveal_strlit("matchzy");
    reveal_strlit("cs2-simpleadmin");
    reveal_strlit("retakes");
    reveal_strlit("weaponpaints");
    reveal_strlit("k4-system");
    assert forall|i: int, j: int|
        0 <= i < j < catalog_spec().len() implies catalog_spec()[i].0 != catalog_spec()[j].0 by {
        assert(catalog_spec()[i].0[0] != catalog_spec()[j].0[0] || catalog_spec()[i].0.len()
            != catalog_spec()[j].0.len());
    }
}

/// `e` is the catalog entry listed under `key`.
pub open spec fn catalog_has(e: CatalogEntry, key: Seq<char>) -> bool {
    exists|i: int| 0 <= i < catalog_spec().len() && #[trigger] entry_matches(e, i) && catalog_spec()[i].0 == key
}

/// The catalog entry with this key.
pub fn find(key: &str) -> (r: Option<CatalogEntry>)
    ensures
        r matches Some(e) ==> catalog_has(e, key@),
        r is None ==> forall|i: int| 0 <= i < catalog_spec().len() ==> catalog_spec()[i].0 != key@,
{
    let mut entries = catalog();
    let mut i: usize = 0;
    while i < entries.len()
        invariant
            entries@.len() == catalog_spec().len(),
            forall|j: int| 0 <= j < entries@.len() ==> entry_matches(#[trigger] entries@[j], j),
            i <= entries@.len(),
            forall|j: int| 0 <= j < i ==> catalog_spec()[j].0 != key@,
        decreases entries@.len() - i,
    {
        if str_eq(entries[i].key, key) {
            let ghost before = entries@;
            assert(entry_matches(before[i as int], i as int));
            let e = entries.remove(i);
            assert(e == before[i as int]);
            assert(entry_matches(e, i as int) && catalog_spec()[i as int].0 == key@);
            assert(catalog_has(e, key@));
            return Some(e);
        }
        i = i + 1;
    }
    None
}

} // verus!
