use cs2_addons::handlers::state::{display_groups, group_slot, sort_ic, with_missing_rows};

#[test]
fn manifest_entries_without_a_folder_become_missing_rows() {
    let folders = vec![("MatchZy".to_string(), true, false), ("Retakes".to_string(), false, true)];
    let names = vec!["matchzy".to_string(), "Gone".to_string(), "retakes".to_string(), "Other".to_string()];
    let rows = with_missing_rows(folders, &names);
    let shown: Vec<(&str, bool, bool)> = rows.iter().map(|(n, e, m)| (n.as_str(), *e, *m)).collect();
    assert_eq!(
        shown,
        vec![("MatchZy", true, false), ("Retakes", false, true), ("Gone", false, true), ("Other", false, true)]
    );
}

#[test]
fn groups_are_listed_once_and_alphabetically() {
    let groups = vec![
        Some("maps".to_string()),
        None,
        Some("Admin".to_string()),
        Some("MAPS".to_string()),
        Some("bans".to_string()),
    ];
    assert_eq!(display_groups(&groups), vec!["Admin".to_string(), "bans".to_string(), "maps".to_string()]);
}

#[test]
fn sorting_ignores_case_and_keeps_ties_in_order() {
    let sorted = sort_ic(vec!["b".into(), "B".into(), "a".into()]);
    assert_eq!(sorted, vec!["a".to_string(), "b".to_string(), "B".to_string()]);
}

#[test]
fn rows_find_their_group_slot() {
    let names = vec!["Admin".to_string(), "maps".to_string()];
    assert_eq!(group_slot(&names, &Some("MAPS".into())), (1, Some("MAPS".to_string())));
    assert_eq!(group_slot(&names, &Some("other".into())), (2, Some("other".to_string())));
    assert_eq!(group_slot(&names, &None), (u32::MAX, None));
}
