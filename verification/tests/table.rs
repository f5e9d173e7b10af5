use jbx::switch::{HashMapSwitch, Switch};
use std::collections::HashMap;

fn digits() -> HashMap<u32, String> {
    HashMap::from([(1, "1".into()), (2, "2".into()), (3, "3".into())])
}

#[test]
fn table_gives_the_value_at_the_subject() {
    let result = HashMapSwitch::<String, u32>::make(2)
        .hash_case(digits())
        .default(|| -> Option<String> { panic!("the fallback producer ran on a filled slot") });
    assert_eq!(result, Some(String::from("2")));
}

#[test]
fn table_gives_each_of_its_values() {
    for key in 1_u32..=3 {
        let result = HashMapSwitch::<String, u32>::make(key).hash_case(digits()).default(|| None);
        assert_eq!(result, Some(format!("{}", key)));
    }
}

#[test]
fn table_without_the_subject_falls_to_the_default() {
    let result = HashMapSwitch::<String, u32>::make(4)
        .hash_case(digits())
        .default(|| Some("X".into()));
    assert_eq!(result, Some(String::from("X")));
}

#[test]
fn table_without_the_subject_and_empty_default_gives_nothing() {
    let result = HashMapSwitch::<String, u32>::make(4).hash_case(digits()).default(|| None);
    assert_eq!(result, None);
}

#[test]
fn empty_table_falls_to_the_default() {
    let result = HashMapSwitch::<u8, u32>::make(1)
        .hash_case(HashMap::new())
        .default(|| Some(9));
    assert_eq!(result, Some(9));
}

#[test]
fn large_table_is_searched_whole() {
    let mut table: HashMap<u32, u32> = HashMap::new();
    for key in 0_u32..1000 {
        table.insert(key, key * 2 + 1);
    }
    let result = HashMapSwitch::<u32, u32>::make(777).hash_case(table).default(|| None);
    assert_eq!(result, Some(1555));
}

#[test]
fn later_table_without_the_subject_keeps_the_slot() {
    let result = HashMapSwitch::<String, u32>::make(3)
        .hash_case(digits())
        .hash_case(HashMap::from([(7, "7".into())]))
        .default(|| Some("X".into()));
    assert_eq!(result, Some(String::from("3")));
}

#[test]
fn later_table_with_the_subject_stores_over_the_slot() {
    let result = HashMapSwitch::<String, u32>::make(3)
        .hash_case(digits())
        .hash_case(HashMap::from([(3, "three".into())]))
        .default(|| Some("X".into()));
    assert_eq!(result, Some(String::from("three")));
}

#[test]
fn table_keyed_by_strings() {
    let table: HashMap<String, u32> =
        HashMap::from([(String::from("a"), 1), (String::from("b"), 2)]);
    let result = HashMapSwitch::<u32, String>::make(String::from("b"))
        .hash_case(table)
        .default(|| Some(0));
    assert_eq!(result, Some(2));
}

#[test]
fn entries_are_tried_in_order_and_the_last_match_wins() {
    let entries: Vec<(u32, u8)> = vec![(3, 1), (2, 2), (3, 3), (1, 4)];
    let result = HashMapSwitch::<u8, u32>::make(3).entries_case(entries).default(|| Some(0));
    assert_eq!(result, Some(3));
}

#[test]
fn entries_without_the_subject_fall_to_the_default() {
    let entries: Vec<(u32, u8)> = vec![(1, 1), (2, 2)];
    let result = HashMapSwitch::<u8, u32>::make(3).entries_case(entries).default(|| Some(0));
    assert_eq!(result, Some(0));
}

#[test]
fn no_entries_fall_to_the_default() {
    let result = HashMapSwitch::<u8, u32>::make(3).entries_case(Vec::new()).default(|| Some(0));
    assert_eq!(result, Some(0));
}

#[test]
fn entries_without_the_subject_keep_the_slot() {
    let result = HashMapSwitch::<u8, u32>::make(3)
        .entries_case(vec![(3, 5)])
        .entries_case(vec![(1, 1), (2, 2)])
        .default(|| Some(0));
    assert_eq!(result, Some(5));
}

#[test]
fn conversion_takes_the_subject_along() {
    let result = Switch::<String, u32>::make(2)
        .into_hash_map_switch(digits())
        .default(|| Some("X".into()));
    assert_eq!(result, Some(String::from("2")));
}

#[test]
fn conversion_starts_from_an_empty_slot() {
    let switch = Switch::<String, u32>::make(4).case(4, || Some("four".into()));
    assert_eq!(switch.result, Some(String::from("four")));
    let result = switch.into_hash_map_switch(digits()).default(|| Some("X".into()));
    assert_eq!(result, Some(String::from("X")));
}

#[test]
fn conversion_leaves_the_dispatcher_usable() {
    let switch = Switch::<String, u32>::make(1);
    let from_table = switch.into_hash_map_switch(digits()).default(|| None);
    assert_eq!(from_table, Some(String::from("1")));
    let from_cases = switch.case(1, || Some("one".into())).default(|| None);
    assert_eq!(from_cases, Some(String::from("one")));
}

#[test]
fn table_and_cases_agree() {
    for subject in 0_u32..6 {
        let from_table = HashMapSwitch::<String, u32>::make(subject)
            .hash_case(digits())
            .default(|| Some("X".into()));
        let from_cases = Switch::<String, u32>::make(subject)
            .case(1, || Some("1".into()))
            .case(2, || Some("2".into()))
            .case(3, || Some("3".into()))
            .default(|| Some("X".into()));
        assert_eq!(from_table, from_cases);
    }
}
