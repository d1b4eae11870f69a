use std::collections::HashMap;

use swd::files::{leaf_children, lookup_ids, sort_children, WFiles};
use swd::net::get_collection_details::{self, Child};
use swd::net::get_published_file_details::{Detail, DetailInner};

fn child(file_id: u64, sortorder: u32, filetype: u32) -> Child {
    Child { file_id, sortorder, filetype }
}

fn collection(file_id: u64, children: Option<Vec<Child>>) -> get_collection_details::Detail {
    get_collection_details::Detail { file_id, result: 1, children }
}

fn valid(file_id: u64, title: &str) -> Detail {
    Detail {
        file_id,
        result: 1,
        inner: Some(DetailInner {
            app_id: 294100,
            title: title.to_string(),
            description: format!("about {}", title),
            time_created: 1_600_000_000,
            time_updated: 1_650_000_000,
        }),
    }
}

fn scenario_collections() -> HashMap<u64, get_collection_details::Detail> {
    // C holds, by sort order: mod A, nested collection D, mod B.
    get_collection_details::deserialize(vec![
        collection(100, Some(vec![child(3, 30, 0), child(1, 10, 0), child(4, 20, 2)])),
        collection(3, None),
    ])
}

#[test]
fn lookup_set_of_collection_and_shared_mod() {
    let cols = scenario_collections();
    let ids = lookup_ids(&vec![100, 3], &cols);
    assert_eq!(ids, vec![100, 1, 3]);
}

#[test]
fn lookup_set_of_empty_seed_list_is_empty() {
    let cols = get_collection_details::deserialize(vec![]);
    assert!(lookup_ids(&vec![], &cols).is_empty());
}

#[test]
fn seed_missing_from_collection_answer_is_a_mod() {
    let cols = get_collection_details::deserialize(vec![]);
    assert_eq!(lookup_ids(&vec![7, 8, 7], &cols), vec![7, 8]);
}

#[test]
fn children_sorted_by_sort_order() {
    let raw = vec![child(5, 9, 0), child(6, 2, 0), child(7, 5, 1), child(8, 2, 0)];
    let sorted = sort_children(&raw);
    let order: Vec<u64> = sorted.iter().map(|c| c.file_id).collect();
    // equal sort orders keep their order
    assert_eq!(order, vec![6, 8, 7, 5]);
}

#[test]
fn nested_collections_left_out() {
    let raw = vec![child(5, 0, 0), child(6, 1, 2), child(7, 2, 0), child(9, 3, 1)];
    assert_eq!(leaf_children(&raw), vec![5, 7]);
}

#[test]
fn deserialize_keeps_last_record_per_id() {
    let map = get_collection_details::deserialize(vec![
        collection(1, None),
        collection(1, Some(vec![child(2, 0, 0)])),
    ]);
    assert_eq!(map.len(), 1);
    assert_eq!(map[&1].children.as_ref().unwrap().len(), 1);
}

#[test]
fn valid_item_needs_result_and_metadata() {
    assert!(valid(1, "a").is_valid_item());
    let mut no_meta = valid(1, "a");
    no_meta.inner = None;
    assert!(!no_meta.is_valid_item());
    let mut bad_result = valid(1, "a");
    bad_result.result = 9;
    assert!(!bad_result.is_valid_item());
}

#[test]
fn metadata_missing_marks_item_invalid() {
    let cols = get_collection_details::deserialize(vec![]);
    let details = vec![
        valid(2824342092, "first"),
        Detail { file_id: 1111, result: 1, inner: None },
        valid(2529002857, "second"),
    ];
    let (w, invalid) = WFiles::new(vec![2824342092, 2529002857, 1111], &cols, &details);
    assert_eq!(invalid, vec![1111]);
    assert_eq!(w.files, vec![2824342092, 2529002857]);
    assert!(!w.all_files.contains_key(&1111));
    assert_eq!(w.all_files[&2824342092].title, "first");
    assert_eq!(w.all_files[&2529002857].title, "second");
}

#[test]
fn resolved_collection_gets_sorted_mods() {
    let cols = scenario_collections();
    let details = vec![valid(100, "C"), valid(1, "A"), valid(3, "B")];
    let (w, invalid) = WFiles::new(vec![100, 3], &cols, &details);
    assert!(invalid.is_empty());
    let c = &w.all_files[&100];
    assert!(c.is_collection());
    assert_eq!(c.children, Some(vec![1, 3]));
    let a = &w.all_files[&1];
    assert!(!a.is_collection());
    assert_eq!(a.file_id, 1);
    assert_eq!(a.app_id, 294100);
    assert_eq!(a.description, "about A");
    assert_eq!(a.time_created, 1_600_000_000);
    assert_eq!(a.time_updated, 1_650_000_000);
}

#[test]
fn invalid_seed_is_dropped() {
    let cols = get_collection_details::deserialize(vec![]);
    let details = vec![valid(1, "a"), Detail { file_id: 2, result: 9, inner: None }];
    let (w, invalid) = WFiles::new(vec![2, 1, 2], &cols, &details);
    assert_eq!(invalid, vec![2]);
    assert_eq!(w.files, vec![1]);
}
