use pointcloud_cli::report::{
    diff_entry, file_diff, presence_counts, sorted_key_union, str_lt, summary_diffs,
    FileDiffCounts, FileEntry,
};

fn entry(faces: Option<usize>, total_time_ms: u64, success: bool) -> FileEntry {
    FileEntry { faces, total_time_ms, success }
}

fn strings(v: &[&str]) -> Vec<String> {
    v.iter().map(|s| s.to_string()).collect()
}

#[test]
fn face_and_time_changes_of_a_common_file() {
    assert_eq!(diff_entry(Some(10), Some(7), 100, 150, true, false), (Some(-3), 50, true));
    assert_eq!(diff_entry(Some(4), None, 20, 20, true, true), (Some(-4), 0, false));
    assert_eq!(diff_entry(None, Some(5), 30, 10, false, false), (Some(5), -20, false));
    assert_eq!(diff_entry(None, None, 0, 0, false, true), (None, 0, true));
}

#[test]
fn changes_only_for_files_in_both_reports() {
    let a = entry(Some(12), 200, true);
    let b = entry(Some(15), 180, true);
    assert_eq!(
        file_diff(Some(a), Some(b)),
        FileDiffCounts {
            a_exists: true,
            b_exists: true,
            faces_diff: Some(3),
            time_diff_ms: Some(-20),
            success_changed: false,
        }
    );
    assert_eq!(
        file_diff(Some(a), None),
        FileDiffCounts {
            a_exists: true,
            b_exists: false,
            faces_diff: None,
            time_diff_ms: None,
            success_changed: false,
        }
    );
    assert_eq!(
        file_diff(None, Some(b)),
        FileDiffCounts {
            a_exists: false,
            b_exists: true,
            faces_diff: None,
            time_diff_ms: None,
            success_changed: false,
        }
    );
}

#[test]
fn success_change_is_reported() {
    let d = file_diff(Some(entry(None, 5, true)), Some(entry(None, 5, false)));
    assert!(d.success_changed);
    assert_eq!(d.faces_diff, None);
    assert_eq!(d.time_diff_ms, Some(0));
}

#[test]
fn files_in_common_and_in_one_report() {
    let e = entry(Some(1), 1, true);
    let items = vec![
        file_diff(Some(e), Some(e)),
        file_diff(Some(e), None),
        file_diff(None, Some(e)),
        file_diff(Some(e), Some(e)),
        file_diff(None, Some(e)),
    ];
    assert_eq!(presence_counts(&items), (2, 1, 2));
    assert_eq!(presence_counts(&[]), (0, 0, 0));
}

#[test]
fn summary_changes_are_signed() {
    assert_eq!(summary_diffs(1000, 1500, 8, 6, 2, 4), (500, -2, 2));
    assert_eq!(summary_diffs(300, 100, 0, 3, 1, 0), (-200, 3, -1));
}

#[test]
fn string_order_is_by_character() {
    assert!(str_lt("a.ply", "b.ply"));
    assert!(!str_lt("b.ply", "a.ply"));
    assert!(str_lt("scan", "scan2"));
    assert!(!str_lt("scan2", "scan"));
    assert!(!str_lt("same", "same"));
    assert!(str_lt("B", "a"));
    assert!(str_lt("", "x"));
    assert!(str_lt("z", "é"));
}

#[test]
fn union_of_file_names_sorted_once_each() {
    let a = strings(&["c.ply", "a.ply", "b.pcd"]);
    let b = strings(&["b.pcd", "d.las", "a.ply"]);
    assert_eq!(sorted_key_union(&a, &b), strings(&["a.ply", "b.pcd", "c.ply", "d.las"]));
    assert_eq!(sorted_key_union(&[], &[]), Vec::<String>::new());
    assert_eq!(sorted_key_union(&strings(&["x", "x"]), &[]), strings(&["x"]));
}

#[test]
fn union_does_not_depend_on_listing_order() {
    let a1 = strings(&["m", "k", "z"]);
    let a2 = strings(&["z", "m", "k"]);
    let b1 = strings(&["q", "a"]);
    let b2 = strings(&["a", "q"]);
    let r1 = sorted_key_union(&a1, &b1);
    let r2 = sorted_key_union(&a2, &b2);
    assert_eq!(r1, r2);
    let mut expected = strings(&["m", "k", "z", "q", "a"]);
    expected.sort();
    assert_eq!(r1, expected);
}
