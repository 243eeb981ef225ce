use pointcloud_cli::union_find::{union_find_merge, union_find_parent};

fn fresh(n: usize) -> (Vec<usize>, Vec<usize>) {
    ((0..n).collect(), vec![0; n])
}

#[test]
fn find_on_a_root_is_itself() {
    let (mut parent, _) = fresh(4);
    assert_eq!(union_find_parent(&mut parent, 2), 2);
    assert_eq!(parent, vec![0, 1, 2, 3]);
}

#[test]
fn find_compresses_the_path() {
    let mut parent = vec![0, 0, 1, 2];
    assert_eq!(union_find_parent(&mut parent, 3), 0);
    assert_eq!(parent, vec![0, 0, 0, 0]);
}

#[test]
fn merge_of_equal_ranks_links_second_under_first() {
    let (mut parent, mut rank) = fresh(3);
    union_find_merge(&mut parent, &mut rank, 0, 1);
    assert_eq!(parent, vec![0, 0, 2]);
    assert_eq!(rank, vec![1, 0, 0]);
}

#[test]
fn merge_links_lower_rank_under_higher() {
    let (mut parent, mut rank) = fresh(3);
    union_find_merge(&mut parent, &mut rank, 0, 1);
    union_find_merge(&mut parent, &mut rank, 2, 1);
    assert_eq!(parent, vec![0, 0, 0]);
    assert_eq!(rank, vec![1, 0, 0]);
}

#[test]
fn merge_within_one_set_changes_nothing_but_paths() {
    let (mut parent, mut rank) = fresh(2);
    union_find_merge(&mut parent, &mut rank, 0, 1);
    union_find_merge(&mut parent, &mut rank, 1, 0);
    assert_eq!(parent, vec![0, 0]);
    assert_eq!(rank, vec![1, 0]);
}

#[test]
fn merged_elements_share_a_root_and_others_keep_theirs() {
    let (mut parent, mut rank) = fresh(6);
    union_find_merge(&mut parent, &mut rank, 0, 1);
    union_find_merge(&mut parent, &mut rank, 2, 3);
    union_find_merge(&mut parent, &mut rank, 1, 3);
    let r0 = union_find_parent(&mut parent, 0);
    for i in 1..4 {
        assert_eq!(union_find_parent(&mut parent, i), r0);
    }
    assert_eq!(union_find_parent(&mut parent, 4), 4);
    assert_eq!(union_find_parent(&mut parent, 5), 5);
    assert_ne!(r0, 4);
}

#[test]
fn find_twice_gives_the_same_root() {
    let (mut parent, mut rank) = fresh(5);
    union_find_merge(&mut parent, &mut rank, 3, 4);
    union_find_merge(&mut parent, &mut rank, 4, 1);
    let a = union_find_parent(&mut parent, 1);
    let b = union_find_parent(&mut parent, 1);
    assert_eq!(a, b);
    assert_eq!(union_find_parent(&mut parent, a), a);
}
