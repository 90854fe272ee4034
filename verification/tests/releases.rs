use git_trano::releases::{cleanup_old_releases, do_revert, list_release_dirs_sorted, KeepZero, NotEnoughReleases};

fn names(list: &[&str]) -> Vec<String> {
    list.iter().map(|s| s.to_string()).collect()
}

#[test]
fn releases_sort_by_name() {
    let n = names(&[
        "2026-01-01T12-00-00Z",
        "2025-12-31T23-59-59Z",
        "2026-01-01T11-00-00Z",
    ]);
    assert_eq!(list_release_dirs_sorted(&n), vec![1, 2, 0]);
}

#[test]
fn releases_sort_bytewise_and_prefix_first() {
    let n = names(&["b", "ab", "a", "B", "é", "z"]);
    assert_eq!(list_release_dirs_sorted(&n), vec![3, 2, 1, 0, 5, 4]);
}

#[test]
fn releases_sort_keeps_listing_order_of_equal_names() {
    let n = names(&["", "x", "", "x"]);
    assert_eq!(list_release_dirs_sorted(&n), vec![0, 2, 1, 3]);
}

#[test]
fn releases_sort_empty() {
    assert_eq!(list_release_dirs_sorted(&Vec::new()), Vec::<usize>::new());
}

#[test]
fn revert_goes_to_second_newest() {
    let n = names(&[
        "2026-01-01T12-00-00Z",
        "2026-01-01T10-00-00Z",
        "2026-01-01T11-00-00Z",
    ]);
    assert_eq!(do_revert(&n), Ok(2));
    let n = names(&["b", "a"]);
    assert_eq!(do_revert(&n), Ok(1));
}

#[test]
fn revert_needs_two_releases() {
    assert_eq!(do_revert(&names(&["only"])), Err(NotEnoughReleases));
    assert_eq!(do_revert(&Vec::new()), Err(NotEnoughReleases));
    assert_eq!(
        NotEnoughReleases.message(),
        "No hay suficientes releases para revertir (se requieren al menos 2)"
    );
}

#[test]
fn cleanup_removes_oldest_beyond_keep() {
    let n = names(&["e", "a", "d", "b", "c"]);
    assert_eq!(cleanup_old_releases(&n, 3), Ok(vec![1, 3]));
    assert_eq!(cleanup_old_releases(&n, 1), Ok(vec![1, 3, 4, 2]));
}

#[test]
fn cleanup_keeps_all_when_few() {
    let n = names(&["b", "a"]);
    assert_eq!(cleanup_old_releases(&n, 2), Ok(vec![]));
    assert_eq!(cleanup_old_releases(&n, 5), Ok(vec![]));
}

#[test]
fn cleanup_refuses_keep_zero() {
    assert_eq!(cleanup_old_releases(&names(&["a"]), 0), Err(KeepZero));
    assert_eq!(KeepZero.message(), "--keep debe ser >= 1");
}
