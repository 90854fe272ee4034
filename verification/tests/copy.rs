use git_trano::copy::{
    copy_dir_filtered, copy_repo_to_release, include_in_release, link_spot, remove_path_any,
    switch_current_symlink, CopyAction, EntryKind, LinkSpot, Removal, SwitchStep,
    UnsupportedFileType,
};

#[test]
fn release_copy_leaves_out_git_metadata_and_target() {
    for base in [None, Some(""), Some("deploy")] {
        assert!(!include_in_release(".git", base));
        assert!(!include_in_release(".git/config", base));
        assert!(!include_in_release("target", base));
        assert!(!include_in_release("target/debug/x", base));
        assert!(include_in_release(".gitignore", base));
        assert!(include_in_release(".github/workflows/x.yml", base));
        assert!(include_in_release("targets", base));
        assert!(include_in_release("src/target", base));
    }
}

#[test]
fn release_copy_leaves_out_deploy_base_inside_tree() {
    let base = Some("deploy");
    for rel in ["deploy", "deploy/releases", "deploy/releases/2026-01-01T12-00-00Z/a.txt", "deploy/current"] {
        assert!(!include_in_release(rel, base), "{rel}");
    }
    for rel in ["deployment", "deploy.txt", "releases", "shared/x", "src/deploy"] {
        assert!(include_in_release(rel, base), "{rel}");
    }
    assert_eq!(copy_repo_to_release("deploy/releases/x", EntryKind::File, base), CopyAction::Skip);
    assert_eq!(copy_repo_to_release("nested/www", EntryKind::Dir, Some("nested/www")), CopyAction::Skip);
    assert_eq!(copy_repo_to_release("nested", EntryKind::Dir, Some("nested/www")), CopyAction::CreateDir);
}

#[test]
fn release_copy_leaves_out_layout_when_base_is_root() {
    let base = Some("");
    for rel in ["releases", "releases/2026", "shared", "shared/x", "current", ".git-trano-current.new"] {
        assert!(!include_in_release(rel, base), "{rel}");
    }
    for rel in ["releasesx", "sharedx", "currently", "current.new", "src/main.rs"] {
        assert!(include_in_release(rel, base), "{rel}");
    }
}

#[test]
fn release_copy_keeps_layout_names_when_base_is_outside() {
    for rel in ["releases", "shared/x", "current", "src/main.rs"] {
        assert!(include_in_release(rel, None), "{rel}");
    }
}

#[test]
fn copy_actions_by_kind() {
    assert_eq!(copy_repo_to_release("src", EntryKind::Dir, None), CopyAction::CreateDir);
    assert_eq!(copy_repo_to_release("src/main.rs", EntryKind::File, None), CopyAction::CopyFile);
    assert_eq!(copy_repo_to_release("link", EntryKind::Symlink, None), CopyAction::CopySymlink);
    assert_eq!(copy_repo_to_release("fifo", EntryKind::Other, None), CopyAction::Skip);
    assert_eq!(copy_repo_to_release("", EntryKind::Dir, None), CopyAction::Skip);
    assert_eq!(copy_repo_to_release(".git/HEAD", EntryKind::File, None), CopyAction::Skip);
    assert_eq!(copy_repo_to_release(".git", EntryKind::Dir, None), CopyAction::Skip);
}

#[test]
fn filtered_copy_skips_root_and_rejected() {
    assert_eq!(copy_dir_filtered(true, true, EntryKind::Dir), CopyAction::Skip);
    assert_eq!(copy_dir_filtered(false, false, EntryKind::File), CopyAction::Skip);
    assert_eq!(copy_dir_filtered(false, true, EntryKind::File), CopyAction::CopyFile);
}

#[test]
fn switch_renames_new_link_over_current() {
    let link = SwitchStep::LinkStaging;
    let rename = SwitchStep::RenameStagingOverCurrent;
    assert_eq!(switch_current_symlink(Some(EntryKind::Symlink), false), vec![link, rename]);
    assert_eq!(switch_current_symlink(None, false), vec![link, rename]);
    assert_eq!(
        switch_current_symlink(Some(EntryKind::File), true),
        vec![SwitchStep::ClearStaging, link, rename]
    );
    assert_eq!(
        switch_current_symlink(Some(EntryKind::Dir), true),
        vec![SwitchStep::ClearStaging, SwitchStep::ClearCurrentDir, link, rename]
    );
}

#[test]
fn shared_link_spot() {
    assert_eq!(link_spot(true), LinkSpot::ClearExisting);
    assert_eq!(link_spot(false), LinkSpot::CreateParent);
}

#[test]
fn removal_by_kind() {
    assert_eq!(remove_path_any(EntryKind::File), Ok(Removal::RemoveFile));
    assert_eq!(remove_path_any(EntryKind::Symlink), Ok(Removal::RemoveFile));
    assert_eq!(remove_path_any(EntryKind::Dir), Ok(Removal::RemoveDirAll));
    assert_eq!(remove_path_any(EntryKind::Other), Err(UnsupportedFileType));
    assert_eq!(UnsupportedFileType.message("/x/y"), "Tipo de archivo no soportado: /x/y");
}
