//! What happens to the entries of the working tree when a release is
//! copied, and to the paths that a deploy replaces.

use vstd::prelude::*;
use crate::text::{is_at_or_below, starts_with, text_is_at_or_below};

verus! {

/// The type of a filesystem entry, read without following links.
#[derive(Clone, Copy, Debug, PartialEq, Eq, Structural)]
pub enum EntryKind {
    Dir,
    File,
    Symlink,
    /// Anything else: a socket, a pipe, a device.
    Other,
}

/// What the copy into a new release does with one entry of the tree.
#[derive(Clone, Copy, Debug, PartialEq, Eq, Structural)]
pub enum CopyAction {
    /// Leave the entry out.
    Skip,
    /// Create the directory (and its parents) in the release.
    CreateDir,
    /// Create a link with the same target in the release.
    CopySymlink,
    /// Create the parent directory in the release and copy the file.
    CopyFile,
}

/// The directory, under the deploy path, that holds one directory per
/// release.
pub const RELEASES_DIR: &'static str = "releases";

/// The directory, under the deploy path, that holds what releases share.
pub const SHARED_DIR: &'static str = "shared";

/// The link, under the deploy path, to the active release.
pub const CURRENT_LINK: &'static str = "current";

/// A link made beside `current` and renamed over it, so that `current`
/// changes from one release to the next in one step.
pub const CURRENT_STAGING_LINK: &'static str = ".git-trano-current.new";

/// The entries of the deploy layout, relative to the deploy base.
pub open spec fn is_layout_entry(rel: Seq<char>) -> bool {
    ||| is_at_or_below(rel, RELEASES_DIR@)
    ||| is_at_or_below(rel, SHARED_DIR@)
    ||| is_at_or_below(rel, CURRENT_LINK@)
    ||| is_at_or_below(rel, CURRENT_STAGING_LINK@)
}

/// A path of the working tree, relative to its root, that a release
/// leaves out: the git metadata `.git`, the build directory `target`, and
/// the deploy base when it lies inside the working tree. `deploy_base` is
/// the deploy base relative to the root of the working tree, or `None`
/// when it lies outside. When the deploy base is the root itself (the
/// empty path), its layout entries are left out; otherwise the deploy
/// base and all it holds are.
pub open spec fn excluded_from_release(rel: Seq<char>, deploy_base: Option<Seq<char>>) -> bool {
    ||| is_at_or_below(rel, ".git"@)
    ||| is_at_or_below(rel, "target"@)
    ||| match deploy_base {
        None => false,
        Some(base) => if base.len() == 0 {
            is_layout_entry(rel)
        } else {
            is_at_or_below(rel, base)
        },
    }
}

/// The view of an optional text.
pub open spec fn text_view(t: Option<&str>) -> Option<Seq<char>> {
    match t {
        Some(s) => Some(s@),
        None => None,
    }
}

/// The filter of the release copy: keeps every entry but those
/// `excluded_from_release` names.
pub fn include_in_release(rel: &str, deploy_base: Option<&str>) -> (keep: bool)
    ensures
        keep == !excluded_from_release(rel@, text_view(deploy_base)),
{
    if text_is_at_or_below(rel, ".git") || text_is_at_or_below(rel, "target") {
        return false;
    }
    match deploy_base {
        None => true,
        Some(base) => {
            if base.unicode_len() == 0 {
                !(text_is_at_or_below(rel, RELEASES_DIR) || text_is_at_or_below(rel, SHARED_DIR)
                    || text_is_at_or_below(rel, CURRENT_LINK) || text_is_at_or_below(
                    rel,
                    CURRENT_STAGING_LINK,
                ))
            } else {
                !text_is_at_or_below(rel, base)
            }
        },
    }
}

/// The action of a filtered tree copy on one entry: the root itself and
/// the entries the filter rejects are skipped; a directory is created, a
/// link copied as a link, a file copied; other entries are skipped.
pub fn copy_dir_filtered(is_root: bool, included: bool, kind: EntryKind) -> (action: CopyAction)
    ensures
        action == if is_root || !included {
            CopyAction::Skip
        } else {
            match kind {
                EntryKind::Dir => CopyAction::CreateDir,
                EntryKind::Symlink => CopyAction::CopySymlink,
                EntryKind::File => CopyAction::CopyFile,
                EntryKind::Other => CopyAction::Skip,
            }
        },
{
    if is_root || !included {
        return CopyAction::Skip;
    }
    match kind {
        EntryKind::Dir => CopyAction::CreateDir,
        EntryKind::Symlink => CopyAction::CopySymlink,
        EntryKind::File => CopyAction::CopyFile,
        EntryKind::Other => CopyAction::Skip,
    }
}

/// The action of the release copy on the entry at `rel` (relative to the
/// root of the working tree, empty for the root itself): nothing that
/// `excluded_from_release` names is copied, so a deploy base inside the
/// working tree is never copied into one of its own releases.
pub fn copy_repo_to_release(rel: &str, kind: EntryKind, deploy_base: Option<&str>) -> (action:
    CopyAction)
    ensures
        action == if rel@.len() == 0 || excluded_from_release(rel@, text_view(deploy_base)) {
            CopyAction::Skip
        } else {
            match kind {
                EntryKind::Dir => CopyAction::CreateDir,
                EntryKind::Symlink => CopyAction::CopySymlink,
                EntryKind::File => CopyAction::CopyFile,
                EntryKind::Other => CopyAction::Skip,
            }
        },
{
    let is_root = rel.unicode_len() == 0;
    if is_root {
        return copy_dir_filtered(true, true, kind);
    }
    copy_dir_filtered(false, include_in_release(rel, deploy_base), kind)
}

/// One step of switching `current` to a new release.
#[derive(Clone, Copy, Debug, PartialEq, Eq, Structural)]
pub enum SwitchStep {
    /// Remove what a previous switch left at `CURRENT_STAGING_LINK`.
    ClearStaging,
    /// Remove a real directory standing at `current`, which a link cannot
    /// be renamed over.
    ClearCurrentDir,
    /// Make the link to the new release at `CURRENT_STAGING_LINK`.
    LinkStaging,
    /// Rename `CURRENT_STAGING_LINK` over `current`, replacing it at once.
    RenameStagingOverCurrent,
}

/// The steps of a switch of `current`, given what stands at `current`
/// (`None` for nothing) and whether anything stands at the staging name.
pub open spec fn switch_steps(current: Option<EntryKind>, staging_present: bool) -> Seq<SwitchStep> {
    let clear_staging = if staging_present {
        seq![SwitchStep::ClearStaging]
    } else {
        Seq::empty()
    };
    let clear_current = if current == Some(EntryKind::Dir) {
        seq![SwitchStep::ClearCurrentDir]
    } else {
        Seq::empty()
    };
    clear_staging + clear_current + seq![SwitchStep::LinkStaging, SwitchStep::RenameStagingOverCurrent]
}

/// Plans the switch of `current` to a new release: the new link is made
/// beside `current` and renamed over it, so a `current` that is a link (or
/// a file) is replaced in one step and stays in place if making the new
/// link fails. Only a real directory at `current` is removed first.
pub fn switch_current_symlink(current: Option<EntryKind>, staging_present: bool) -> (steps: Vec<
    SwitchStep,
>)
    ensures
        steps@ == switch_steps(current, staging_present),
{
    let mut steps = Vec::new();
    if staging_present {
        steps.push(SwitchStep::ClearStaging);
    }
    if current == Some(EntryKind::Dir) {
        steps.push(SwitchStep::ClearCurrentDir);
    }
    steps.push(SwitchStep::LinkStaging);
    steps.push(SwitchStep::RenameStagingOverCurrent);
    assert(steps@ =~= switch_steps(current, staging_present));
    steps
}

/// A switch never removes a `current` that is a link or a file, and ends
/// by renaming the new link over `current`.
pub proof fn lemma_switch_keeps_current_until_rename(current: Option<EntryKind>, staging_present: bool)
    ensures
        current != Some(EntryKind::Dir) ==> !switch_steps(current, staging_present).contains(
            SwitchStep::ClearCurrentDir,
        ),
        switch_steps(current, staging_present).last() == SwitchStep::RenameStagingOverCurrent,
        switch_steps(current, staging_present).len() >= 2,
{
    let steps = switch_steps(current, staging_present);
    if current != Some(EntryKind::Dir) && steps.contains(SwitchStep::ClearCurrentDir) {
        let k = choose|k: int| 0 <= k < steps.len() && steps[k] == SwitchStep::ClearCurrentDir;
        if staging_present {
            assert(k != 0);
        }
    }
}

/// Whether a path that is to become a link must first be cleared: when
/// something stands there (a dangling link included) it is removed,
/// otherwise its parent directory is created.
#[derive(Clone, Copy, Debug, PartialEq, Eq, Structural)]
pub enum LinkSpot {
    ClearExisting,
    CreateParent,
}

/// Prepares the place of a shared link inside the release.
pub fn link_spot(present: bool) -> (spot: LinkSpot)
    ensures
        spot == if present {
            LinkSpot::ClearExisting
        } else {
            LinkSpot::CreateParent
        },
{
    if present {
        LinkSpot::ClearExisting
    } else {
        LinkSpot::CreateParent
    }
}

/// How an entry in the way is removed.
#[derive(Clone, Copy, Debug, PartialEq, Eq, Structural)]
pub enum Removal {
    /// Unlink a file or a link (a link's target stays).
    RemoveFile,
    /// Remove a directory with all it holds.
    RemoveDirAll,
}

/// An entry that is neither a file, a link nor a directory is in the way.
#[derive(Clone, Copy, Debug, PartialEq, Eq, Structural)]
pub struct UnsupportedFileType;

impl UnsupportedFileType {
    /// The message shown for this error, given how the path is displayed.
    pub fn message(&self, path: &str) -> (m: String)
        ensures
            m@ == "Tipo de archivo no soportado: "@ + path@,
    {
        String::from_str("Tipo de archivo no soportado: ").concat(path)
    }
}

/// Decides how to remove whatever stands at a path: files and links are
/// unlinked, directories removed with their contents, anything else
/// refused.
pub fn remove_path_any(kind: EntryKind) -> (res: Result<Removal, UnsupportedFileType>)
    ensures
        res == match kind {
            EntryKind::File | EntryKind::Symlink => Ok::<Removal, UnsupportedFileType>(Removal::RemoveFile),
            EntryKind::Dir => Ok(Removal::RemoveDirAll),
            EntryKind::Other => Err(UnsupportedFileType),
        },
{
    match kind {
        EntryKind::File | EntryKind::Symlink => Ok(Removal::RemoveFile),
        EntryKind::Dir => Ok(Removal::RemoveDirAll),
        EntryKind::Other => Err(UnsupportedFileType),
    }
}


/// With the deploy base outside the working tree, a release copies every
/// entry of the tree but `.git`, `target` and what they hold: an entry is
/// left out exactly when its path is `.git` or `target`, or starts with
/// `.git/` or `target/`.
pub proof fn lemma_outside_base_copies_all_but_git_and_target(rel: Seq<char>)
    ensures
        excluded_from_release(rel, None) <==> (rel == ".git"@ || rel == "target"@ || starts_with(
            rel,
            ".git/"@,
        ) || starts_with(rel, "target/"@)),
{
    reveal_strlit(".git");
    reveal_strlit(".git/");
    reveal_strlit("target");
    reveal_strlit("target/");
    if rel.len() >= 5 {
        assert(rel.take(5).take(4) == rel.take(4));
        if rel.take(5) == ".git/"@ {
            assert(rel.take(4) == ".git"@);
            assert(rel[4] == rel.take(5)[4]);
        }
        if rel.take(4) == ".git"@ && rel[4] == '/' {
            assert(rel.take(5) == ".git/"@);
        }
    }
    if rel.len() >= 7 {
        assert(rel.take(7).take(6) == rel.take(6));
        if rel.take(7) == "target/"@ {
            assert(rel.take(6) == "target"@);
            assert(rel[6] == rel.take(7)[6]);
        }
        if rel.take(6) == "target"@ && rel[6] == '/' {
            assert(rel.take(7) == "target/"@);
        }
    }
}

}
