//! What a run of the tool is asked to do: deploy a branch or a tag, or
//! revert to the previous release.

use vstd::prelude::*;

verus! {

/// The git reference a deploy checks out.
#[derive(Debug)]
pub enum RefTarget {
    Branch(String),
    Tag(String),
}

/// The text that names a deploy target in the summary.
pub open spec fn describe_target(target: RefTarget) -> Seq<char> {
    match target {
        RefTarget::Branch(b) => "branch:"@ + b@,
        RefTarget::Tag(t) => "tag:"@ + t@,
    }
}

impl RefTarget {
    /// Names the target as `branch:<name>` or `tag:<name>`.
    pub fn describe(&self) -> (d: String)
        ensures
            d@ == describe_target(*self),
    {
        match self {
            RefTarget::Branch(b) => String::from_str("branch:").concat(b.as_str()),
            RefTarget::Tag(t) => String::from_str("tag:").concat(t.as_str()),
        }
    }
}

/// What a run does.
#[derive(Debug)]
pub enum Mode {
    /// Point `current` back at the previous release.
    Revert,
    /// Check out the target and deploy it as a new release.
    Deploy(RefTarget),
}

/// The command line does not say what to do.
#[derive(Clone, Copy, Debug, PartialEq, Eq, Structural)]
pub enum ModeError {
    /// None of `--branch`, `--tag` and `--revert` was given.
    NoAction,
    /// Both `--branch` and `--tag` were given.
    BranchAndTag,
}

impl ModeError {
    /// The message shown for this error.
    pub fn message(&self) -> (m: String)
        ensures
            m@ == match *self {
                ModeError::NoAction => "Debes indicar una acción: --branch, --tag o --revert"@,
                ModeError::BranchAndTag => "Debes usar exactamente una de estas opciones: --branch o --tag"@,
            },
    {
        match self {
            ModeError::NoAction => String::from_str(
                "Debes indicar una acción: --branch, --tag o --revert",
            ),
            ModeError::BranchAndTag => String::from_str(
                "Debes usar exactamente una de estas opciones: --branch o --tag",
            ),
        }
    }
}

/// Chooses what to do from `--branch`, `--tag` and `--revert`: nothing
/// given is an error, `--revert` reverts, and otherwise exactly one of a
/// branch and a tag is deployed.
pub fn select_mode(branch: Option<String>, tag: Option<String>, revert: bool) -> (res: Result<
    Mode,
    ModeError,
>)
    ensures
        res == if !revert && branch is None && tag is None {
            Err::<Mode, ModeError>(ModeError::NoAction)
        } else if revert {
            Ok(Mode::Revert)
        } else {
            match (branch, tag) {
                (Some(b), None) => Ok(Mode::Deploy(RefTarget::Branch(b))),
                (None, Some(t)) => Ok(Mode::Deploy(RefTarget::Tag(t))),
                _ => Err(ModeError::BranchAndTag),
            }
        },
{
    if !revert && branch.is_none() && tag.is_none() {
        return Err(ModeError::NoAction);
    }
    if revert {
        return Ok(Mode::Revert);
    }
    match (branch, tag) {
        (Some(b), None) => Ok(Mode::Deploy(RefTarget::Branch(b))),
        (None, Some(t)) => Ok(Mode::Deploy(RefTarget::Tag(t))),
        _ => Err(ModeError::BranchAndTag),
    }
}

}
