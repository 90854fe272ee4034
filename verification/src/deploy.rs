//! The course of a deploy: fetching, checking out the target, and the
//! steps that build and activate a release. The decisions are made here,
//! one event at a time; the caller carries out each action and reports
//! how it went.

use vstd::prelude::*;
use crate::git::GitOutcome;
use crate::paths::{has_no_separator, is_normal_segment};
use crate::releases::{
    bytes_lt, cleanup_old_releases, is_release_order, listed_before, release_key, lemma_release_order_unique, name_views, removal_count,
};
use crate::target::RefTarget;
use crate::calendar::{lemma_ascii_before_bytes, lemma_utc_text_ascii, lemma_utc_text_increases, utc_text};

verus! {

/// A character `0` to `9`.
pub open spec fn is_ascii_digit(c: char) -> bool {
    '0' <= c <= '9'
}

/// The shape of a release name, `<year>-MM-DDTHH-MM-SSZ`: a year of at
/// least four digits, signed when it lies outside 0 to 9999, then two
/// digits each for month, day, hour, minute and second.
pub open spec fn is_release_timestamp(s: Seq<char>) -> bool {
    let k = s.len() - 16;
    &&& s.len() >= 20
    &&& (is_ascii_digit(s[0]) || s[0] == '+' || s[0] == '-')
    &&& forall|i: int| 1 <= i < k ==> is_ascii_digit(#[trigger] s[i])
    &&& s[k] == '-' && is_ascii_digit(s[k + 1]) && is_ascii_digit(s[k + 2])
    &&& s[k + 3] == '-' && is_ascii_digit(s[k + 4]) && is_ascii_digit(s[k + 5])
    &&& s[k + 6] == 'T' && is_ascii_digit(s[k + 7]) && is_ascii_digit(s[k + 8])
    &&& s[k + 9] == '-' && is_ascii_digit(s[k + 10]) && is_ascii_digit(s[k + 11])
    &&& s[k + 12] == '-' && is_ascii_digit(s[k + 13]) && is_ascii_digit(s[k + 14])
    &&& s[k + 15] == 'Z'
}

/// The chrono format of a release name: the UTC time as
/// `<year>-MM-DDTHH-MM-SSZ`, which sorts in time order and holds no
/// character that a directory name cannot.
pub const RELEASE_NAME_FORMAT: &'static str = "%Y-%m-%dT%H-%M-%SZ";

/// The text chrono's `format` gives for the UTC time `secs` seconds
/// after 1970-01-01T00:00:00Z with a pattern, or `None` where
/// `DateTime::from_timestamp` finds the time out of its range.
pub uninterp spec fn utc_formatted(secs: int, pattern: Seq<char>) -> Option<Seq<char>>;

/// Formats a time, given in seconds since the epoch, with chrono
/// (`DateTime::from_timestamp(secs, 0)`, then `format(pattern)`). Only the
/// release name format is accepted. The contract names the result; states
/// the shape that chrono's documentation gives for the specifiers of that
/// format (`%Y` is four digits, signed outside 0 to 9999; the others two
/// digits each); and, for the times from 1970 to the end of the year 9999,
/// states the text itself: the proleptic Gregorian date and the time of
/// day in UTC, as `utc_text` writes them. What chrono gives for later
/// times is left to the name.
#[verifier::external_body]
fn format_utc(secs: i64, pattern: &str) -> (text: Option<String>)
    requires
        pattern@ == RELEASE_NAME_FORMAT@,
    ensures
        text_view_opt(text) == utc_formatted(secs as int, pattern@),
        text matches Some(t) ==> is_release_timestamp(t@),
        0 <= secs < four_digit_years_end() ==> text_view_opt(text) == Some(
            utc_text(secs as nat),
        ),
{
    match chrono::DateTime::from_timestamp(secs, 0) {
        Some(time) => Some(time.format(pattern).to_string()),
        None => None,
    }
}

/// The view of an optional text.
pub open spec fn text_view_opt(t: Option<String>) -> Option<Seq<char>> {
    match t {
        Some(s) => Some(s@),
        None => None,
    }
}

/// 10000-01-01T00:00:00Z in seconds since the epoch: the end of the
/// years that `%Y` writes with four digits.
pub open spec fn four_digit_years_end() -> nat {
    253402300800
}

/// The name of a release made `secs` seconds after the epoch: its UTC
/// time as `YYYY-MM-DDTHH-MM-SSZ` up to the end of the year 9999, and
/// after that what chrono gives, if it can represent the time.
pub open spec fn release_name_of(secs: nat) -> Option<Seq<char>> {
    if secs < four_digit_years_end() {
        Some(utc_text(secs))
    } else if secs > i64::MAX {
        None
    } else {
        utc_formatted(secs as int, RELEASE_NAME_FORMAT@)
    }
}

/// Releases made later sort later: of two times before the year 10000,
/// the earlier one gives the name that comes first in the byte order in
/// which releases are listed, so the listing of releases is the order in
/// which they were made.
pub proof fn lemma_release_names_follow_time(secs1: nat, secs2: nat)
    requires
        secs1 < secs2 < four_digit_years_end(),
    ensures
        release_name_of(secs1) is Some,
        release_name_of(secs2) is Some,
        bytes_lt(
            release_key(release_name_of(secs1)->Some_0),
            release_key(release_name_of(secs2)->Some_0),
        ),
{
    lemma_utc_text_increases(secs1, secs2);
    lemma_utc_text_ascii(secs1);
    lemma_utc_text_ascii(secs2);
    lemma_ascii_before_bytes(utc_text(secs1), utc_text(secs2));
}

/// Releases named at increasing times before the year 10000 are listed
/// in the order they were made: the release order of their names is the
/// order of the times.
pub proof fn lemma_releases_listed_in_time_order(
    times: Seq<nat>,
    names: Seq<Seq<char>>,
    order: Seq<usize>,
)
    requires
        names.len() == times.len(),
        names.len() <= usize::MAX,
        forall|i: int, j: int| 0 <= i < j < times.len() ==> times[i] < times[j],
        forall|i: int| 0 <= i < times.len() ==> times[i] < four_digit_years_end(),
        forall|i: int|
            0 <= i < names.len() ==> release_name_of(#[trigger] times[i]) == Some(names[i]),
        is_release_order(names, order),
    ensures
        forall|p: int| 0 <= p < order.len() ==> order[p] == p,
{
    let n = names.len();
    let id = Seq::new(n, |p: int| p as usize);
    assert forall|i: usize| i < n implies #[trigger] id.contains(i) by {
        assert(id[i as int] == i);
    }
    assert forall|p: int, q: int| 0 <= p < q < id.len() implies listed_before(
        names,
        #[trigger] id[p] as int,
        #[trigger] id[q] as int,
    ) by {
        lemma_release_names_follow_time(times[p], times[q]);
        assert(release_name_of(times[p]) == Some(names[p]));
        assert(release_name_of(times[q]) == Some(names[q]));
    }
    lemma_release_order_unique(names, order, id);
}

/// Names a release made `secs` seconds after the epoch: the UTC time in
/// `RELEASE_NAME_FORMAT`, which is one plain path segment.
pub fn release_name_at(secs: u64) -> (name: Option<String>)
    ensures
        text_view_opt(name) == release_name_of(secs as nat),
        name matches Some(n) ==> is_release_timestamp(n@) && is_normal_segment(n@)
            && has_no_separator(n@),
{
    if secs > 0x7fff_ffff_ffff_ffff {
        return None;
    }
    let name = format_utc(secs as i64, RELEASE_NAME_FORMAT);
    proof {
        if name is Some {
            lemma_release_name_is_segment(name->Some_0@);
        }
    }
    name
}

/// A release name is one plain path segment, so the release directory is
/// a direct child of `releases/`.
pub proof fn lemma_release_name_is_segment(s: Seq<char>)
    requires
        is_release_timestamp(s),
    ensures
        is_normal_segment(s),
        has_no_separator(s),
{
    let k = s.len() - 16;
    assert forall|i: int| 0 <= i < s.len() implies s[i] != '/' by {
        if i == 0 {
        } else if i < k {
            assert(is_ascii_digit(s[i]));
        } else {
            assert(i == k || i == k + 1 || i == k + 2 || i == k + 3 || i == k + 4 || i == k + 5
                || i == k + 6 || i == k + 7 || i == k + 8 || i == k + 9 || i == k + 10 || i == k
                + 11 || i == k + 12 || i == k + 13 || i == k + 14 || i == k + 15);
        }
    }
    assert(s != seq!['.']);
    assert(s != seq!['.', '.']);
}

/// The `git` commands whose failure ends a deploy with their own message.
#[derive(Clone, Copy, Debug, PartialEq, Eq, Structural)]
pub enum GitStep {
    Fetch,
    CheckoutLocal,
    ResetLocal,
    TrackRemote,
    CheckoutTag,
}

/// The message of a failed `git` step.
pub open spec fn git_step_context(step: GitStep) -> Seq<char> {
    match step {
        GitStep::Fetch => "No se pudo ejecutar git fetch"@,
        GitStep::CheckoutLocal => "No se pudo hacer checkout de la rama local"@,
        GitStep::ResetLocal => "No se pudo sincronizar la rama local con remoto"@,
        GitStep::TrackRemote => "No se pudo crear/trakear la rama local desde origin"@,
        GitStep::CheckoutTag => "No se pudo hacer checkout de la tag"@,
    }
}

/// Why a deploy stopped.
#[derive(Clone, Copy, Debug, PartialEq, Eq, Structural)]
pub enum DeployError {
    /// A `git` step could not be started.
    GitNotStarted(GitStep),
    /// A `git` step failed.
    GitFailed(GitStep),
    /// The check for the remote branch could not be started.
    RemoteCheckNotStarted,
    /// `origin` has no such branch.
    RemoteBranchMissing,
    /// The check for the local branch could not be started.
    LocalCheckNotStarted,
    /// The check for the tag could not be started.
    TagCheckNotStarted,
    /// The repository has no such tag.
    TagMissing,
    /// The clock reads before 1970-01-01T00:00:00Z.
    ClockBeforeEpoch,
    /// The clock reads a time that chrono cannot represent.
    ClockOutOfRange,
    /// `--keep 0` was given.
    KeepZero,
    /// An event came that the current step does not wait for.
    UnexpectedEvent,
}

/// The name of a target: the branch or the tag.
pub open spec fn target_name(target: RefTarget) -> Seq<char> {
    match target {
        RefTarget::Branch(b) => b@,
        RefTarget::Tag(t) => t@,
    }
}

/// The message of a deploy error for a given target.
pub open spec fn deploy_error_message(e: DeployError, target: RefTarget) -> Seq<char> {
    match e {
        DeployError::GitNotStarted(step) => git_step_context(step) + ": fallo al invocar git"@,
        DeployError::GitFailed(step) => git_step_context(step),
        DeployError::RemoteCheckNotStarted => "No se pudo verificar rama remota"@,
        DeployError::RemoteBranchMissing => "La rama remota origin/"@ + target_name(target)
            + " no existe"@,
        DeployError::LocalCheckNotStarted => "No se pudo verificar rama local"@,
        DeployError::TagCheckNotStarted => "No se pudo verificar tag"@,
        DeployError::TagMissing => "La tag '"@ + target_name(target) + "' no existe en este repositorio"@,
        DeployError::ClockBeforeEpoch => "El reloj del sistema marca una fecha anterior a 1970"@,
        DeployError::ClockOutOfRange => "El reloj del sistema marca una fecha fuera de rango"@,
        DeployError::KeepZero => "--keep debe ser >= 1"@,
        DeployError::UnexpectedEvent => "Evento inesperado en el despliegue"@,
    }
}

impl DeployError {
    /// The message shown for this error when deploying `target`.
    pub fn message(&self, target: &RefTarget) -> (m: String)
        ensures
            m@ == deploy_error_message(*self, *target),
    {
        let name = match target {
            RefTarget::Branch(b) => b.as_str(),
            RefTarget::Tag(t) => t.as_str(),
        };
        match self {
            DeployError::GitNotStarted(step) => git_step_message(*step).concat(": fallo al invocar git"),
            DeployError::GitFailed(step) => git_step_message(*step),
            DeployError::RemoteCheckNotStarted => String::from_str("No se pudo verificar rama remota"),
            DeployError::RemoteBranchMissing => String::from_str("La rama remota origin/").concat(
                name,
            ).concat(" no existe"),
            DeployError::LocalCheckNotStarted => String::from_str("No se pudo verificar rama local"),
            DeployError::TagCheckNotStarted => String::from_str("No se pudo verificar tag"),
            DeployError::TagMissing => String::from_str("La tag '").concat(name).concat(
                "' no existe en este repositorio",
            ),
            DeployError::ClockBeforeEpoch => String::from_str(
                "El reloj del sistema marca una fecha anterior a 1970",
            ),
            DeployError::ClockOutOfRange => String::from_str(
                "El reloj del sistema marca una fecha fuera de rango",
            ),
            DeployError::KeepZero => String::from_str("--keep debe ser >= 1"),
            DeployError::UnexpectedEvent => String::from_str("Evento inesperado en el despliegue"),
        }
    }
}

fn git_step_message(step: GitStep) -> (m: String)
    ensures
        m@ == git_step_context(step),
{
    match step {
        GitStep::Fetch => String::from_str("No se pudo ejecutar git fetch"),
        GitStep::CheckoutLocal => String::from_str("No se pudo hacer checkout de la rama local"),
        GitStep::ResetLocal => String::from_str("No se pudo sincronizar la rama local con remoto"),
        GitStep::TrackRemote => String::from_str("No se pudo crear/trakear la rama local desde origin"),
        GitStep::CheckoutTag => String::from_str("No se pudo hacer checkout de la tag"),
    }
}

/// Where a deploy stands: which action it waits to hear about.
#[derive(Clone, Copy, Debug, PartialEq, Eq, Structural)]
pub enum Phase {
    Fetching,
    VerifyingRemote,
    VerifyingLocal,
    CheckingOutLocal,
    ResettingLocal,
    TrackingRemote,
    VerifyingTag,
    DetachingTag,
    ReadingClock,
    CreatingRelease,
    Copying,
    Switching,
    Linking,
    Listing,
    Removing,
    Finished,
    Failed,
}

/// What happened to the last action.
#[derive(Debug)]
pub enum Event {
    /// The `git` command of a `RunGit` action went this way.
    Git(GitOutcome),
    /// A filesystem action completed.
    Done,
    /// The clock, in whole seconds since 1970-01-01T00:00:00Z, or `None`
    /// when it reads before that.
    Clock(Option<u64>),
    /// The directories found in `releases/`, by name (a name that is not
    /// valid UTF-8 is given as the empty text).
    Listed(Vec<String>),
}

/// What the caller does next.
#[derive(Debug)]
pub enum Action {
    /// Run `git` with these arguments and report its exit status.
    RunGit(Vec<String>),
    /// Read the clock and report it.
    ReadClock,
    /// Create `releases/<name>`.
    CreateRelease(String),
    /// Copy the working tree into the new release.
    CopyRepo,
    /// Point `current` at the new release.
    SwitchCurrent,
    /// Link the `--shared` paths into the release behind `current`.
    ApplySharedLinks,
    /// List the directories in `releases/`.
    ListReleases,
    /// Remove these releases, given as positions in the last listing, in
    /// this order.
    RemoveReleases(Vec<usize>),
    /// The deploy is complete.
    Finish,
    /// The deploy stopped with this error.
    Fail(DeployError),
}

/// How a `git` command went, as the deploy sees it.
#[derive(Clone, Copy, Debug, PartialEq, Eq, Structural)]
pub enum GitReport {
    NotStarted,
    Succeeded,
    Failed,
}

/// An event as the deploy sees it.
pub enum EventView {
    Git(GitReport),
    Done,
    Clock(Option<nat>),
    Listed(Seq<Seq<char>>),
}

/// An action as the deploy sees it.
pub enum ActionView {
    RunGit(Seq<Seq<char>>),
    ReadClock,
    CreateRelease(Seq<char>),
    CopyRepo,
    SwitchCurrent,
    ApplySharedLinks,
    ListReleases,
    RemoveReleases(Seq<usize>),
    Finish,
    Fail(DeployError),
}

impl View for Event {
    type V = EventView;

    open spec fn view(&self) -> EventView {
        match self {
            Event::Git(GitOutcome::NotStarted) => EventView::Git(GitReport::NotStarted),
            Event::Git(GitOutcome::Finished { success, stdout: _ }) => EventView::Git(
                if *success {
                    GitReport::Succeeded
                } else {
                    GitReport::Failed
                },
            ),
            Event::Done => EventView::Done,
            Event::Clock(c) => EventView::Clock(
                match c {
                    Some(secs) => Some(*secs as nat),
                    None => None,
                },
            ),
            Event::Listed(names) => EventView::Listed(name_views(names@)),
        }
    }
}

impl View for Action {
    type V = ActionView;

    open spec fn view(&self) -> ActionView {
        match self {
            Action::RunGit(args) => ActionView::RunGit(args@.map_values(|a: String| a@)),
            Action::ReadClock => ActionView::ReadClock,
            Action::CreateRelease(name) => ActionView::CreateRelease(name@),
            Action::CopyRepo => ActionView::CopyRepo,
            Action::SwitchCurrent => ActionView::SwitchCurrent,
            Action::ApplySharedLinks => ActionView::ApplySharedLinks,
            Action::ListReleases => ActionView::ListReleases,
            Action::RemoveReleases(r) => ActionView::RemoveReleases(r@),
            Action::Finish => ActionView::Finish,
            Action::Fail(e) => ActionView::Fail(*e),
        }
    }
}

/// `git fetch --all --prune`.
pub open spec fn fetch_args() -> Seq<Seq<char>> {
    seq!["fetch"@, "--all"@, "--prune"@]
}

/// `git show-ref --verify --quiet <reference>`.
pub open spec fn show_ref_args(reference: Seq<char>) -> Seq<Seq<char>> {
    seq!["show-ref"@, "--verify"@, "--quiet"@, reference]
}

/// `git checkout <branch>`.
pub open spec fn checkout_args(branch: Seq<char>) -> Seq<Seq<char>> {
    seq!["checkout"@, branch]
}

/// `git reset --hard origin/<branch>`.
pub open spec fn reset_args(branch: Seq<char>) -> Seq<Seq<char>> {
    seq!["reset"@, "--hard"@, "origin/"@ + branch]
}

/// `git checkout -B <branch> --track origin/<branch>`.
pub open spec fn track_args(branch: Seq<char>) -> Seq<Seq<char>> {
    seq!["checkout"@, "-B"@, branch, "--track"@, "origin/"@ + branch]
}

/// `git checkout --detach <tag>`.
pub open spec fn detach_args(tag: Seq<char>) -> Seq<Seq<char>> {
    seq!["checkout"@, "--detach"@, tag]
}

/// A failed `git` step: the error for a command that could not start or
/// that failed.
pub open spec fn git_failure(step: GitStep, report: GitReport) -> ActionView {
    if report == GitReport::NotStarted {
        ActionView::Fail(DeployError::GitNotStarted(step))
    } else {
        ActionView::Fail(DeployError::GitFailed(step))
    }
}

/// The step after the links are in place: a cleanup, which needs
/// `keep >= 1`, starts by listing the releases.
pub open spec fn cleanup_start(keep: nat) -> (Phase, ActionView) {
    if keep == 0 {
        (Phase::Failed, ActionView::Fail(DeployError::KeepZero))
    } else {
        (Phase::Listing, ActionView::ListReleases)
    }
}

/// The releases a cleanup removes from a listing: the oldest, all but
/// `keep`, in release order.
pub open spec fn releases_to_remove(names: Seq<Seq<char>>, keep: nat) -> Seq<usize> {
    let order = choose|order: Seq<usize>| is_release_order(names, order);
    order.take(removal_count(names.len(), keep) as int)
}

/// What a clock reading leads to: the release named after it, or the
/// error of a clock before the epoch or out of chrono's range.
pub open spec fn transition_after_clock(clock: Option<nat>) -> (Phase, ActionView) {
    match clock {
        None => (Phase::Failed, ActionView::Fail(DeployError::ClockBeforeEpoch)),
        Some(secs) => match release_name_of(secs) {
            Some(name) => (Phase::CreatingRelease, ActionView::CreateRelease(name)),
            None => (Phase::Failed, ActionView::Fail(DeployError::ClockOutOfRange)),
        },
    }
}

/// How a deploy moves on: from its target, whether `--shared` paths were
/// given, the number of releases to keep and its phase, an event gives the
/// next phase and the next action. An event the phase does not wait for
/// stops the deploy.
pub open spec fn transition(
    target: RefTarget,
    has_shared: bool,
    keep: nat,
    phase: Phase,
    event: EventView,
) -> (Phase, ActionView) {
    let name = target_name(target);
    let unexpected = (Phase::Failed, ActionView::Fail(DeployError::UnexpectedEvent));
    match (phase, event) {
        (Phase::Fetching, EventView::Git(r)) => if r != GitReport::Succeeded {
            (Phase::Failed, git_failure(GitStep::Fetch, r))
        } else {
            match target {
                RefTarget::Branch(_) => (
                    Phase::VerifyingRemote,
                    ActionView::RunGit(show_ref_args("refs/remotes/origin/"@ + name)),
                ),
                RefTarget::Tag(_) => (
                    Phase::VerifyingTag,
                    ActionView::RunGit(show_ref_args("refs/tags/"@ + name)),
                ),
            }
        },
        (Phase::VerifyingRemote, EventView::Git(r)) => match r {
            GitReport::NotStarted => (Phase::Failed, ActionView::Fail(DeployError::RemoteCheckNotStarted)),
            GitReport::Failed => (Phase::Failed, ActionView::Fail(DeployError::RemoteBranchMissing)),
            GitReport::Succeeded => (
                Phase::VerifyingLocal,
                ActionView::RunGit(show_ref_args("refs/heads/"@ + name)),
            ),
        },
        (Phase::VerifyingLocal, EventView::Git(r)) => match r {
            GitReport::NotStarted => (Phase::Failed, ActionView::Fail(DeployError::LocalCheckNotStarted)),
            GitReport::Succeeded => (Phase::CheckingOutLocal, ActionView::RunGit(checkout_args(name))),
            GitReport::Failed => (Phase::TrackingRemote, ActionView::RunGit(track_args(name))),
        },
        (Phase::CheckingOutLocal, EventView::Git(r)) => if r != GitReport::Succeeded {
            (Phase::Failed, git_failure(GitStep::CheckoutLocal, r))
        } else {
            (Phase::ResettingLocal, ActionView::RunGit(reset_args(name)))
        },
        (Phase::ResettingLocal, EventView::Git(r)) => if r != GitReport::Succeeded {
            (Phase::Failed, git_failure(GitStep::ResetLocal, r))
        } else {
            (Phase::ReadingClock, ActionView::ReadClock)
        },
        (Phase::TrackingRemote, EventView::Git(r)) => if r != GitReport::Succeeded {
            (Phase::Failed, git_failure(GitStep::TrackRemote, r))
        } else {
            (Phase::ReadingClock, ActionView::ReadClock)
        },
        (Phase::VerifyingTag, EventView::Git(r)) => match r {
            GitReport::NotStarted => (Phase::Failed, ActionView::Fail(DeployError::TagCheckNotStarted)),
            GitReport::Failed => (Phase::Failed, ActionView::Fail(DeployError::TagMissing)),
            GitReport::Succeeded => (Phase::DetachingTag, ActionView::RunGit(detach_args(name))),
        },
        (Phase::DetachingTag, EventView::Git(r)) => if r != GitReport::Succeeded {
            (Phase::Failed, git_failure(GitStep::CheckoutTag, r))
        } else {
            (Phase::ReadingClock, ActionView::ReadClock)
        },
        (Phase::ReadingClock, EventView::Clock(c)) => transition_after_clock(c),
        (Phase::CreatingRelease, EventView::Done) => (Phase::Copying, ActionView::CopyRepo),
        (Phase::Copying, EventView::Done) => (Phase::Switching, ActionView::SwitchCurrent),
        (Phase::Switching, EventView::Done) => if has_shared {
            (Phase::Linking, ActionView::ApplySharedLinks)
        } else {
            cleanup_start(keep)
        },
        (Phase::Linking, EventView::Done) => cleanup_start(keep),
        (Phase::Listing, EventView::Listed(names)) => (
            Phase::Removing,
            ActionView::RemoveReleases(releases_to_remove(names, keep)),
        ),
        (Phase::Removing, EventView::Done) => (Phase::Finished, ActionView::Finish),
        (Phase::Finished, _) => (Phase::Finished, ActionView::Finish),
        _ => unexpected,
    }
}

/// A deploy is reported finished only once the old releases have been
/// removed: whatever the target, options, phase and event, a step that
/// reaches `Finished` or gives the `Finish` action starts from `Removing`
/// on `Done`, or from `Finished` itself. No failure along the way, of a
/// checkout or of anything else, can end in a finished deploy.
pub proof fn lemma_finish_only_after_cleanup(
    target: RefTarget,
    has_shared: bool,
    keep: nat,
    phase: Phase,
    event: EventView,
)
    ensures
        ({
            let (next, action) = transition(target, has_shared, keep, phase, event);
            (next == Phase::Finished || action == ActionView::Finish) ==> ((phase == Phase::Removing
                && event == EventView::Done) || phase == Phase::Finished)
        }),
{
}

/// A `git` command of the fetch or the checkout that does not succeed
/// stops the deploy with that command's error: `GitFailed` of its step
/// when it failed, `GitNotStarted` when it could not be started. The
/// commands are the fetch, the checkout and the reset of an existing local
/// branch, the creation of a tracking branch, and the detached checkout of
/// a tag.
pub proof fn lemma_failed_git_command_stops_deploy(
    target: RefTarget,
    has_shared: bool,
    keep: nat,
    phase: Phase,
    step: GitStep,
    report: GitReport,
)
    requires
        (phase == Phase::Fetching && step == GitStep::Fetch) || (phase == Phase::CheckingOutLocal
            && step == GitStep::CheckoutLocal) || (phase == Phase::ResettingLocal && step
            == GitStep::ResetLocal) || (phase == Phase::TrackingRemote && step
            == GitStep::TrackRemote) || (phase == Phase::DetachingTag && step
            == GitStep::CheckoutTag),
        report != GitReport::Succeeded,
    ensures
        transition(target, has_shared, keep, phase, EventView::Git(report)) == (
            Phase::Failed,
            ActionView::Fail(
                if report == GitReport::Failed {
                    DeployError::GitFailed(step)
                } else {
                    DeployError::GitNotStarted(step)
                },
            ),
        ),
{
}

/// Of the checks that a ref exists, only the one for a local branch may
/// fail without stopping the deploy (a tracking branch is then created);
/// a missing remote branch or tag, or a check that could not be started,
/// stops it with its own error.
pub proof fn lemma_failed_ref_check_stops_deploy(
    target: RefTarget,
    has_shared: bool,
    keep: nat,
    report: GitReport,
)
    ensures
        report == GitReport::Failed ==> transition(
            target,
            has_shared,
            keep,
            Phase::VerifyingRemote,
            EventView::Git(report),
        ) == (Phase::Failed, ActionView::Fail(DeployError::RemoteBranchMissing)),
        report == GitReport::Failed ==> transition(
            target,
            has_shared,
            keep,
            Phase::VerifyingTag,
            EventView::Git(report),
        ) == (Phase::Failed, ActionView::Fail(DeployError::TagMissing)),
        report == GitReport::NotStarted ==> transition(
            target,
            has_shared,
            keep,
            Phase::VerifyingRemote,
            EventView::Git(report),
        ) == (Phase::Failed, ActionView::Fail(DeployError::RemoteCheckNotStarted)),
        report == GitReport::NotStarted ==> transition(
            target,
            has_shared,
            keep,
            Phase::VerifyingLocal,
            EventView::Git(report),
        ) == (Phase::Failed, ActionView::Fail(DeployError::LocalCheckNotStarted)),
        report == GitReport::NotStarted ==> transition(
            target,
            has_shared,
            keep,
            Phase::VerifyingTag,
            EventView::Git(report),
        ) == (Phase::Failed, ActionView::Fail(DeployError::TagCheckNotStarted)),
        transition(target, has_shared, keep, Phase::VerifyingLocal, EventView::Git(GitReport::Failed)).0
            == Phase::TrackingRemote,
{
}

/// A deploy of one target, from the fetch to the cleanup of old releases.
pub struct Deploy {
    target: RefTarget,
    has_shared: bool,
    keep: usize,
    phase: Phase,
}

impl Deploy {
    /// Releases are only listed for a cleanup that keeps at least one.
    #[verifier::type_invariant]
    closed spec fn listing_keeps_some(&self) -> bool {
        self.phase == Phase::Listing ==> self.keep >= 1
    }

    /// The target being deployed.
    pub closed spec fn spec_target(&self) -> RefTarget {
        self.target
    }

    /// Whether `--shared` paths were given.
    pub closed spec fn spec_has_shared(&self) -> bool {
        self.has_shared
    }

    /// The number of releases a cleanup keeps.
    pub closed spec fn spec_keep(&self) -> nat {
        self.keep as nat
    }

    /// Where the deploy stands.
    pub closed spec fn spec_phase(&self) -> Phase {
        self.phase
    }

    /// Starts a deploy of `target`: the first action is
    /// `git fetch --all --prune`.
    pub fn new(target: RefTarget, has_shared: bool, keep: usize) -> (res: (Deploy, Action))
        ensures
            res.0.spec_target() == target,
            res.0.spec_has_shared() == has_shared,
            res.0.spec_keep() == keep,
            res.0.spec_phase() == Phase::Fetching,
            res.1@ == ActionView::RunGit(fetch_args()),
    {
        let args = vec![
            String::from_str("fetch"),
            String::from_str("--all"),
            String::from_str("--prune"),
        ];
        assert(args@.map_values(|a: String| a@) =~= fetch_args());
        (Deploy { target, has_shared, keep, phase: Phase::Fetching }, Action::RunGit(args))
    }

    /// The target being deployed.
    pub fn target(&self) -> (t: &RefTarget)
        ensures
            *t == self.spec_target(),
    {
        &self.target
    }

    /// Where the deploy stands.
    pub fn phase(&self) -> (p: Phase)
        ensures
            p == self.spec_phase(),
    {
        self.phase
    }

    fn git_args_show_ref(prefix: &str, name: &str) -> (args: Vec<String>)
        ensures
            args@.map_values(|a: String| a@) == show_ref_args(prefix@ + name@),
    {
        let args = vec![
            String::from_str("show-ref"),
            String::from_str("--verify"),
            String::from_str("--quiet"),
            String::from_str(prefix).concat(name),
        ];
        assert(args@.map_values(|a: String| a@) =~= show_ref_args(prefix@ + name@));
        args
    }

    /// The end of a checkout: on success the clock is read for the name of
    /// the release, else the step's error.
    fn after_checkout(report: GitReport, step: GitStep) -> (res: (Phase, Action))
        ensures
            report != GitReport::Succeeded ==> res.0 == Phase::Failed && res.1@ == git_failure(
                step,
                report,
            ),
            report == GitReport::Succeeded ==> res.0 == Phase::ReadingClock && res.1@
                == ActionView::ReadClock,
    {
        match report {
            GitReport::Succeeded => (Phase::ReadingClock, Action::ReadClock),
            GitReport::NotStarted => (Phase::Failed, Action::Fail(DeployError::GitNotStarted(step))),
            GitReport::Failed => (Phase::Failed, Action::Fail(DeployError::GitFailed(step))),
        }
    }

    /// The release for a clock reading.
    fn after_clock(clock: Option<u64>) -> (res: (Phase, Action))
        ensures
            (res.0, res.1@) == transition_after_clock(
                match clock {
                    Some(secs) => Some(secs as nat),
                    None => None,
                },
            ),
            res.1 matches Action::CreateRelease(name) ==> is_release_timestamp(name@)
                && is_normal_segment(name@) && has_no_separator(name@),
    {
        match clock {
            None => (Phase::Failed, Action::Fail(DeployError::ClockBeforeEpoch)),
            Some(secs) => match release_name_at(secs) {
                Some(name) => (Phase::CreatingRelease, Action::CreateRelease(name)),
                None => (Phase::Failed, Action::Fail(DeployError::ClockOutOfRange)),
            },
        }
    }

    /// The start of the cleanup.
    fn start_cleanup(keep: usize) -> (res: (Phase, Action))
        ensures
            (res.0, res.1@) == cleanup_start(keep as nat),
    {
        if keep == 0 {
            (Phase::Failed, Action::Fail(DeployError::KeepZero))
        } else {
            (Phase::Listing, Action::ListReleases)
        }
    }

    /// Takes the event that answers the last action and gives the next
    /// action, as `transition` says. A new release is named after the clock
    /// reading, in the shape `is_release_timestamp` gives, which is one
    /// plain path segment.
    pub fn step(&mut self, event: Event) -> (action: Action)
        ensures
            final(self).spec_target() == old(self).spec_target(),
            final(self).spec_has_shared() == old(self).spec_has_shared(),
            final(self).spec_keep() == old(self).spec_keep(),
            (final(self).spec_phase(), action@) == transition(
                old(self).spec_target(),
                old(self).spec_has_shared(),
                old(self).spec_keep(),
                old(self).spec_phase(),
                event@,
            ),
            match action {
                Action::CreateRelease(name) => is_release_timestamp(name@) && is_normal_segment(
                    name@,
                ) && has_no_separator(name@),
                _ => true,
            },
    {
        proof {
            use_type_invariant(&*self);
        }
        let report = match &event {
            Event::Git(GitOutcome::NotStarted) => GitReport::NotStarted,
            Event::Git(GitOutcome::Finished { success, stdout: _ }) => if *success {
                GitReport::Succeeded
            } else {
                GitReport::Failed
            },
            _ => GitReport::Failed,
        };
        let is_git = match &event {
            Event::Git(_) => true,
            _ => false,
        };
        let is_done = match &event {
            Event::Done => true,
            _ => false,
        };
        let name: &str = match &self.target {
            RefTarget::Branch(b) => b.as_str(),
            RefTarget::Tag(t) => t.as_str(),
        };
        let is_branch = match &self.target {
            RefTarget::Branch(_) => true,
            RefTarget::Tag(_) => false,
        };
        let (phase, action) = match self.phase {
            Phase::Fetching if is_git => {
                match report {
                    GitReport::Succeeded => if is_branch {
                        (Phase::VerifyingRemote, Action::RunGit(Self::git_args_show_ref("refs/remotes/origin/", name)))
                    } else {
                        (Phase::VerifyingTag, Action::RunGit(Self::git_args_show_ref("refs/tags/", name)))
                    },
                    GitReport::NotStarted => (Phase::Failed, Action::Fail(DeployError::GitNotStarted(GitStep::Fetch))),
                    GitReport::Failed => (Phase::Failed, Action::Fail(DeployError::GitFailed(GitStep::Fetch))),
                }
            },
            Phase::VerifyingRemote if is_git => {
                match report {
                    GitReport::NotStarted => (Phase::Failed, Action::Fail(DeployError::RemoteCheckNotStarted)),
                    GitReport::Failed => (Phase::Failed, Action::Fail(DeployError::RemoteBranchMissing)),
                    GitReport::Succeeded => (Phase::VerifyingLocal, Action::RunGit(Self::git_args_show_ref("refs/heads/", name))),
                }
            },
            Phase::VerifyingLocal if is_git => {
                match report {
                    GitReport::NotStarted => (Phase::Failed, Action::Fail(DeployError::LocalCheckNotStarted)),
                    GitReport::Succeeded => {
                        let args = vec![String::from_str("checkout"), String::from_str(name)];
                        assert(args@.map_values(|a: String| a@) =~= checkout_args(name@));
                        (Phase::CheckingOutLocal, Action::RunGit(args))
                    },
                    GitReport::Failed => {
                        let args = vec![
                            String::from_str("checkout"),
                            String::from_str("-B"),
                            String::from_str(name),
                            String::from_str("--track"),
                            String::from_str("origin/").concat(name),
                        ];
                        assert(args@.map_values(|a: String| a@) =~= track_args(name@));
                        (Phase::TrackingRemote, Action::RunGit(args))
                    },
                }
            },
            Phase::CheckingOutLocal if is_git => {
                match report {
                    GitReport::Succeeded => {
                        let args = vec![
                            String::from_str("reset"),
                            String::from_str("--hard"),
                            String::from_str("origin/").concat(name),
                        ];
                        assert(args@.map_values(|a: String| a@) =~= reset_args(name@));
                        (Phase::ResettingLocal, Action::RunGit(args))
                    },
                    GitReport::NotStarted => (Phase::Failed, Action::Fail(DeployError::GitNotStarted(GitStep::CheckoutLocal))),
                    GitReport::Failed => (Phase::Failed, Action::Fail(DeployError::GitFailed(GitStep::CheckoutLocal))),
                }
            },
            Phase::ResettingLocal if is_git => Self::after_checkout(report, GitStep::ResetLocal),
            Phase::TrackingRemote if is_git => Self::after_checkout(report, GitStep::TrackRemote),
            Phase::DetachingTag if is_git => Self::after_checkout(report, GitStep::CheckoutTag),
            Phase::VerifyingTag if is_git => {
                match report {
                    GitReport::NotStarted => (Phase::Failed, Action::Fail(DeployError::TagCheckNotStarted)),
                    GitReport::Failed => (Phase::Failed, Action::Fail(DeployError::TagMissing)),
                    GitReport::Succeeded => {
                        let args = vec![
                            String::from_str("checkout"),
                            String::from_str("--detach"),
                            String::from_str(name),
                        ];
                        assert(args@.map_values(|a: String| a@) =~= detach_args(name@));
                        (Phase::DetachingTag, Action::RunGit(args))
                    },
                }
            },
            Phase::ReadingClock => {
                match event {
                    Event::Clock(c) => Self::after_clock(c),
                    _ => (Phase::Failed, Action::Fail(DeployError::UnexpectedEvent)),
                }
            },
            Phase::CreatingRelease if is_done => (Phase::Copying, Action::CopyRepo),
            Phase::Copying if is_done => (Phase::Switching, Action::SwitchCurrent),
            Phase::Switching if is_done && self.has_shared => (Phase::Linking, Action::ApplySharedLinks),
            Phase::Switching if is_done => Self::start_cleanup(self.keep),
            Phase::Linking if is_done => Self::start_cleanup(self.keep),
            Phase::Listing => {
                match event {
                    Event::Listed(names) => {
                        let removed = cleanup_old_releases(&names, self.keep).unwrap();
                        proof {
                            let v = name_views(names@);
                            let order = choose|order: Seq<usize>| is_release_order(v, order)
                                && removed@ == order.take(removal_count(names@.len(), self.keep as nat) as int);
                            let chosen = choose|order: Seq<usize>| is_release_order(v, order);
                            lemma_release_order_unique(v, order, chosen);
                            assert(v.len() == names@.len());
                        }
                        (Phase::Removing, Action::RemoveReleases(removed))
                    },
                    _ => (Phase::Failed, Action::Fail(DeployError::UnexpectedEvent)),
                }
            },
            Phase::Removing if is_done => (Phase::Finished, Action::Finish),
            Phase::Finished => (Phase::Finished, Action::Finish),
            _ => (Phase::Failed, Action::Fail(DeployError::UnexpectedEvent)),
        };
        self.phase = phase;
        action
    }
}

/// A deploy that has stopped stays stopped: after a failure every event
/// is refused, and after the last step every event finds it finished.
pub proof fn lemma_stopped_deploy_stays(
    target: RefTarget,
    has_shared: bool,
    keep: nat,
    event: EventView,
)
    ensures
        transition(target, has_shared, keep, Phase::Failed, event) == (
            Phase::Failed,
            ActionView::Fail(DeployError::UnexpectedEvent),
        ),
        transition(target, has_shared, keep, Phase::Finished, event) == (
            Phase::Finished,
            ActionView::Finish,
        ),
{
}

/// The clock is read only right after the checkout of the target
/// succeeded (the reset of an existing local branch, the creation of a
/// tracking branch, or the detached checkout of a tag), and a release is
/// created only from a clock reading, under the name chrono gives for it.
pub proof fn lemma_release_follows_checkout(
    target: RefTarget,
    has_shared: bool,
    keep: nat,
    phase: Phase,
    event: EventView,
)
    ensures
        transition(target, has_shared, keep, phase, event).1 is ReadClock ==> (phase
            == Phase::ResettingLocal || phase == Phase::TrackingRemote || phase
            == Phase::DetachingTag) && event == EventView::Git(GitReport::Succeeded),
        transition(target, has_shared, keep, phase, event).1 matches ActionView::CreateRelease(
            name,
        ) ==> phase == Phase::ReadingClock && exists|secs: nat|
            event == EventView::Clock(Some(secs)) && release_name_of(secs) == Some(name),
{
}

/// Every `git` command after the fetch answers a command that ran: a
/// command that could not be started always stops the deploy, and a
/// failed command stops it except for the local branch check, whose
/// failure leads to a tracking checkout.
pub proof fn lemma_git_commands_follow_success(
    target: RefTarget,
    has_shared: bool,
    keep: nat,
    phase: Phase,
    event: EventView,
)
    requires
        transition(target, has_shared, keep, phase, event).1 is RunGit,
    ensures
        event == EventView::Git(GitReport::Succeeded) || (phase == Phase::VerifyingLocal && event
            == EventView::Git(GitReport::Failed)),
{
}

/// With `--keep 0` the releases are never listed, let alone removed: the
/// cleanup stops the deploy with `KeepZero` as soon as it is reached.
pub proof fn lemma_keep_zero_never_lists(
    target: RefTarget,
    has_shared: bool,
    phase: Phase,
    event: EventView,
)
    ensures
        !(transition(target, has_shared, 0, phase, event).1 is ListReleases),
        !(transition(target, has_shared, 0, phase, event).1 is RemoveReleases) || phase
            == Phase::Listing,
        transition(target, has_shared, 0, Phase::Linking, EventView::Done) == (
            Phase::Failed,
            ActionView::Fail(DeployError::KeepZero),
        ),
{
}

/// The phase a deploy reaches and the actions it gives when it takes a
/// sequence of events, one after the other, from `phase`.
pub open spec fn run(
    target: RefTarget,
    has_shared: bool,
    keep: nat,
    phase: Phase,
    events: Seq<EventView>,
) -> (Phase, Seq<ActionView>)
    decreases events.len(),
{
    if events.len() == 0 {
        (phase, Seq::empty())
    } else {
        let (next, action) = transition(target, has_shared, keep, phase, events[0]);
        let (last, rest) = run(target, has_shared, keep, next, events.drop_first());
        (last, seq![action] + rest)
    }
}

/// The events of a deploy in which every command and step succeeds;
/// `local_exists` says whether the local branch check succeeds, and the
/// clock reads `secs`.
pub open spec fn successful_events(
    is_branch: bool,
    local_exists: bool,
    has_shared: bool,
    secs: nat,
    names: Seq<Seq<char>>,
) -> Seq<EventView> {
    let git_ok = EventView::Git(GitReport::Succeeded);
    let checkout = if !is_branch {
        seq![git_ok, git_ok, git_ok]
    } else if local_exists {
        seq![git_ok, git_ok, git_ok, git_ok, git_ok]
    } else {
        seq![git_ok, git_ok, EventView::Git(GitReport::Failed), git_ok]
    };
    let steps = seq![EventView::Done, EventView::Done, EventView::Done];
    let linking = if has_shared {
        seq![EventView::Done]
    } else {
        Seq::empty()
    };
    checkout + seq![EventView::Clock(Some(secs))] + steps + linking + seq![
        EventView::Listed(names),
        EventView::Done,
    ]
}

/// The actions of a successful deploy after the checkout: read the
/// clock, create the release named `name`, copy the tree, switch
/// `current`, link the shared paths when there are any, list the
/// releases, remove the old ones, finish.
pub open spec fn release_actions(
    has_shared: bool,
    keep: nat,
    name: Seq<char>,
    names: Seq<Seq<char>>,
) -> Seq<ActionView> {
    let linking = if has_shared {
        seq![ActionView::ApplySharedLinks]
    } else {
        Seq::empty()
    };
    seq![
        ActionView::ReadClock,
        ActionView::CreateRelease(name),
        ActionView::CopyRepo,
        ActionView::SwitchCurrent,
    ] + linking
        + seq![
        ActionView::ListReleases,
        ActionView::RemoveReleases(releases_to_remove(names, keep)),
        ActionView::Finish,
    ]
}

/// The git commands of a successful checkout, after the fetch.
pub open spec fn checkout_commands(target: RefTarget, local_exists: bool) -> Seq<ActionView> {
    let name = target_name(target);
    match target {
        RefTarget::Branch(_) => if local_exists {
            seq![
                ActionView::RunGit(show_ref_args("refs/remotes/origin/"@ + name)),
                ActionView::RunGit(show_ref_args("refs/heads/"@ + name)),
                ActionView::RunGit(checkout_args(name)),
                ActionView::RunGit(reset_args(name)),
            ]
        } else {
            seq![
                ActionView::RunGit(show_ref_args("refs/remotes/origin/"@ + name)),
                ActionView::RunGit(show_ref_args("refs/heads/"@ + name)),
                ActionView::RunGit(track_args(name)),
            ]
        },
        RefTarget::Tag(_) => seq![
            ActionView::RunGit(show_ref_args("refs/tags/"@ + name)),
            ActionView::RunGit(detach_args(name)),
        ],
    }
}

proof fn lemma_run_prepend(
    target: RefTarget,
    has_shared: bool,
    keep: nat,
    phase: Phase,
    event: EventView,
    events: Seq<EventView>,
)
    ensures
        run(target, has_shared, keep, phase, seq![event] + events) == ({
            let (next, action) = transition(target, has_shared, keep, phase, event);
            let (last, rest) = run(target, has_shared, keep, next, events);
            (last, seq![action] + rest)
        }),
{
    assert((seq![event] + events).drop_first() =~= events);
}

/// The course of a deploy in which everything succeeds, for every target,
/// every listing of releases and every `keep` of at least 1: after the
/// fetch, the target is verified and checked out (a branch through its
/// remote ref, then either a reset of the existing local branch or a new
/// tracking branch; a tag detached), and then the release is created,
/// filled, made current, given its shared links when there are any, and
/// the old releases are removed. The deploy ends finished.
pub proof fn lemma_successful_deploy_course(
    target: RefTarget,
    local_exists: bool,
    has_shared: bool,
    keep: nat,
    secs: nat,
    names: Seq<Seq<char>>,
)
    requires
        keep >= 1,
        release_name_of(secs) is Some,
    ensures
        run(
            target,
            has_shared,
            keep,
            Phase::Fetching,
            successful_events(target is Branch, local_exists, has_shared, secs, names),
        ) == (Phase::Finished, checkout_commands(target, local_exists) + release_actions(
            has_shared,
            keep,
            release_name_of(secs)->Some_0,
            names,
        )),
{
    let git_ok = EventView::Git(GitReport::Succeeded);
    let listing = seq![EventView::Listed(names), EventView::Done];
    let linking = if has_shared {
        seq![EventView::Done]
    } else {
        Seq::<EventView>::empty()
    };
    let tail_events = seq![EventView::Done, EventView::Done, EventView::Done] + linking + listing;
    // From the new release to the end.
    let after_switch = linking + listing;
    lemma_run_prepend(target, has_shared, keep, Phase::Removing, EventView::Done, Seq::empty());
    lemma_run_prepend(target, has_shared, keep, Phase::Listing, EventView::Listed(names), seq![EventView::Done]);
    assert(listing =~= seq![EventView::Listed(names)] + seq![EventView::Done]);
    if has_shared {
        assert(after_switch =~= seq![EventView::Done] + listing);
        lemma_run_prepend(target, has_shared, keep, Phase::Linking, EventView::Done, listing);
        lemma_run_prepend(target, has_shared, keep, Phase::Switching, EventView::Done, listing);
    } else {
        assert(after_switch =~= listing);
    }
    assert(seq![EventView::Done] + after_switch =~= seq![EventView::Done] + linking + listing);
    lemma_run_prepend(target, has_shared, keep, Phase::Switching, EventView::Done, after_switch);
    lemma_run_prepend(target, has_shared, keep, Phase::Copying, EventView::Done, seq![EventView::Done] + after_switch);
    lemma_run_prepend(target, has_shared, keep, Phase::CreatingRelease, EventView::Done, seq![EventView::Done, EventView::Done] + after_switch);
    assert(seq![EventView::Done] + (seq![EventView::Done] + after_switch) =~= seq![EventView::Done, EventView::Done] + after_switch);
    assert(seq![EventView::Done] + (seq![EventView::Done, EventView::Done] + after_switch) =~= tail_events);
    let tail = run(target, has_shared, keep, Phase::CreatingRelease, tail_events);
    assert(tail.0 == Phase::Finished);
    let name = release_name_of(secs)->Some_0;
    let rest = release_actions(has_shared, keep, name, names);
    assert(tail.1 =~= rest.drop_first().drop_first());
    let clock = EventView::Clock(Some(secs));
    let clock_tail = seq![clock] + tail_events;
    lemma_run_prepend(target, has_shared, keep, Phase::ReadingClock, clock, tail_events);
    assert(run(target, has_shared, keep, Phase::ReadingClock, clock_tail).1 =~= rest.drop_first());
    let events = successful_events(target is Branch, local_exists, has_shared, secs, names);
    match target {
        RefTarget::Branch(_) => {
            if local_exists {
                let e = seq![git_ok, git_ok, git_ok, git_ok, git_ok] + clock_tail;
                assert(events =~= e);
                lemma_run_prepend(target, has_shared, keep, Phase::ResettingLocal, git_ok, clock_tail);
                lemma_run_prepend(target, has_shared, keep, Phase::CheckingOutLocal, git_ok, seq![git_ok] + clock_tail);
                lemma_run_prepend(target, has_shared, keep, Phase::VerifyingLocal, git_ok, seq![git_ok, git_ok] + clock_tail);
                lemma_run_prepend(target, has_shared, keep, Phase::VerifyingRemote, git_ok, seq![git_ok, git_ok, git_ok] + clock_tail);
                lemma_run_prepend(target, has_shared, keep, Phase::Fetching, git_ok, seq![git_ok, git_ok, git_ok, git_ok] + clock_tail);
                assert(seq![git_ok] + (seq![git_ok] + clock_tail) =~= seq![git_ok, git_ok] + clock_tail);
                assert(seq![git_ok] + (seq![git_ok, git_ok] + clock_tail) =~= seq![git_ok, git_ok, git_ok] + clock_tail);
                assert(seq![git_ok] + (seq![git_ok, git_ok, git_ok] + clock_tail) =~= seq![git_ok, git_ok, git_ok, git_ok] + clock_tail);
                assert(seq![git_ok] + (seq![git_ok, git_ok, git_ok, git_ok] + clock_tail) =~= e);
                assert(run(target, has_shared, keep, Phase::Fetching, events).1 =~= checkout_commands(target, local_exists) + rest);
            } else {
                let failed = EventView::Git(GitReport::Failed);
                let e = seq![git_ok, git_ok, failed, git_ok] + clock_tail;
                assert(events =~= e);
                lemma_run_prepend(target, has_shared, keep, Phase::TrackingRemote, git_ok, clock_tail);
                lemma_run_prepend(target, has_shared, keep, Phase::VerifyingLocal, failed, seq![git_ok] + clock_tail);
                lemma_run_prepend(target, has_shared, keep, Phase::VerifyingRemote, git_ok, seq![failed, git_ok] + clock_tail);
                lemma_run_prepend(target, has_shared, keep, Phase::Fetching, git_ok, seq![git_ok, failed, git_ok] + clock_tail);
                assert(seq![failed] + (seq![git_ok] + clock_tail) =~= seq![failed, git_ok] + clock_tail);
                assert(seq![git_ok] + (seq![failed, git_ok] + clock_tail) =~= seq![git_ok, failed, git_ok] + clock_tail);
                assert(seq![git_ok] + (seq![git_ok, failed, git_ok] + clock_tail) =~= e);
                assert(run(target, has_shared, keep, Phase::Fetching, events).1 =~= checkout_commands(target, local_exists) + rest);
            }
        },
        RefTarget::Tag(_) => {
            let e = seq![git_ok, git_ok, git_ok] + clock_tail;
            assert(events =~= e);
            lemma_run_prepend(target, has_shared, keep, Phase::DetachingTag, git_ok, clock_tail);
            lemma_run_prepend(target, has_shared, keep, Phase::VerifyingTag, git_ok, seq![git_ok] + clock_tail);
            lemma_run_prepend(target, has_shared, keep, Phase::Fetching, git_ok, seq![git_ok, git_ok] + clock_tail);
            assert(seq![git_ok] + (seq![git_ok] + clock_tail) =~= seq![git_ok, git_ok] + clock_tail);
            assert(seq![git_ok] + (seq![git_ok, git_ok] + clock_tail) =~= e);
            assert(run(target, has_shared, keep, Phase::Fetching, events).1 =~= checkout_commands(target, local_exists) + rest);
        },
    }
}

}
