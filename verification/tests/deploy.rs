use git_trano::deploy::{release_name_at, Action, Deploy, DeployError, Event, GitStep, Phase};
use git_trano::releases::list_release_dirs_sorted;
use git_trano::git::GitOutcome;
use git_trano::target::RefTarget;

fn ok() -> Event {
    Event::Git(GitOutcome::Finished { success: true, stdout: Vec::new() })
}

fn failed() -> Event {
    Event::Git(GitOutcome::Finished { success: false, stdout: Vec::new() })
}

fn strings(list: &[&str]) -> Vec<String> {
    list.iter().map(|s| s.to_string()).collect()
}

fn expect_git(action: Action, args: &[&str]) {
    match action {
        Action::RunGit(a) => assert_eq!(a, strings(args)),
        other => panic!("expected git {args:?}, got {other:?}"),
    }
}

fn expect_release(action: Action) -> String {
    match action {
        Action::CreateRelease(name) => name,
        other => panic!("expected a release, got {other:?}"),
    }
}

fn is_timestamp_name(name: &str) -> bool {
    let b = name.as_bytes();
    if b.len() != 20 {
        return false;
    }
    let digits = [0, 1, 2, 3, 5, 6, 8, 9, 11, 12, 14, 15, 17, 18];
    digits.iter().all(|&i| b[i].is_ascii_digit())
        && b[4] == b'-'
        && b[7] == b'-'
        && b[10] == b'T'
        && b[13] == b'-'
        && b[16] == b'-'
        && b[19] == b'Z'
}

fn finish_after_checkout(mut d: Deploy, has_shared: bool) {
    assert!(matches!(d.step(ok()), Action::ReadClock));
    let name = expect_release(d.step(Event::Clock(Some(1767268800))));
    assert_eq!(name, "2026-01-01T12-00-00Z");
    assert!(is_timestamp_name(&name), "{name}");
    assert!(matches!(d.step(Event::Done), Action::CopyRepo));
    assert!(matches!(d.step(Event::Done), Action::SwitchCurrent));
    if has_shared {
        assert!(matches!(d.step(Event::Done), Action::ApplySharedLinks));
    }
    assert!(matches!(d.step(Event::Done), Action::ListReleases));
    let listed = strings(&["2026-01-01T10-00-00Z", "2026-01-03T10-00-00Z", "2026-01-02T10-00-00Z", "2025-12-31T10-00-00Z"]);
    match d.step(Event::Listed(listed)) {
        Action::RemoveReleases(r) => assert_eq!(r, vec![3]),
        other => panic!("unexpected {other:?}"),
    }
    assert!(matches!(d.step(Event::Done), Action::Finish));
    assert_eq!(d.phase(), Phase::Finished);
    assert!(matches!(d.step(Event::Done), Action::Finish));
}

#[test]
fn deploy_existing_local_branch() {
    let (mut d, first) = Deploy::new(RefTarget::Branch("main".to_string()), true, 3);
    expect_git(first, &["fetch", "--all", "--prune"]);
    expect_git(d.step(ok()), &["show-ref", "--verify", "--quiet", "refs/remotes/origin/main"]);
    expect_git(d.step(ok()), &["show-ref", "--verify", "--quiet", "refs/heads/main"]);
    expect_git(d.step(ok()), &["checkout", "main"]);
    expect_git(d.step(ok()), &["reset", "--hard", "origin/main"]);
    finish_after_checkout(d, true);
}

#[test]
fn deploy_new_local_branch_tracks_remote() {
    let (mut d, _) = Deploy::new(RefTarget::Branch("dev".to_string()), false, 3);
    expect_git(d.step(ok()), &["show-ref", "--verify", "--quiet", "refs/remotes/origin/dev"]);
    expect_git(d.step(ok()), &["show-ref", "--verify", "--quiet", "refs/heads/dev"]);
    expect_git(d.step(failed()), &["checkout", "-B", "dev", "--track", "origin/dev"]);
    finish_after_checkout(d, false);
}

#[test]
fn deploy_tag_detached() {
    let (mut d, _) = Deploy::new(RefTarget::Tag("v1.2.3".to_string()), false, 3);
    expect_git(d.step(ok()), &["show-ref", "--verify", "--quiet", "refs/tags/v1.2.3"]);
    expect_git(d.step(ok()), &["checkout", "--detach", "v1.2.3"]);
    finish_after_checkout(d, false);
}

fn expect_fail(action: Action, error: DeployError) {
    match action {
        Action::Fail(e) => assert_eq!(e, error),
        other => panic!("expected failure {error:?}, got {other:?}"),
    }
}

#[test]
fn deploy_fails_on_fetch() {
    let (mut d, _) = Deploy::new(RefTarget::Branch("main".to_string()), false, 3);
    expect_fail(d.step(failed()), DeployError::GitFailed(GitStep::Fetch));
    assert_eq!(d.phase(), Phase::Failed);
    expect_fail(d.step(ok()), DeployError::UnexpectedEvent);
    let (mut d, _) = Deploy::new(RefTarget::Branch("main".to_string()), false, 3);
    expect_fail(d.step(Event::Git(GitOutcome::NotStarted)), DeployError::GitNotStarted(GitStep::Fetch));
}

#[test]
fn deploy_fails_on_missing_remote_branch() {
    let target = RefTarget::Branch("feature".to_string());
    let (mut d, _) = Deploy::new(target, false, 3);
    d.step(ok());
    expect_fail(d.step(failed()), DeployError::RemoteBranchMissing);
    assert_eq!(
        DeployError::RemoteBranchMissing.message(d.target()),
        "La rama remota origin/feature no existe"
    );
}

#[test]
fn deploy_fails_on_missing_tag() {
    let (mut d, _) = Deploy::new(RefTarget::Tag("v9".to_string()), false, 3);
    d.step(ok());
    expect_fail(d.step(failed()), DeployError::TagMissing);
    assert_eq!(
        DeployError::TagMissing.message(d.target()),
        "La tag 'v9' no existe en este repositorio"
    );
}

#[test]
fn deploy_fails_on_checkout_and_reset() {
    let (mut d, _) = Deploy::new(RefTarget::Branch("main".to_string()), false, 3);
    d.step(ok());
    d.step(ok());
    d.step(ok());
    expect_fail(d.step(failed()), DeployError::GitFailed(GitStep::CheckoutLocal));

    let (mut d, _) = Deploy::new(RefTarget::Branch("main".to_string()), false, 3);
    d.step(ok());
    d.step(ok());
    d.step(ok());
    d.step(ok());
    expect_fail(d.step(Event::Git(GitOutcome::NotStarted)), DeployError::GitNotStarted(GitStep::ResetLocal));
}

#[test]
fn deploy_check_not_started() {
    let (mut d, _) = Deploy::new(RefTarget::Branch("main".to_string()), false, 3);
    d.step(ok());
    expect_fail(d.step(Event::Git(GitOutcome::NotStarted)), DeployError::RemoteCheckNotStarted);
    let (mut d, _) = Deploy::new(RefTarget::Branch("main".to_string()), false, 3);
    d.step(ok());
    d.step(ok());
    expect_fail(d.step(Event::Git(GitOutcome::NotStarted)), DeployError::LocalCheckNotStarted);
    let (mut d, _) = Deploy::new(RefTarget::Tag("t".to_string()), false, 3);
    d.step(ok());
    expect_fail(d.step(Event::Git(GitOutcome::NotStarted)), DeployError::TagCheckNotStarted);
}

#[test]
fn deploy_with_keep_zero_fails_at_cleanup() {
    let (mut d, _) = Deploy::new(RefTarget::Tag("v1".to_string()), true, 0);
    d.step(ok());
    d.step(ok());
    assert!(matches!(d.step(ok()), Action::ReadClock));
    expect_release(d.step(Event::Clock(Some(0))));
    assert!(matches!(d.step(Event::Done), Action::CopyRepo));
    assert!(matches!(d.step(Event::Done), Action::SwitchCurrent));
    assert!(matches!(d.step(Event::Done), Action::ApplySharedLinks));
    expect_fail(d.step(Event::Done), DeployError::KeepZero);
    assert_eq!(DeployError::KeepZero.message(d.target()), "--keep debe ser >= 1");
}

#[test]
fn deploy_refuses_unexpected_events() {
    let (mut d, _) = Deploy::new(RefTarget::Branch("main".to_string()), false, 3);
    expect_fail(d.step(Event::Done), DeployError::UnexpectedEvent);
}

#[test]
fn deploy_git_messages() {
    let t = RefTarget::Branch("main".to_string());
    assert_eq!(
        DeployError::GitNotStarted(GitStep::Fetch).message(&t),
        "No se pudo ejecutar git fetch: fallo al invocar git"
    );
    assert_eq!(
        DeployError::GitFailed(GitStep::TrackRemote).message(&t),
        "No se pudo crear/trakear la rama local desde origin"
    );
    assert_eq!(DeployError::GitFailed(GitStep::CheckoutTag).message(&t), "No se pudo hacer checkout de la tag");
    assert_eq!(DeployError::LocalCheckNotStarted.message(&t), "No se pudo verificar rama local");
}

#[test]
fn release_names_from_the_clock() {
    assert_eq!(release_name_at(0).unwrap(), "1970-01-01T00-00-00Z");
    assert_eq!(release_name_at(951782400).unwrap(), "2000-02-29T00-00-00Z");
    assert_eq!(release_name_at(1767268805).unwrap(), "2026-01-01T12-00-05Z");
    assert_eq!(release_name_at(253402300799).unwrap(), "9999-12-31T23-59-59Z");
    assert_eq!(release_name_at(253402300800).unwrap(), "+10000-01-01T00-00-00Z");
    assert_eq!(release_name_at(u64::MAX), None);
    assert!(release_name_at(1u64 << 45).is_none());
}

#[test]
fn deploy_fails_on_clock() {
    let (mut d, _) = Deploy::new(RefTarget::Tag("v1".to_string()), false, 3);
    d.step(ok());
    d.step(ok());
    assert!(matches!(d.step(ok()), Action::ReadClock));
    expect_fail(d.step(Event::Clock(None)), DeployError::ClockBeforeEpoch);
    let (mut d, _) = Deploy::new(RefTarget::Tag("v1".to_string()), false, 3);
    d.step(ok());
    d.step(ok());
    d.step(ok());
    expect_fail(d.step(Event::Clock(Some(u64::MAX))), DeployError::ClockOutOfRange);
    let t = RefTarget::Tag("v1".to_string());
    assert_eq!(
        DeployError::ClockBeforeEpoch.message(&t),
        "El reloj del sistema marca una fecha anterior a 1970"
    );
    assert_eq!(
        DeployError::ClockOutOfRange.message(&t),
        "El reloj del sistema marca una fecha fuera de rango"
    );
}

#[test]
fn later_releases_sort_later() {
    let times: [u64; 12] = [
        0,
        59,
        60,
        3599,
        3600,
        86399,
        86400,
        951782399,
        951782400,
        1798761599,
        1798761600,
        253402300799,
    ];
    let names: Vec<String> = times.iter().map(|t| release_name_at(*t).unwrap()).collect();
    assert_eq!(names[9], "2026-12-31T23-59-59Z");
    assert_eq!(names[10], "2027-01-01T00-00-00Z");
    for i in 1..names.len() {
        assert!(names[i - 1].as_bytes() < names[i].as_bytes(), "{} !< {}", names[i - 1], names[i]);
    }
}

#[test]
fn releases_are_listed_in_the_order_they_were_made() {
    let times: [u64; 4] = [1798761600, 0, 951782400, 1798761599];
    let names: Vec<String> = times.iter().map(|t| release_name_at(*t).unwrap()).collect();
    assert_eq!(list_release_dirs_sorted(&names), vec![1, 2, 3, 0]);
}
