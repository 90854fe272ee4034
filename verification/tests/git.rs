use git_trano::git::{ensure_git_repo, git_stdout, work_tree_answer, work_tree_query, GitOutcome, GitRepoError, GitStdoutError};

fn finished(success: bool, out: &[u8]) -> GitOutcome {
    GitOutcome::Finished { success, stdout: out.to_vec() }
}

#[test]
fn work_tree_detected() {
    assert_eq!(ensure_git_repo(&finished(true, b"true\n")), Ok(()));
    assert_eq!(ensure_git_repo(&finished(true, b"  true \r\n")), Ok(()));
}

#[test]
fn work_tree_refusals() {
    assert_eq!(ensure_git_repo(&GitOutcome::NotStarted), Err(GitRepoError::NotStarted));
    assert_eq!(ensure_git_repo(&finished(false, b"true\n")), Err(GitRepoError::NotARepository));
    assert_eq!(ensure_git_repo(&finished(true, b"false\n")), Err(GitRepoError::NotAWorkTree));
    assert_eq!(ensure_git_repo(&finished(true, b"")), Err(GitRepoError::NotAWorkTree));
    assert_eq!(ensure_git_repo(&finished(true, b"tru\xffe")), Err(GitRepoError::NotAWorkTree));
}

#[test]
fn work_tree_messages() {
    assert_eq!(GitRepoError::NotStarted.message(), "No se pudo ejecutar git rev-parse");
    assert_eq!(
        GitRepoError::NotARepository.message(),
        "Este comando debe ejecutarse dentro de un repositorio git"
    );
    assert_eq!(GitRepoError::NotAWorkTree.message(), "No estás dentro de un working tree git");
}

#[test]
fn work_tree_answer_is_exact() {
    assert_eq!(work_tree_answer("true"), Ok(()));
    assert_eq!(work_tree_answer("True"), Err(GitRepoError::NotAWorkTree));
    assert_eq!(work_tree_answer("true "), Err(GitRepoError::NotAWorkTree));
    assert_eq!(work_tree_query(), vec!["rev-parse".to_string(), "--is-inside-work-tree".to_string()]);
}

#[test]
fn command_output_is_decoded_and_trimmed() {
    let args = vec!["rev-parse".to_string(), "HEAD".to_string()];
    assert_eq!(git_stdout(args.clone(), &finished(true, b"  abc123\n")).unwrap(), "abc123");
    assert_eq!(git_stdout(args.clone(), &finished(true, b"a\xffb\n")).unwrap(), "a\u{FFFD}b");
    match git_stdout(args.clone(), &finished(false, b"x")) {
        Err(GitStdoutError::Failed(a)) => assert_eq!(a, args),
        other => panic!("unexpected {other:?}"),
    }
    match git_stdout(args.clone(), &GitOutcome::NotStarted) {
        Err(GitStdoutError::NotStarted(a)) => assert_eq!(a, args),
        other => panic!("unexpected {other:?}"),
    }
}

#[test]
fn command_error_messages() {
    let args = vec!["rev-parse".to_string(), "--abbrev-ref".to_string(), "HEAD".to_string()];
    assert_eq!(
        GitStdoutError::NotStarted(args.clone()).message(),
        "No se pudo ejecutar git [\"rev-parse\", \"--abbrev-ref\", \"HEAD\"]"
    );
    assert_eq!(
        GitStdoutError::Failed(args).message(),
        "git [\"rev-parse\", \"--abbrev-ref\", \"HEAD\"] devolvió error"
    );
}

#[test]
fn trimming_matches_str_trim() {
    let args = vec!["log".to_string()];
    let samples: [&str; 6] = [
        "",
        " \t\n",
        "\u{3000}abc\u{a0}\t",
        "a b\u{2003}c",
        "\u{85}\u{2028}x\u{202f}\u{205f}",
        "\u{200b}y\u{200b}",
    ];
    for s in samples {
        let out = git_stdout(args.clone(), &finished(true, s.as_bytes())).unwrap();
        assert_eq!(out, s.trim());
    }
}
