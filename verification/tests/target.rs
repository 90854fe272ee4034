use git_trano::target::{select_mode, Mode, ModeError, RefTarget};

#[test]
fn describe_names_branch_and_tag() {
    assert_eq!(RefTarget::Branch("main".to_string()).describe(), "branch:main");
    assert_eq!(RefTarget::Tag("v1.2.3".to_string()).describe(), "tag:v1.2.3");
}

#[test]
fn mode_requires_an_action() {
    assert_eq!(select_mode(None, None, false).unwrap_err(), ModeError::NoAction);
    assert_eq!(
        ModeError::NoAction.message(),
        "Debes indicar una acción: --branch, --tag o --revert"
    );
}

#[test]
fn mode_revert() {
    assert!(matches!(select_mode(None, None, true), Ok(Mode::Revert)));
}

#[test]
fn mode_branch_or_tag() {
    match select_mode(Some("main".to_string()), None, false) {
        Ok(Mode::Deploy(RefTarget::Branch(b))) => assert_eq!(b, "main"),
        other => panic!("unexpected {other:?}"),
    }
    match select_mode(None, Some("v1".to_string()), false) {
        Ok(Mode::Deploy(RefTarget::Tag(t))) => assert_eq!(t, "v1"),
        other => panic!("unexpected {other:?}"),
    }
}

#[test]
fn mode_refuses_branch_and_tag() {
    assert_eq!(
        select_mode(Some("a".to_string()), Some("b".to_string()), false).unwrap_err(),
        ModeError::BranchAndTag
    );
    assert_eq!(
        ModeError::BranchAndTag.message(),
        "Debes usar exactamente una de estas opciones: --branch o --tag"
    );
}
