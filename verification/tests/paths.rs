use git_trano::paths::{
    normalize_relative_path, resolve_current_target, CurrentBase, CurrentNotSymlink, PathIssue,
    SharedLinks,
};

fn ok(input: &str) -> String {
    normalize_relative_path(input).expect("path should be accepted")
}

fn issue(input: &str) -> PathIssue {
    let err = normalize_relative_path(input).expect_err("path should be refused");
    assert_eq!(err.input, input);
    err.issue
}

#[test]
fn normalize_keeps_plain_relative_paths() {
    assert_eq!(ok("node_modules"), "node_modules");
    assert_eq!(ok("vendor/subfolder"), "vendor/subfolder");
}

#[test]
fn normalize_drops_current_dir_and_empty_segments() {
    assert_eq!(ok("./vendor//subfolder/."), "vendor/subfolder");
    assert_eq!(ok("a/./b/"), "a/b");
    assert_eq!(ok("..."), "...");
    assert_eq!(ok(".hidden/..x"), ".hidden/..x");
}

#[test]
fn normalize_keeps_unicode_segments() {
    assert_eq!(ok("datos/año//ñ"), "datos/año/ñ");
}

#[test]
fn normalize_refuses_absolute_paths() {
    assert_eq!(issue("/etc/passwd"), PathIssue::Absolute);
    assert_eq!(issue("/"), PathIssue::Absolute);
    assert_eq!(issue("/../x"), PathIssue::Absolute);
}

#[test]
fn normalize_refuses_parent_dir() {
    assert_eq!(issue(".."), PathIssue::ParentDir);
    assert_eq!(issue("a/../b"), PathIssue::ParentDir);
    assert_eq!(issue("a/.."), PathIssue::ParentDir);
    assert_eq!(issue("./.."), PathIssue::ParentDir);
}

#[test]
fn normalize_refuses_empty_paths() {
    assert_eq!(issue(""), PathIssue::Empty);
    assert_eq!(issue("."), PathIssue::Empty);
    assert_eq!(issue("./"), PathIssue::Empty);
    assert_eq!(issue(".//./"), PathIssue::Empty);
}

#[test]
fn normalize_is_idempotent_on_examples() {
    for input in ["./a//b/.", "x", "a/b/c/", "uploads/./img"] {
        let once = ok(input);
        assert_eq!(ok(&once), once);
    }
}

#[test]
fn shared_path_messages() {
    let e = normalize_relative_path("/x").unwrap_err();
    assert_eq!(e.message(), "La ruta --shared debe ser relativa: /x");
    let e = normalize_relative_path("a/..").unwrap_err();
    assert_eq!(e.message(), "No se permite '..' en --shared: a/..");
    let e = normalize_relative_path("./").unwrap_err();
    assert_eq!(e.message(), "Ruta --shared vacía/inválida: ./");
}

fn placed(links: &mut SharedLinks, item: &str) -> Option<(String, bool)> {
    links.register(item).unwrap().map(|p| (p.path, p.link))
}

#[test]
fn shared_links_skip_repeated_paths() {
    let mut links = SharedLinks::new();
    assert_eq!(placed(&mut links, "node_modules"), Some(("node_modules".to_string(), true)));
    assert_eq!(placed(&mut links, "./node_modules/"), None);
    assert_eq!(placed(&mut links, "vendor//sub"), Some(("vendor/sub".to_string(), true)));
    assert_eq!(placed(&mut links, "vendor/sub"), None);
    assert_eq!(placed(&mut links, "node_modules"), None);
}

#[test]
fn shared_links_nested_path_gets_no_link() {
    let mut links = SharedLinks::new();
    assert_eq!(placed(&mut links, "vendor"), Some(("vendor".to_string(), true)));
    assert_eq!(placed(&mut links, "vendor/sub"), Some(("vendor/sub".to_string(), false)));
    assert_eq!(placed(&mut links, "vendor/sub/deep"), Some(("vendor/sub/deep".to_string(), false)));
    assert_eq!(placed(&mut links, "vendorx"), Some(("vendorx".to_string(), true)));
    let mut links = SharedLinks::new();
    assert_eq!(placed(&mut links, "a/b"), Some(("a/b".to_string(), true)));
    assert_eq!(placed(&mut links, "a"), Some(("a".to_string(), true)));
}

#[test]
fn shared_links_report_refused_paths() {
    let mut links = SharedLinks::new();
    assert_eq!(placed(&mut links, "a"), Some(("a".to_string(), true)));
    let err = links.register("../escape").unwrap_err();
    assert_eq!(err.issue, PathIssue::ParentDir);
    assert_eq!(err.input, "../escape");
    assert_eq!(placed(&mut links, "b"), Some(("b".to_string(), true)));
}

#[test]
fn current_target_resolution() {
    assert_eq!(resolve_current_target(Some(true)), Ok(CurrentBase::LinkTarget));
    assert_eq!(resolve_current_target(Some(false)), Ok(CurrentBase::BesideLink));
    assert_eq!(resolve_current_target(None), Err(CurrentNotSymlink));
    assert_eq!(
        CurrentNotSymlink.message("/www/current"),
        "'current' no es un symlink válido: /www/current"
    );
}
