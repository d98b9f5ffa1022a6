use prezel::submodules::{match_github_tree, parse_submodule};

fn b(s: &str) -> Vec<u8> {
    s.as_bytes().to_vec()
}

#[test]
fn submodule_pointer_parses_to_its_repository() {
    let r = parse_submodule("https://api.github.com/repos/octo/lib/git/trees/abc123").unwrap();
    assert_eq!(r.owner, b("octo"));
    assert_eq!(r.name, b("lib"));
    assert_eq!(r.sha, b("abc123"));
}

#[test]
fn foreign_hosts_and_other_shapes_are_not_followed() {
    assert!(parse_submodule("https://example.com/repos/octo/lib/git/trees/abc").is_none());
    assert!(parse_submodule("https://api.github.com/repos/octo/lib/blob/abc").is_none());
    assert!(parse_submodule("not a url").is_none());
}

#[test]
fn tree_shape_check_is_exact() {
    let segments = vec![b("repos"), b("octo"), b("lib"), b("git"), b("trees"), b("abc")];
    let r = match_github_tree(b"api.github.com", &segments).unwrap();
    assert_eq!(r.owner, b("octo"));
    assert_eq!(r.name, b("lib"));
    assert_eq!(r.sha, b("abc"));
    let wrong = vec![b("repos"), b("octo"), b("lib"), b("git"), b("blobs"), b("abc")];
    assert!(match_github_tree(b"api.github.com", &wrong).is_none());
    assert!(match_github_tree(b"github.com", &segments).is_none());
}
