use github_handler::repository::{find_repository_id, parse_github_repo_url, repo_from_path, Program};

fn pair(a: &str, b: &str) -> Option<(String, String)> {
    Some((a.to_string(), b.to_string()))
}

#[test]
fn url_gives_owner_and_name() {
    assert_eq!(parse_github_repo_url("https://github.com/rust-lang/rust"), pair("rust-lang", "rust"));
    assert_eq!(parse_github_repo_url("https://github.com/rust-lang/rust.git"), pair("rust-lang", "rust"));
    assert_eq!(parse_github_repo_url("https://github.com/a/b/tree/main"), pair("a", "b"));
}

#[test]
fn url_with_short_path_gives_nothing() {
    assert_eq!(parse_github_repo_url("https://github.com/onlyowner"), None);
    assert_eq!(parse_github_repo_url("https://github.com"), None);
    assert_eq!(parse_github_repo_url("mailto:someone@example.com"), None);
}

#[test]
fn path_gives_last_two_pieces() {
    assert_eq!(parse_github_repo_url("owner/repo"), pair("owner", "repo"));
    assert_eq!(parse_github_repo_url("git/owner/repo.git.git"), pair("owner", "repo"));
    assert_eq!(parse_github_repo_url("single"), None);
    assert_eq!(repo_from_path("x/.git"), pair("x", ""));
}

fn programs() -> Vec<Program> {
    vec![
        Program { id: 1, name: "tools".to_string(), github_url: None },
        Program { id: 2, name: "other".to_string(), github_url: Some("https://github.com/acme/tools.git".to_string()) },
        Program { id: 3, name: "tools".to_string(), github_url: Some("https://github.com/acme/tools".to_string()) },
    ]
}

#[test]
fn repository_found_by_url_before_name() {
    assert_eq!(find_repository_id(&programs(), "acme", "tools"), Some(2));
}

#[test]
fn repository_found_by_name_when_no_url_matches() {
    assert_eq!(find_repository_id(&programs(), "someone", "tools"), Some(1));
}

#[test]
fn unknown_repository_is_not_found() {
    assert_eq!(find_repository_id(&programs(), "acme", "missing"), None);
    assert_eq!(find_repository_id(&Vec::new(), "acme", "tools"), None);
}
