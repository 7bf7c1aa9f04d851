use porteurbars::git::Url;
use porteurbars::Error;

#[test]
fn test_authenticated_ssh_url() {
    assert_eq!(
        Url::from_str("git@github.com:user/repo.git").unwrap(),
        Url::Remote(String::from("git@github.com:user/repo.git"))
    )
}

#[test]
fn test_public_ssh_url() {
    assert_eq!(
        Url::from_str("git://github.com:user/repo.git").unwrap(),
        Url::Remote(String::from("git://github.com:user/repo.git"))
    )
}

#[test]
fn test_https_url() {
    assert_eq!(
        Url::from_str("https://github.com/user/repo.git").unwrap(),
        Url::Remote(String::from("https://github.com/user/repo.git"))
    )
}

#[test]
fn test_github_url() {
    assert_eq!(
        Url::from_str("user/repo").unwrap(),
        Url::Github(String::from("user"), String::from("repo"))
    )
}

#[test]
fn test_local_uri() {
    assert_eq!(
        Url::from_str("file:///some/path/foo.git").unwrap(),
        Url::Local(String::from("/some/path/foo.git"))
    )
}

#[test]
fn whitespace_rejects_the_locator() {
    let r = Url::from_str("not a locator");
    assert!(matches!(r, Err(Error::InvalidUri(t)) if t == "not a locator"));
}

#[test]
fn two_slashes_are_not_github_shorthand() {
    assert!(Url::from_str("a/b/c").is_err());
}

#[test]
fn edge_slash_is_not_github_shorthand() {
    assert!(Url::from_str("/repo").is_err());
    assert!(Url::from_str("owner/").is_err());
}

#[test]
fn invalid_uri_describes_itself() {
    let e = Url::from_str("???").unwrap_err();
    assert_eq!(e.describe(), "invalid template uri ???");
}
