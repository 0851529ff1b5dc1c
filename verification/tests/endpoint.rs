use platform::endpoint::{
    blob_url, commit_url, environments_url, organizations_url, resolve, subscriptions_url, tree_url, API_BASE,
    TOKEN_URL,
};
use platform::error::Error;

#[test]
fn addresses_of_the_collections() {
    assert_eq!(API_BASE, "https://api.platform.sh");
    assert_eq!(TOKEN_URL, "https://auth.api.platform.sh/oauth2/token");
    assert_eq!(organizations_url(), "https://api.platform.sh/organizations");
    assert_eq!(subscriptions_url("org1"), "https://api.platform.sh/organizations/org1/subscriptions");
    assert_eq!(environments_url("shop1"), "https://api.platform.sh/projects/shop1/environments");
}

#[test]
fn addresses_of_the_git_objects() {
    assert_eq!(commit_url("shop1", "abc"), "https://api.platform.sh/projects/shop1/git/commits/abc");
    assert_eq!(tree_url("shop1", "def"), "https://api.platform.sh/projects/shop1/git/trees/def");
    assert_eq!(blob_url("shop1", "012"), "https://api.platform.sh/projects/shop1/git/blobs/012");
}

#[test]
fn absolute_link_is_used_as_it_stands() {
    let href = "https://api.platform.sh/organizations?page=2";
    assert_eq!(resolve(href).unwrap(), href);
    let other = "http://Example.ORG:80/a/../b";
    assert_eq!(resolve(other).unwrap(), other);
}

#[test]
fn relative_link_is_resolved_against_the_base() {
    assert_eq!(
        resolve("/organizations?page=2").unwrap(),
        "https://api.platform.sh/organizations?page=2"
    );
    assert_eq!(resolve("organizations").unwrap(), "https://api.platform.sh/organizations");
    assert_eq!(resolve("").unwrap(), "https://api.platform.sh/");
    assert_eq!(resolve("//other.example/x").unwrap(), "https://other.example/x");
}

#[test]
fn link_with_another_scheme_is_left_to_the_parser() {
    assert_eq!(resolve("HTTPS://api.platform.sh/x").unwrap(), "https://api.platform.sh/x");
}

#[test]
fn link_that_does_not_resolve_is_an_error() {
    assert!(matches!(resolve("//[bad"), Err(Error::Url(_))));
}
