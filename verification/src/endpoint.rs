//! The addresses of the API: where each kind of object is fetched, and how
//! the link of a response becomes the address of the next request.

use crate::error::Error;
use crate::text::{append, starts_with};
use vstd::prelude::*;

verus! {

/// The base that relative links are resolved against.
pub const API_BASE: &'static str = "https://api.platform.sh";

/// The serialization of the URL that `reference` denotes relative to `base`,
/// as the `url` crate parses it. `None` where either does not parse.
pub uninterp spec fn url_resolved(base: Seq<char>, reference: Seq<char>) -> Option<Seq<char>>;

/// Calls `url::Url::parse` on `base` and, with the result as the base URL,
/// `url::ParseOptions::parse` on `reference`.
///
/// The contract claims only that the outcome is a function of the two
/// strings: the same input parses to the same URL, or fails, every time.
#[verifier::external_body]
fn url_join(base: &str, reference: &str) -> (r: Result<String, url::ParseError>)
    ensures
        match r {
            Ok(target) => url_resolved(base@, reference@) == Some(target@),
            Err(_) => url_resolved(base@, reference@) is None,
        },
{
    let base = url::Url::parse(base)?;
    url::Url::options().base_url(Some(&base)).parse(reference).map(String::from)
}

/// Whether a link is fully qualified: it names its scheme and host itself.
pub open spec fn is_absolute(href: Seq<char>) -> bool {
    "https://"@.is_prefix_of(href) || "http://"@.is_prefix_of(href)
}

/// The address that a request for `href` goes to: `href` itself where it is
/// fully qualified, and otherwise what it resolves to against the API base.
/// `None` where a relative link does not resolve.
pub open spec fn target(href: Seq<char>) -> Option<Seq<char>> {
    if is_absolute(href) {
        Some(href)
    } else {
        url_resolved(API_BASE@, href)
    }
}

/// The address to request for a link of a response.
///
/// A fully qualified link is used as it stands. A relative one is resolved
/// against the API base first.
pub fn resolve(href: &str) -> (r: Result<String, Error>)
    ensures
        match r {
            Ok(address) => target(href@) == Some(address@),
            Err(e) => target(href@) is None && e is Url,
        },
{
    if starts_with(href, "https://") || starts_with(href, "http://") {
        Ok(String::from_str(href))
    } else {
        match url_join(API_BASE, href) {
            Ok(address) => Ok(address),
            Err(e) => Err(Error::Url(e)),
        }
    }
}

/// Where the access credential is exchanged for a token.
pub const TOKEN_URL: &'static str = "https://auth.api.platform.sh/oauth2/token";

/// The first page of the organizations.
pub open spec fn organizations_address() -> Seq<char> {
    API_BASE@ + "/organizations"@
}

/// The first page of the subscriptions of an organization.
pub open spec fn subscriptions_address(organization: Seq<char>) -> Seq<char> {
    API_BASE@ + "/organizations/"@ + organization + "/subscriptions"@
}

/// The list of the environments of a project.
pub open spec fn environments_address(project: Seq<char>) -> Seq<char> {
    API_BASE@ + "/projects/"@ + project + "/environments"@
}

/// An object of a project's repository: `kind` is the collection it is in.
pub open spec fn object_address(project: Seq<char>, kind: Seq<char>, sha: Seq<char>) -> Seq<char> {
    API_BASE@ + "/projects/"@ + project + "/git/"@ + kind + "/"@ + sha
}

/// The address of the first page of the organizations.
pub fn organizations_url() -> (r: String)
    ensures
        r@ == organizations_address(),
{
    append(API_BASE, "/organizations")
}

/// The address of the first page of the subscriptions of an organization.
pub fn subscriptions_url(organization_id: &str) -> (r: String)
    ensures
        r@ == subscriptions_address(organization_id@),
{
    let stem = append(API_BASE, "/organizations/");
    let named = append(stem.as_str(), organization_id);
    append(named.as_str(), "/subscriptions")
}

/// The address of the list of the environments of a project.
pub fn environments_url(project_id: &str) -> (r: String)
    ensures
        r@ == environments_address(project_id@),
{
    let stem = append(API_BASE, "/projects/");
    let named = append(stem.as_str(), project_id);
    append(named.as_str(), "/environments")
}

fn object_url(project_id: &str, kind: &str, sha: &str) -> (r: String)
    ensures
        r@ == object_address(project_id@, kind@, sha@),
{
    let stem = append(API_BASE, "/projects/");
    let named = append(stem.as_str(), project_id);
    let git = append(named.as_str(), "/git/");
    let collection = append(git.as_str(), kind);
    let slash = append(collection.as_str(), "/");
    append(slash.as_str(), sha)
}

/// The address of a commit object.
pub fn commit_url(project_id: &str, sha: &str) -> (r: String)
    ensures
        r@ == object_address(project_id@, "commits"@, sha@),
{
    object_url(project_id, "commits", sha)
}

/// The address of a tree object.
pub fn tree_url(project_id: &str, sha: &str) -> (r: String)
    ensures
        r@ == object_address(project_id@, "trees"@, sha@),
{
    object_url(project_id, "trees", sha)
}

/// The address of a blob object.
pub fn blob_url(project_id: &str, sha: &str) -> (r: String)
    ensures
        r@ == object_address(project_id@, "blobs"@, sha@),
{
    object_url(project_id, "blobs", sha)
}

} // verus!
