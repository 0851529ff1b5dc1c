use platform::dict::Dict;
use platform::error::Error;
use platform::model::{HALLink, Organization, Subscription};
use platform::paging::{Pager, SubscriptionWalk};

fn links(next: Option<&str>) -> Dict<HALLink> {
    let mut d: Dict<HALLink> = Dict::new();
    d.insert(
        "self".to_string(),
        HALLink { title: None, href: "https://api.platform.sh/here".to_string(), method: None },
    );
    if let Some(href) = next {
        d.insert("next".to_string(), HALLink { title: None, href: href.to_string(), method: None });
    }
    d
}

fn organization(id: &str) -> Organization {
    Organization {
        id: id.to_string(),
        owner_id: "o".to_string(),
        namespace: "n".to_string(),
        name: id.to_string(),
        label: id.to_string(),
        country: "dk".to_string(),
        created_at: None,
        updated_at: None,
    }
}

fn subscription(id: &str) -> Subscription {
    Subscription {
        id: id.to_string(),
        status: "active".to_string(),
        created_at: "2020-01-01T00:00:00+00:00".to_string(),
        owner: "owner".to_string(),
        plan: "standard".to_string(),
        environments: 3,
        storage: 5120,
        project_id: format!("project-{}", id),
        project_title: format!("Project {}", id),
        project_region: None,
        project_region_label: None,
        project_ui: "ui".to_string(),
    }
}

fn ids(subscriptions: &[Subscription]) -> Vec<&str> {
    subscriptions.iter().map(|s| s.id.as_str()).collect()
}

#[test]
fn pager_starts_at_the_given_address() {
    let pager: Pager<u32> = Pager::new("https://api.platform.sh/organizations".to_string());
    assert_eq!(pager.request(), Some("https://api.platform.sh/organizations"));
}

#[test]
fn pager_ends_when_a_page_has_no_next_relation() {
    let mut pager: Pager<u32> = Pager::new("start".to_string());
    pager.feed(vec![1, 2], &links(None)).unwrap();
    assert_eq!(pager.request(), None);
    assert_eq!(pager.into_items(), vec![1, 2]);
}

#[test]
fn pager_concatenates_pages_in_order() {
    let mut pager: Pager<u32> = Pager::new("start".to_string());
    pager.feed(vec![1, 2], &links(Some("https://api.platform.sh/x?page=2"))).unwrap();
    assert_eq!(pager.request(), Some("https://api.platform.sh/x?page=2"));
    pager.feed(vec![], &links(Some("https://api.platform.sh/x?page=3"))).unwrap();
    assert_eq!(pager.request(), Some("https://api.platform.sh/x?page=3"));
    pager.feed(vec![3], &links(None)).unwrap();
    assert_eq!(pager.request(), None);
    assert_eq!(pager.into_items(), vec![1, 2, 3]);
}

#[test]
fn pager_resolves_a_relative_next_link_against_the_api_base() {
    let mut pager: Pager<u32> = Pager::new("start".to_string());
    pager.feed(vec![1], &links(Some("/organizations?page=2"))).unwrap();
    assert_eq!(pager.request(), Some("https://api.platform.sh/organizations?page=2"));
}

#[test]
fn pager_requests_an_absolute_next_link_unchanged() {
    let mut pager: Pager<u32> = Pager::new("start".to_string());
    pager.feed(vec![1], &links(Some("https://Other.example:443/a/../b?x=1#f"))).unwrap();
    assert_eq!(pager.request(), Some("https://Other.example:443/a/../b?x=1#f"));
}

#[test]
fn pager_is_left_alone_by_a_link_that_does_not_resolve() {
    let mut pager: Pager<u32> = Pager::new("start".to_string());
    pager.feed(vec![1], &links(Some("https://api.platform.sh/2"))).unwrap();
    let failed = pager.feed(vec![2], &links(Some("//[bad")));
    assert!(matches!(failed, Err(Error::Url(_))));
    assert_eq!(pager.request(), Some("https://api.platform.sh/2"));
    assert_eq!(pager.into_items(), vec![1]);
}

#[test]
fn walk_without_organizations_is_over_at_once() {
    let walk = SubscriptionWalk::new(Vec::new());
    assert_eq!(walk.request(), None);
    assert!(walk.into_subscriptions().is_empty());
}

#[test]
fn walk_visits_each_organization_in_turn() {
    let mut walk = SubscriptionWalk::new(vec![organization("a"), organization("b"), organization("c")]);
    assert_eq!(walk.request(), Some("https://api.platform.sh/organizations/a/subscriptions"));
    walk.feed(vec![subscription("1")], &links(Some("/organizations/a/subscriptions?page=2"))).unwrap();
    assert_eq!(walk.request(), Some("https://api.platform.sh/organizations/a/subscriptions?page=2"));
    walk.feed(vec![subscription("2"), subscription("3")], &links(None)).unwrap();
    assert_eq!(walk.request(), Some("https://api.platform.sh/organizations/b/subscriptions"));
    walk.feed(vec![], &links(None)).unwrap();
    assert_eq!(walk.request(), Some("https://api.platform.sh/organizations/c/subscriptions"));
    walk.feed(vec![subscription("4")], &links(None)).unwrap();
    assert_eq!(walk.request(), None);
    assert_eq!(ids(&walk.into_subscriptions()), vec!["1", "2", "3", "4"]);
}

#[test]
fn walk_hands_out_what_it_has_when_stopped_early() {
    let mut walk = SubscriptionWalk::new(vec![organization("a"), organization("b")]);
    walk.feed(vec![subscription("1")], &links(None)).unwrap();
    walk.feed(vec![subscription("2")], &links(Some("https://api.platform.sh/more"))).unwrap();
    assert_eq!(walk.request(), Some("https://api.platform.sh/more"));
    assert_eq!(ids(&walk.into_subscriptions()), vec!["1", "2"]);
}

#[test]
fn walk_is_left_alone_by_a_link_that_does_not_resolve() {
    let mut walk = SubscriptionWalk::new(vec![organization("a")]);
    let failed = walk.feed(vec![subscription("1")], &links(Some("//[bad")));
    assert!(matches!(failed, Err(Error::Url(_))));
    assert_eq!(walk.request(), Some("https://api.platform.sh/organizations/a/subscriptions"));
    assert!(walk.into_subscriptions().is_empty());
}

#[test]
fn page_that_was_not_asked_for_is_refused() {
    let mut pager: Pager<u32> = Pager::new("start".to_string());
    pager.feed(vec![1], &links(None)).unwrap();
    assert!(matches!(pager.feed(vec![2], &links(None)), Err(Error::OutOfTurn)));
    assert_eq!(pager.into_items(), vec![1]);
    let mut walk = SubscriptionWalk::new(Vec::new());
    assert!(matches!(walk.feed(vec![subscription("1")], &links(None)), Err(Error::OutOfTurn)));
    assert!(walk.into_subscriptions().is_empty());
}
