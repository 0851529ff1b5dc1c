//! Following the "next" relation of a paginated collection.
//!
//! A [`Pager`] does not fetch. It names the address of the page it needs; the
//! caller requests that page and feeds it in. The pager keeps, as ghost
//! state, the pages it has been fed, and its invariant ties its items and its
//! end to them.

use crate::dict::Dict;
use crate::endpoint::{resolve, subscriptions_address, subscriptions_url, target};
use crate::error::Error;
use crate::model::{HALLink, HALLinkView, Organization, Subscription};
use vstd::prelude::*;

verus! {

/// A page as the pager has seen it: its items, and the link of its "next"
/// relation where it has one.
pub struct PageSeen<T> {
    pub items: Seq<T>,
    pub next: Option<Seq<char>>,
}

/// The link of the "next" relation of a response, if it has one.
pub open spec fn next_href(links: Map<Seq<char>, HALLinkView>) -> Option<Seq<char>> {
    if links.contains_key("next"@) {
        Some(links["next"@].href)
    } else {
        None
    }
}

/// The items of all pages, in page order, each page's items in their order.
pub open spec fn gathered<T>(pages: Seq<PageSeen<T>>) -> Seq<T>
    decreases pages.len(),
{
    if pages.len() == 0 {
        Seq::empty()
    } else {
        gathered(pages.drop_last()) + pages.last().items
    }
}

/// The address that follows a page: none after a page without a "next"
/// relation, and otherwise where its link leads.
pub open spec fn following(next: Option<Seq<char>>) -> Option<Seq<char>> {
    match next {
        Some(href) => target(href),
        None => None,
    }
}

/// A paginated fetch in progress.
pub struct Pager<T> {
    items: Vec<T>,
    next: Option<String>,
    pages: Ghost<Seq<PageSeen<T>>>,
}

impl<T> Pager<T> {
    /// The items gathered so far.
    pub closed spec fn items(&self) -> Seq<T> {
        self.items@
    }

    /// The pages fed so far.
    pub closed spec fn visited(&self) -> Seq<PageSeen<T>> {
        self.pages@
    }

    /// The address of the page that is needed next. `None` when the fetch
    /// is over.
    pub closed spec fn wanted(&self) -> Option<Seq<char>> {
        match self.next {
            Some(address) => Some(address@),
            None => None,
        }
    }

    /// What holds of a pager at every moment: its items are those of the
    /// pages it has seen, in order; every page but the last had a "next"
    /// relation; it is over exactly when the last page had none; and until
    /// then the page it needs is the one that the last page leads to.
    pub open spec fn wf(&self) -> bool {
        &&& self.items() == gathered(self.visited())
        &&& forall|i: int| 0 <= i < self.visited().len() - 1 ==> (#[trigger] self.visited()[i]).next is Some
        &&& self.wanted() is None <==> self.visited().len() > 0 && self.visited().last().next is None
        &&& self.visited().len() > 0 ==> self.wanted() == following(self.visited().last().next)
    }

    /// A fetch that starts at `start`.
    pub fn new(start: String) -> (r: Self)
        ensures
            r.wf(),
            r.visited() == Seq::<PageSeen<T>>::empty(),
            r.items() == Seq::<T>::empty(),
            r.wanted() == Some(start@),
    {
        Pager { items: Vec::new(), next: Some(start), pages: Ghost(Seq::empty()) }
    }

    /// The address to request next, or `None` when the fetch is over.
    pub fn request(&self) -> (r: Option<&str>)
        ensures
            match r {
                Some(address) => self.wanted() == Some(address@),
                None => self.wanted() is None,
            },
    {
        match &self.next {
            Some(address) => Some(address.as_str()),
            None => None,
        }
    }

    /// Takes the page that was asked for: its items are added, and its
    /// "next" relation, if it has one, becomes the address to request.
    ///
    /// A relative link is resolved against the API base; where it does not
    /// resolve, the pager is left as it was. So it is where no page was
    /// asked for.
    pub fn feed(&mut self, items: Vec<T>, links: &Dict<HALLink>) -> (r: Result<(), Error>)
        requires
            old(self).wf(),
        ensures
            final(self).wf(),
            match r {
                Ok(()) => {
                    &&& old(self).wanted() is Some
                    &&& final(self).visited() == old(self).visited().push(
                        PageSeen { items: items@, next: next_href(links@) },
                    )
                    &&& final(self).items() == old(self).items() + items@
                    &&& final(self).wanted() == following(next_href(links@))
                },
                Err(e) => {
                    &&& final(self).items() == old(self).items()
                    &&& final(self).visited() == old(self).visited()
                    &&& final(self).wanted() == old(self).wanted()
                    &&& if old(self).wanted() is None {
                        e is OutOfTurn
                    } else {
                        e is Url && next_href(links@) is Some && following(next_href(links@)) is None
                    }
                },
            },
    {
        if self.next.is_none() {
            return Err(Error::OutOfTurn);
        }
        let next = match links.get("next") {
            Some(link) => {
                match resolve(link.href.as_str()) {
                    Ok(address) => Some(address),
                    Err(e) => {
                        return Err(e);
                    },
                }
            },
            None => None,
        };
        let ghost page = PageSeen { items: items@, next: next_href(links@) };
        let ghost seen = self.pages@;
        proof {
            assert(seen.push(page).len() == seen.len() + 1);
            assert(seen.push(page).drop_last() =~= seen);
        }
        let mut items = items;
        self.items.append(&mut items);
        self.next = next;
        self.pages = Ghost(self.pages@.push(page));
        Ok(())
    }

    /// Hands out the items gathered.
    pub fn into_items(self) -> (r: Vec<T>)
        ensures
            r@ == self.items(),
    {
        self.items
    }
}

/// Whether a sequence of pages is one whole collection: every page but the
/// last has a "next" relation, and the last has none.
pub open spec fn complete<T>(pages: Seq<PageSeen<T>>) -> bool {
    &&& pages.len() > 0
    &&& pages.last().next is None
    &&& forall|i: int| 0 <= i < pages.len() - 1 ==> (#[trigger] pages[i]).next is Some
}

/// The items of several collections, collection after collection.
pub open spec fn gathered_all<T>(runs: Seq<Seq<PageSeen<T>>>) -> Seq<T>
    decreases runs.len(),
{
    if runs.len() == 0 {
        Seq::empty()
    } else {
        gathered_all(runs.drop_last()) + gathered(runs.last())
    }
}

/// The fetch of the subscriptions of a list of organizations: for each
/// organization in turn, its own paginated collection, followed to its end.
pub struct SubscriptionWalk {
    organizations: Vec<Organization>,
    /// The organization whose subscriptions are being fetched.
    index: usize,
    pager: Pager<Subscription>,
    subscriptions: Vec<Subscription>,
    finished: Ghost<Seq<Seq<PageSeen<Subscription>>>>,
}

impl SubscriptionWalk {
    /// The organizations, in the order in which they are walked.
    pub closed spec fn organizations(&self) -> Seq<Organization> {
        self.organizations@
    }

    /// The pages of the organizations that are done with, one sequence for
    /// each.
    pub closed spec fn finished(&self) -> Seq<Seq<PageSeen<Subscription>>> {
        self.finished@
    }

    /// The pages seen so far of the organization at hand.
    pub closed spec fn open(&self) -> Seq<PageSeen<Subscription>> {
        if self.index < self.organizations@.len() {
            self.pager.visited()
        } else {
            Seq::empty()
        }
    }

    /// The subscriptions gathered so far.
    pub closed spec fn subscriptions(&self) -> Seq<Subscription> {
        if self.index < self.organizations@.len() {
            self.subscriptions@ + self.pager.items()
        } else {
            self.subscriptions@
        }
    }

    /// The address of the page that is needed next. `None` when the walk is
    /// over.
    pub closed spec fn wanted(&self) -> Option<Seq<char>> {
        if self.index < self.organizations@.len() {
            self.pager.wanted()
        } else {
            None
        }
    }

    spec fn inv(&self) -> bool {
        &&& self.index <= self.organizations@.len()
        &&& self.finished@.len() == self.index
        &&& self.subscriptions@ == gathered_all(self.finished@)
        &&& forall|i: int| 0 <= i < self.finished@.len() ==> complete(#[trigger] self.finished@[i])
        &&& self.index < self.organizations@.len() ==> self.pager.wf() && self.pager.wanted() is Some
    }

    /// What holds of a walk at every moment: one collection is done with
    /// for each organization before the one at hand, each of them whole; the
    /// subscriptions are the items of those collections and of the pages at
    /// hand, in order; and the page that is needed next is the first page of
    /// the organization at hand, or the one that its last page leads to.
    pub closed spec fn wf(&self) -> bool {
        self.inv()
    }

    /// What the invariant says, in terms of what can be seen from outside.
    pub proof fn lemma_wf(&self)
        requires
            self.wf(),
        ensures
            self.finished().len() <= self.organizations().len(),
            forall|i: int| 0 <= i < self.finished().len() ==> complete(#[trigger] self.finished()[i]),
            self.subscriptions() == gathered_all(self.finished()) + gathered(self.open()),
            self.wanted() is None <==> self.finished().len() == self.organizations().len(),
            self.wanted() is None ==> self.open().len() == 0,
            self.wanted() is Some ==> forall|i: int|
                0 <= i < self.open().len() ==> (#[trigger] self.open()[i]).next is Some,
            self.wanted() is Some && self.open().len() > 0 ==> self.wanted() == following(
                self.open().last().next,
            ),
    {
        if self.index < self.organizations@.len() {
            let pages = self.pager.visited();
            assert forall|i: int| 0 <= i < pages.len() implies (#[trigger] pages[i]).next is Some by {
                if i == pages.len() - 1 {
                    assert(pages.last() == pages[i]);
                }
            }
        } else {
            assert(self.subscriptions@ + Seq::<Subscription>::empty() == self.subscriptions@);
        }
    }

    /// The walk over `organizations`. It begins with the first page of the
    /// first of them, and is over at once where there is none.
    pub fn new(organizations: Vec<Organization>) -> (r: Self)
        ensures
            r.wf(),
            r.organizations() == organizations@,
            r.finished() == Seq::<Seq<PageSeen<Subscription>>>::empty(),
            r.open() == Seq::<PageSeen<Subscription>>::empty(),
            r.subscriptions() == Seq::<Subscription>::empty(),
            r.wanted() == if organizations@.len() == 0 {
                None
            } else {
                Some(subscriptions_address(organizations@[0].id@))
            },
    {
        let start = if organizations.len() > 0 {
            subscriptions_url(organizations[0].id.as_str())
        } else {
            String::new()
        };
        let r = SubscriptionWalk {
            organizations,
            index: 0,
            pager: Pager::new(start),
            subscriptions: Vec::new(),
            finished: Ghost(Seq::empty()),
        };
        assert(r.subscriptions@ + r.pager.items() == Seq::<Subscription>::empty());
        r
    }

    /// The address to request next, or `None` when the walk is over.
    pub fn request(&self) -> (r: Option<&str>)
        ensures
            match r {
                Some(address) => self.wanted() == Some(address@),
                None => self.wanted() is None,
            },
    {
        if self.index < self.organizations.len() {
            self.pager.request()
        } else {
            None
        }
    }

    /// Takes the page that was asked for. Its items are added. Where it has
    /// a "next" relation, that page of the same organization is needed next.
    /// Where it has none, the organization is done with, and the first page
    /// of the next organization is needed, if there is one.
    ///
    /// Where a relative link does not resolve, or no page was asked for,
    /// the walk is left as it was.
    pub fn feed(&mut self, items: Vec<Subscription>, links: &Dict<HALLink>) -> (r: Result<(), Error>)
        requires
            old(self).wf(),
        ensures
            final(self).wf(),
            final(self).organizations() == old(self).organizations(),
            match r {
                Ok(()) => {
                    let page = PageSeen { items: items@, next: next_href(links@) };
                    let n = old(self).finished().len() as int;
                    &&& old(self).wanted() is Some
                    &&& final(self).subscriptions() == old(self).subscriptions() + items@
                    &&& match page.next {
                        Some(href) => {
                            &&& final(self).finished() == old(self).finished()
                            &&& final(self).open() == old(self).open().push(page)
                            &&& final(self).wanted() == target(href)
                        },
                        None => {
                            &&& final(self).finished() == old(self).finished().push(old(self).open().push(page))
                            &&& final(self).open() == Seq::<PageSeen<Subscription>>::empty()
                            &&& final(self).wanted() == if n + 1 < old(self).organizations().len() {
                                Some(subscriptions_address(old(self).organizations()[n + 1].id@))
                            } else {
                                None
                            }
                        },
                    }
                },
                Err(e) => {
                    &&& final(self).subscriptions() == old(self).subscriptions()
                    &&& final(self).finished() == old(self).finished()
                    &&& final(self).open() == old(self).open()
                    &&& final(self).wanted() == old(self).wanted()
                    &&& if old(self).wanted() is None {
                        e is OutOfTurn
                    } else {
                        e is Url && next_href(links@) is Some && following(next_href(links@)) is None
                    }
                },
            },
    {
        let ghost page = PageSeen { items: items@, next: next_href(links@) };
        let at = self.index;
        let count = self.organizations.len();
        if at >= count {
            return Err(Error::OutOfTurn);
        }
        match self.pager.feed(items, links) {
            Err(e) => {
                return Err(e);
            },
            Ok(()) => {},
        }
        if self.pager.request().is_none() {
            let ghost run = self.pager.visited();
            let next = at + 1;
            let start = if next < self.organizations.len() {
                subscriptions_url(self.organizations[next].id.as_str())
            } else {
                String::new()
            };
            let mut pager: Pager<Subscription> = Pager::new(start);
            core::mem::swap(&mut self.pager, &mut pager);
            let mut gathered = pager.into_items();
            proof {
                let before = self.finished@;
                assert(before.push(run).drop_last() == before);
                assert(complete(run)) by {
                    assert forall|i: int| 0 <= i < run.len() - 1 implies (#[trigger] run[i]).next is Some by {}
                }
            }
            self.subscriptions.append(&mut gathered);
            self.index = next;
            self.finished = Ghost(self.finished@.push(run));
            proof {
                if self.index < self.organizations@.len() {
                    assert(self.subscriptions@ + self.pager.items() == self.subscriptions@);
                }
            }
        } else {
            proof {
                assert((old(self).subscriptions@ + old(self).pager.items()) + items@ == old(self).subscriptions@ + (
                old(self).pager.items() + items@));
            }
        }
        Ok(())
    }

    /// Hands out the subscriptions gathered.
    pub fn into_subscriptions(self) -> (r: Vec<Subscription>)
        requires
            self.wf(),
        ensures
            r@ == self.subscriptions(),
    {
        let mut all = self.subscriptions;
        if self.index < self.organizations.len() {
            let mut rest = self.pager.into_items();
            all.append(&mut rest);
        }
        all
    }
}

} // verus!
