//! The course of a computation that has to ask for things: the requests it
//! makes, in order, and what it ends in.
//!
//! The library never fetches. Its specifications still say which requests a
//! search or an inspection makes, and in which order, by describing them as
//! trails over a model of what each request would be answered.

use vstd::prelude::*;

verus! {

/// The requests of a computation, first to last, and its result. A
/// computation whose last request fails has no result.
pub struct Trail<Q, T> {
    pub asked: Seq<Q>,
    pub value: Option<T>,
}

impl<Q, T> Trail<Q, T> {
    /// A computation that asks for nothing.
    pub open spec fn done(value: T) -> Self {
        Trail { asked: Seq::empty(), value: Some(value) }
    }

    /// A computation whose one request fails.
    pub open spec fn stuck(request: Q) -> Self {
        Trail { asked: seq![request], value: None }
    }

    /// This computation, begun only after the requests `before` were made
    /// and answered.
    pub open spec fn after(self, before: Seq<Q>) -> Self {
        Trail { asked: before + self.asked, value: self.value }
    }

    /// The computation that makes `request` and, if that is answered, goes
    /// on as `self`.
    pub open spec fn asking(self, request: Q, answered: bool) -> Self {
        if answered {
            self.after(seq![request])
        } else {
            Self::stuck(request)
        }
    }

    /// This computation with its result replaced, where it has one.
    pub open spec fn giving<U>(self, value: U) -> Trail<Q, U> {
        Trail {
            asked: self.asked,
            value: match self.value {
                Some(_) => Some(value),
                None => None,
            },
        }
    }
}

/// Beginning after some requests, and those after others, is beginning
/// after all of them.
pub proof fn lemma_after_after<Q, T>(trail: Trail<Q, T>, first: Seq<Q>, second: Seq<Q>)
    ensures
        trail.after(second).after(first) == trail.after(first + second),
{
    assert(first + (second + trail.asked) == (first + second) + trail.asked);
}

} // verus!
