//! Inspection of hosted projects through a paginated HTTP API: the rules by
//! which pages are followed, remote Git trees are searched, and manifest, lock
//! and service files are merged into report rows.
//!
//! The library performs no I/O. Where a step needs a remote object, it says
//! which one, and the caller hands the answer back.
//!
//! - [`paging`] follows the "next" relation of a collection, and walks the
//!   subscriptions of all organizations.
//! - [`search`] searches a remote tree to a bounded depth; [`descent`] says
//!   what it matches without reference to the search.
//! - [`inspection`] tells what the inspection of a subscription asks for and
//!   yields; [`scan`] carries it out, one request at a time.
//! - [`report`], [`makefile`] and [`config`] hold the rules of the merge;
//!   [`table`] and [`order`] lay the rows out.
//! - [`endpoint`] and [`blob`] hold the addresses and encodings of the API;
//!   [`model`] its objects.
//! - [`dict`], [`text`] and [`trail`] are what the rest is built on.

pub mod blob;
pub mod config;
pub mod descent;
pub mod dict;
pub mod endpoint;
pub mod error;
pub mod inspection;
pub mod makefile;
pub mod model;
pub mod order;
pub mod paging;
pub mod report;
pub mod scan;
pub mod search;
pub mod table;
pub mod text;
pub mod trail;
