//! A route compiler and dispatcher for handlers laid out as files.
//!
//! A [`tree::Snapshot`] of a routes directory becomes a [`tree::Route`] tree:
//! directories are groups, source files that hold the handler marker are
//! handlers, source files that do not are plain sources without a route, and
//! every other file is a static asset whose content type is inferred from its
//! extension ([`mime`]). Every node knows its place under the root
//! ([`trail`]), so the routes of any part of the tree are the joined paths
//! from the root. The tree is flattened into route entries ([`compile`]),
//! each with a [`pattern::RoutePattern`] of literal anchors and named
//! captures, and put in precedence order ([`table`]): the patterns without a
//! capture come first.
//!
//! At request time [`dispatch::RouteTable::dispatch`] cleans the raw path and
//! selects the first literal entry equal to it or, failing that, the first
//! capture entry that the [`matcher`] accepts. [`handle::handle`] turns the
//! outcome into what the serving layer has to do: run a handler, or send a
//! fixed response.
//!
//! Contracts are stated over sequences of characters and bytes; every type
//! has a view that the contracts speak of.

pub mod compile;
pub mod dispatch;
pub mod fields;
pub mod handle;
pub mod json;
pub mod matcher;
pub mod mime;
pub mod modules;
pub mod pattern;
pub mod request;
pub mod shape;
pub mod table;
pub mod text;
pub mod trail;
pub mod tree;
pub mod validity;
