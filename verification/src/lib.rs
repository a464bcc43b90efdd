//! A query matching and ranking engine for interactive fuzzy search.
//!
//! Candidates arrive one by one and the query changes as the user types. The
//! worker in [`worker`] answers each event with at most one message for the
//! consumer of the results: a reset when the query changes, a ranked match
//! when a candidate matches the live query. The configuration of one query
//! is in [`engine`], the sort key of a match in [`rank`], the criteria that
//! make up the key in [`criteria`].
//!
//! The similarity of a field and a query is judged by a scoring oracle, a
//! function that the caller brings. The contracts say what the engine does
//! with whatever the oracle answers. The one thing taken on trust is the
//! lower-case form of a text, which the standard library computes.

pub mod criteria;
pub mod engine;
pub mod item;
pub mod rank;
pub mod text;
pub mod worker;

pub use criteria::{criteria_from_token, parse_criteria, RankCriteria};
pub use engine::{Answer, MatchingEngine};
pub use item::{Item, MatchedItem};
pub use text::strip_line_ending;
pub use worker::{Emission, Event, Matcher};
