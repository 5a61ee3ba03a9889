//! Discovery and ranking of launchable targets: path filters, shortcut
//! resolution, the known-target set, relevance scoring and the decisions of a
//! discovery session, each with a proved contract.

pub mod discover;
pub mod envpath;
pub mod filter;
pub mod known;
pub mod links;
pub mod naming;
pub mod rank;
pub mod score;
pub mod select;
pub mod session;
pub mod shortcut;
pub mod text;
pub mod walk;
