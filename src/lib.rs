//! Posts with comments and like / dislike counters, kept by a manager that
//! assigns identifiers and hands out snapshots for persistence.

pub mod decimal;
pub mod post;
pub mod manager;
pub mod history;
