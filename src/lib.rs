//! The state engine of a personal task manager: a forest of tasks partitioned into lists,
//! settings kept referentially sound by a sanitizer, and a reminder scheduler that shows
//! each due reminder once.

pub mod changelog;
pub mod clock;
pub mod engine;
pub mod forest;
pub mod model;
pub mod notified;
pub mod reminder;
pub mod sanitize;
pub mod storage;
pub mod text;
