//! Ingestion, merge and persistence engine of a view-count logger.
//!
//! A run observes named entities grouped by owner, records one metric per
//! entity and observation time, and keeps a title record per entity.
//!
//! - [`entity`], [`group`], [`registry`]: entities known by their id, the
//!   groups that hold them, and the merge that puts fresh data in the place
//!   of old.
//! - [`fetch`], [`reply`], [`request`], [`json`], [`number`]: the outcomes of
//!   the per-entity fetches, and reading what the collaborators answer.
//! - [`title`], [`title_cache`], [`text`]: structured titles, the cleaned
//!   title composed from them, and the refresh of a title record.
//! - [`table`], [`store`], [`plan`], [`sql`]: metric tables, the statements
//!   that change them and their SQL text, and the plan that records a group.
//! - [`persist`], [`record`], [`guarantees`]: recording a run as a whole or
//!   not at all, what each table then holds, and what holds of every run.
//! - [`scan`], [`profile`]: cutting the JSON that a page embeds out of it, and
//!   reading an account's profile from it.

pub mod entity;
pub mod fetch;
pub mod group;
pub mod guarantees;
pub mod json;
pub mod number;
pub mod persist;
pub mod plan;
pub mod profile;
pub mod record;
pub mod registry;
pub mod reply;
pub mod request;
pub mod scan;
pub mod sql;
pub mod store;
pub mod table;
pub mod text;
pub mod title;
pub mod title_cache;
