//! The data-access layer of a personal sleep tracker.
//!
//! Sleeps, tags, the sleep-tag junction and comments live in a [`store::Store`]
//! that enforces the schema's rules (store-assigned ids, foreign keys, cascading
//! deletes). The row types carry the single-table repository operations, and
//! [`manager::DBManager`] composes them into the aggregate operations.
//! [`model`] holds the shapes and the decisions of the query layer above the
//! manager, [`night`] the handling of dates, and [`laws`] the properties that
//! relate several operations.
pub mod night;
pub mod rows;
pub mod store;
pub mod manager;
pub mod laws;
pub mod model;
