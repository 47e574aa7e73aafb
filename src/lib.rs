//! Bulk management of a tree of `jj` repository checkouts laid out as
//! `<base>/<forge>/<user>/<repo>`: locating the checkouts, selecting them by
//! forge, user and name, and the bookkeeping of a concurrent refresh of all
//! selected checkouts.
pub mod config;
pub mod forge;
pub mod get;
pub mod lines;
pub mod list;
pub mod repos;
pub mod resolve;
pub mod text;
pub mod update;
