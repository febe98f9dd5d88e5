//! The changeset core of a repository that keeps every changeset in two
//! forms: the content-addressed graph, which is authoritative, and the
//! tree-manifest form, which is derived from it on demand.
//!
//! Nothing here touches a store, a clock or the network. Work that
//! alternates between deciding and waiting is written as a machine: it
//! says what to ask next, and is told the answer. Whoever owns the stores
//! runs the machines.
//!
//! - `planner` finds the ancestors that still lack the derived form, and
//!   `topo_sort` puts them in an order in which parents come first.
//! - `lease` waits for the right to derive one changeset, and `derive` runs
//!   a whole derivation.
//! - `manifest` and `file_change` decide how the changed files of a
//!   changeset are stored, and `case_conflict` looks for paths that differ
//!   by case alone.
//! - `create` leads a new changeset from its upload to the point where the
//!   index knows it, and `save` orders a batch of changesets for the index.
//! - `mapping` finds the identifiers of one form for those of the other.

pub mod bonsai;
pub mod case_conflict;
pub mod create;
pub mod derive;
pub mod errors;
pub mod file_change;
pub mod filenodes;
pub mod hg_changeset;
pub mod history;
pub mod ids;
pub mod lease;
pub mod manifest;
pub mod mapping;
pub mod path;
pub mod planner;
pub mod repo;
pub mod sampling;
pub mod save;
pub mod topo_sort;
