//! A verified media catalog: canonical media identities keyed by kind,
//! cross-referenced external identifiers, hierarchical transactional
//! inserts, an idempotent reconciler for third-party viewing-history
//! exports, and an append-only watch ledger.
//!
//! - [`db`] holds the identity store, the external-identity index and
//!   the ledger, modelled as one in-memory catalog of append-only
//!   tables, with a mathematical model (`CatalogM`) every contract is
//!   stated against.
//! - [`txn`] builds an entity, its detail row, its id mapping and —
//!   for shows — nested seasons and episodes as one all-or-nothing
//!   unit.
//! - [`trakt`] reconciles tracker-export records against the catalog
//!   without ever duplicating an entity, drives the bulk import, and
//!   proves the reconciliation laws: idempotence, ancestor creation,
//!   and that re-importing a history only grows the ledger.
//! - [`history`] and [`pages`] are the read side: display-ready
//!   projections with exact contracts.
//! - [`laws`] states the id-namespace laws of the store itself.
//! - [`scan`] and [`text`] are the small shared theories: first-match
//!   scans, counting, filtering, and decimal rendering.

pub mod db;
pub mod history;
pub mod laws;
pub mod pages;
pub mod scan;
pub mod text;
pub mod tmdb;
pub mod trakt;
pub mod txn;
