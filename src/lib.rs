//! Core of a small package manager: a manifest of dependency requirements is
//! turned into a deterministic, checksummed lock plan, and a lock plan is
//! checked for consistency against its manifest.
//!
//! Dependency names are ordered by code point, which is the order of their
//! UTF-8 bytes; without a seed a lock plan lists its entries in that order,
//! with a seed it lists them in a seeded shuffle of that order.

pub mod check;
pub mod digest;
pub mod lockfile;
pub mod manifest;
pub mod text;

pub use check::{check_consistency, ConsistencyError};
pub use digest::{checksum, source_locator};
pub use lockfile::{order, resolve, LockedDep, Lockfile};
pub use manifest::{default_dpl_version, initial_manifest, Manifest, PackageInfo};
pub use text::name_less;
