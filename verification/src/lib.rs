//! Reading Unity packages: a package is a directory, a tar archive or a
//! gzip-compressed tar archive in which the files of each asset lie under the
//! identifier of the asset. The library tells the kind of a package, files
//! each entry under its asset, and rewrites the serialization dialect of the
//! engine into text that a YAML reader accepts.
//!
//! Reading the medium is left to the caller, who hands over each file as a
//! [`entry::PackageEntry`].

pub mod error;
pub mod signature;
pub mod text;
pub mod space;
pub mod decimal;
pub mod pattern;
pub mod sniff;
pub mod asset;
pub mod meta;
pub mod package;
pub mod entry;
pub mod records;
pub mod listing;
pub mod extract;
pub mod hash;
pub mod commands;

pub use crate::asset::asset_yaml_cleanup;
pub use crate::meta::asset_meta_yaml_cleanup;
