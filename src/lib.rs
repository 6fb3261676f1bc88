//! A semantic version value: three 16-bit components (major, minor, patch),
//! with increments, a compatibility rule, and the textual form
//! `major.minor.patch` in both directions.

pub mod decimal;
pub mod error;
pub mod text;
pub mod version;

pub use error::{IntErrorKind, VersionError};
pub use version::{Version, VersionProvider};
