//! Release versioning: a semantic version with a pre-release channel, the
//! bump operations that advance it, and a changelog built from commit ranges
//! between release tags.

pub mod text;
pub mod version;
pub mod bump;
pub mod changelog;
pub mod date;
pub mod references;
pub mod release;
pub mod snapshot;
