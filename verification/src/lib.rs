//! Expands dependency declarations in a package manifest: every dependency
//! given as a bare version string or as an inline table becomes a full
//! multi-line table, while all other document content keeps its original
//! formatting.

pub mod doc;
pub mod laws;
pub mod manifest;
pub mod model;
pub mod options;
pub mod select;

pub use manifest::Manifest;
pub use manifest::ParseError;
pub use model::ItemModel;
pub use options::Command;
pub use options::TableDepsOption;
pub use select::selected_indices;
pub use select::use_default_members;
