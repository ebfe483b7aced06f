//! Brief summaries of the direct dependencies of a project's packages.
//!
//! The library works on a [`Snapshot`] of a resolved dependency graph: it
//! selects the dependencies of a package whose names match a wildcard
//! pattern, and renders them either as an aligned table or as a detailed
//! listing of one package.

pub mod brief;
pub mod matching;
pub mod model;
pub mod render;
pub mod select;

pub use brief::{brief, scopes, Info};
pub use model::{DependencyKind, Error, Node, NodeDep, Package, Snapshot};
pub use render::{detail_text, display_list, display_one, row, summary, table_text};
pub use select::{dependencies, dev_only, member, package, root};


