//! Registry indexing and name derivation for a Vulkan-style API specification
//! tree: sorted lookup indices over the tree's top-level nodes, aggregation of
//! extension-contributed enumerants by the enum group they extend, and the
//! derivation of short, idiomatic type and variant identifiers from the
//! verbose vendor-prefixed names in the specification.

pub mod lex;
pub mod ordmap;
pub mod model;
pub mod kind;
pub mod tags;
pub mod names;
pub mod context;

