//! The token and syntax-tree models.

pub mod nodes;
pub mod render;
pub mod tokens;
