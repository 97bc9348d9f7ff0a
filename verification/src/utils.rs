//! Building blocks that do not depend on the traversal.

pub mod closure;
