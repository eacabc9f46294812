//! Recovering on-disk source locations from the instance paths that an
//! embedded scripting runtime prints in its stack traces.
pub mod ordered_map;
pub mod text;
pub mod sourcemap;
pub mod trace;
pub mod options;
