//! Binding generation for Lua modules: classifies the items of a module,
//! assembles the namespace and metatable mappings, and renders the glue code
//! that installs them.
pub mod classify;
pub mod emit;
pub mod generate;
pub mod laws;
pub mod model;
pub mod module;
pub mod object;
pub mod table;
