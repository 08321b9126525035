pub mod bindings;
pub mod tree;
