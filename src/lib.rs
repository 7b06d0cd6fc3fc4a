//! A camera's devices and bring-up scripts exposed as a tree of named nodes
//! that can be tested for being a directory, read and written by path.

pub mod camera;
pub mod decimal;
pub mod device;
pub mod error;
pub mod front;
pub mod laws;
pub mod memory;
pub mod pll;
pub mod registry;
pub mod script;
