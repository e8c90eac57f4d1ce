//! Generating the code of the bindings.

pub mod python;
pub mod utils;
pub mod variable_path;
