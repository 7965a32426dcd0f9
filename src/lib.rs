pub mod canonical;
pub mod catalog;
pub mod error;
pub mod registry;
pub mod version;
pub mod compiled_class;
