pub mod completion;
pub mod components;
pub mod error;
pub mod pool;
pub mod registry;
pub mod store;
