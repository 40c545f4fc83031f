pub mod api;
pub mod contract;
pub mod data;
pub mod digits;
pub mod errors;
pub mod execution;
pub mod laws;
pub mod msg;
pub mod order;
pub mod query;
pub mod state;
pub mod store;
