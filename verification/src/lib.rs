pub mod config;
pub mod errors;
pub mod hist;
pub mod join;
pub mod laws;
pub mod parsing;
pub mod pipeline;
pub mod policy;
pub mod rows;
