pub mod models;
pub mod utils;
