pub mod query_engine;
pub mod walking_engine;
