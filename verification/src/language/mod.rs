pub mod js_spec;
pub mod lang;
pub mod language_spec;
pub mod rust_spec;
pub mod spec_pool;
pub mod ts_spec;
