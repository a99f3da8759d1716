pub mod schema;
pub mod generate;
