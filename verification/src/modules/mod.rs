pub mod custom;
pub mod grammar;
pub mod schema;
