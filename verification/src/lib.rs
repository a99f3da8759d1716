pub mod text;
pub mod num;
pub mod order;
pub mod compose;
pub mod system;
pub mod commands;
pub mod resolver;
pub mod config;
pub mod fessus;
pub mod pkg;
