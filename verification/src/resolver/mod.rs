pub mod index;
pub mod overlay;
