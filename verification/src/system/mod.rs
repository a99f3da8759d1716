pub mod generation;
pub mod limine;
pub mod records;
pub mod btrfs;
