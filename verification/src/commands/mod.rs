pub mod purge;
pub mod rollback;
pub mod switch;
pub mod diff;
pub mod active;
pub mod boot;
pub mod isolate;
pub mod lock;
pub mod edit;
pub mod get;
pub mod doctor;
pub mod check;
pub mod network;
pub mod spore;
pub mod guide;
pub mod theme;
pub mod users;
