pub mod entry;
pub mod error;
pub mod kind;
pub mod mib;
pub mod model;
pub mod names;
pub mod netlink;
pub mod walker;
