//! Carbon: the verified core of a broker-based payment system.

pub mod account;
pub mod commit;
pub mod crypto;
pub mod data;
pub mod database;
pub mod directory;
pub mod discovery;
pub mod executables;
pub mod external;
pub mod prepare;
pub mod time;
pub mod view;
