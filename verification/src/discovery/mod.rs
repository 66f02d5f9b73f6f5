pub mod client;
pub mod database;
pub mod frame;
pub mod request;
pub mod server;
pub mod server_settings;

pub use database::Database;
pub use frame::Frame;
pub use request::{Request, Response};
pub use server_settings::ServerSettings;
