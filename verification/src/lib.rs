pub mod channel;
pub mod channel_member;
pub mod config;
pub mod core_data;
pub mod logger;
pub mod net;
pub mod p10;
pub mod plugin;
pub mod protocol;
pub mod server;
pub mod user;
pub mod utils;
