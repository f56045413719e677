pub mod bytes;
pub mod cbor;
pub mod commands;
pub mod constants;
pub mod core_api;
pub mod crypto;
pub mod dispatcher;
pub mod status;
pub mod user_presence;
