pub mod appconfig;
pub mod authserver;
pub mod codec;
pub mod endpoint;
pub mod handler;
pub mod router;
pub mod tables;
