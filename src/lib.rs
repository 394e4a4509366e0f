//! A reverse proxy core: mock lookup, upstream forwarding, header policy,
//! exchange logging and exchange recording, all as verified functions over
//! plain values. The transport (HTTP server and client) and the file system
//! stay with the caller.

pub mod text;
pub mod mock;
pub mod headers;
pub mod request;
pub mod logger;
pub mod recorder;
pub mod dispatch;
