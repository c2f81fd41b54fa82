pub mod client;
pub mod protocol;
pub mod server;
pub mod startup;
pub mod worker;

pub use protocol::{IpcRequest, IpcResponse};
pub use server::DaemonServer;
