pub mod codec;
pub mod metrics;
pub mod net;
pub mod peer;
pub mod platform;
pub mod router;
pub mod tun;
pub mod types;
