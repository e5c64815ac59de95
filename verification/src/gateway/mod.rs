pub mod audio;
pub mod certs;
pub mod destinations;
pub mod network;
pub mod pages;
pub mod settings;
pub mod system;
pub mod tls;
