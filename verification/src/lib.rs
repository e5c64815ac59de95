pub mod atak;
pub mod gateway;
pub mod text;
pub mod vpn;
