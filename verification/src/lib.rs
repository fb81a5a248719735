//! Verified core of enderpearl: the Minecraft wire codec, handshake parsing,
//! protocol detection, configuration conversion and route planning.

pub mod errors;
pub mod minecraft;
pub mod mc;
pub mod routing;
pub mod text;
pub mod protocols;
pub mod config;
pub mod router;
pub mod cli;
pub mod display;
