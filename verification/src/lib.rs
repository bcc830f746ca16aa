//! Core of a hostname-routed reverse proxy for the Minecraft Java-edition
//! protocol: packet framing, handshake parsing, routing, synthetic replies,
//! the PROXY v2 preamble and the per-connection decisions.

pub mod config;
pub mod error;
pub mod handler;
pub mod hostname;
pub mod packet;
pub mod proxy;
pub mod reply;
pub mod servers;
pub mod text;
pub mod varint;
