//! Embedded UDP-over-WebSocket tunnel client for system WireGuard.
pub mod accepted;
pub mod cli;
pub mod config;
pub mod desktop;
pub mod editor;
pub mod gui;
pub mod handshake;
pub mod layout;
pub mod lifecycle;
pub mod logging;
pub mod macos;
pub mod net;
pub mod numbers;
pub mod outside;
pub mod pieces;
pub mod prepared;
pub mod profiles;
pub mod recovery;
pub mod relay;
pub mod routes;
pub mod system;
pub mod text;
pub mod transport;
pub mod update;
pub mod urls;
pub mod wgconfig;
