//! Sharing text and files between a phone and a computer in the same network.
//!
//! One side runs a small web server and shows its URL as a QR code; the other side scans
//! it. This crate holds what the command-line tool ([`cli`]) and the desktop and mobile
//! application ([`server`]) decide and compute: pages, headers, names, URLs, the reception
//! of uploads. Sockets, files and processes are handled by the programs around it.
pub mod base64_text;
pub mod cli;
pub mod clipboard;
pub mod content_uri;
pub mod disposition;
pub mod escape;
pub mod mask;
pub mod names;
pub mod network;
pub mod pages;
pub mod qr;
pub mod server;
pub mod text;
pub mod upload;
