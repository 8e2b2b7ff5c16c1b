//! mbshark2: capture and display of Modbus RTU traffic on a serial line.
//!
//! - [`protocol`]: Modbus RTU framing, CRC, and PDU decoding for all FCs.
//! - [`capture`]: RTU frame assembly (length+CRC split primary, 3.5-char gap
//!   fallback), serial settings, and the capture engine.
//! - [`session`]: request/response pairing + timeout/orphan state machine.
//! - [`render`]: text formatting shared by the UI and the export, the settings
//!   panel and the capture list.
//! - [`config`], [`export`], [`app`]: saved settings, plain-text export and the
//!   state of the application.
//! - [`text`], [`time`]: building blocks.

pub mod app;
pub mod capture;
pub mod config;
pub mod export;
pub mod protocol;
pub mod render;
pub mod session;
pub mod text;
pub mod time;
