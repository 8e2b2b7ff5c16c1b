//! Rendering helpers: formatting shared by the UI and the exporter.

pub mod format;
pub mod settings;
pub mod ui_view;
