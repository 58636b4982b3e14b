//! The dashboard: what is selected, and what is shown.
pub mod app;
pub mod views;
