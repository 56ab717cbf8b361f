//! Strings used in the UI, in the deployment's language.

/// Strings used in the tablet management window.
pub mod manager;

/// Strings used in the device selection window.
pub mod selector;

/// Strings used in the area selection window.
pub mod area;

/// Strings used in the bitmap printing menu.
pub mod bitmap;

/// Strings used in error messages.
pub mod errors;
