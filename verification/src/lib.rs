//! Verified core of a desktop mockup-generation backend.
//!
//! The library holds the logic of the backend's host operations: system font
//! discovery and normalization, project-relative path resolution, PNG listing,
//! base64 file transfer, and the decision rules around an external rendering
//! pipeline. The surrounding process (the webview shell, dialogs, file and
//! process I/O) hands these functions plain values and acts on what they
//! return.

pub mod codec;
pub mod command;
pub mod dialog;
pub mod fonts;
pub mod paths;
pub mod pipeline;
pub mod png;
pub mod text;
