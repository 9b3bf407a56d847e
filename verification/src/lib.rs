//! Conversion of single-channel video frames into signed-distance-style
//! gradient fields, packaged as compressed, base64-encoded records with
//! spiral placement metadata.

pub mod command;
pub mod config;
pub mod error;
pub mod functions;
pub mod monoframe;
pub mod monovideo;
pub mod output;
pub mod sdf;
pub mod spiral;
pub mod text;
