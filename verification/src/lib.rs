//! Converts a Markdown document into one self-contained piece of HTML: each
//! raster image that the document names by a relative path is embedded as a
//! data URI, each SVG image is embedded as markup, and the HTML is written
//! out normalized.
//!
//! The library reads no file itself. A conversion is a machine
//! ([`inliner::Conversion`]) that names the file it needs next; whoever
//! drives it reads the file and hands the content back.

pub mod cluster;
pub mod error;
pub mod html;
pub mod inliner;
pub mod markdown;
pub mod normalize;
pub mod paths;
pub mod reference;
pub mod text;

pub use cluster::{get_params_schema, process_cluster};
