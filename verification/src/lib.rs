//! Core of a web-novel volume downloader: content classification for the
//! fetch layer, HTML content extraction, paragraph-order restoration,
//! a substitution-cipher text decoder, image normalization, and a
//! zip/XML e-book package builder.

pub mod client;
pub mod config;
pub mod downloader;
pub mod epub_builder;
pub mod error;
pub mod model;
pub mod paragraph_restorer;
pub mod parse;
pub mod secret;
pub mod text;
pub mod utils;
