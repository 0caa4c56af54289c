//! Verified core of the HVAT image streaming backend.

pub mod archive;
pub mod bytes;
pub mod capabilities;
pub mod catalog;
pub mod config;
pub mod connection;
pub mod error;
pub mod frame;
pub mod images;
pub mod inference;
pub mod json;
pub mod loaders;
pub mod mux;
pub mod npy;
pub mod ordering;
pub mod paths;
pub mod pixels;
pub mod plain;
pub mod project_state;
pub mod protocol;
pub mod pyramid;
pub mod sam;
pub mod sam_config;
pub mod startup;
pub mod status;
pub mod streaming;
pub mod text;
pub mod upload;
pub mod upload_flow;
pub mod zip_file;
