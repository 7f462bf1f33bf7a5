//! The optimisation engine's decision logic: the percentage-based
//! compression model, media classification, argument construction for the
//! external encoders, filename templates, share presets and the byte-level
//! metadata editors.

pub mod text;
pub mod compression;
pub mod filetype;
pub mod paths;
pub mod audio;
pub mod tools;
pub mod result;
pub mod effects;
pub mod image;
pub mod share;
pub mod video;
pub mod numbers;
pub mod update;
pub mod web;
pub mod privacy;
pub mod cache;
pub mod crop;
pub mod template;
pub mod guard;
pub mod render;
pub mod config;
pub mod store;
pub mod pipeline;
pub mod budget;
pub mod cli;
pub mod pdf;
