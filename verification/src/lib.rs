//! An entity-component store: entity identities that survive churn, a registry of
//! runtime-described component types, and columnar and sparse storage for their values.
//!
//! The store is in `entity`, `component`, `column`, `archetype`, `tables`, `sparse_set`
//! and `world`; `laws` holds what is proved of every world, and `ffi` the store as
//! functions of primitive values. The other modules hold what the renderer and the
//! asset loaders that are built on the store decide: which passes run, which cameras
//! are updated, what a file becomes.

pub mod archetype;
pub mod audio_source;
pub mod camera;
pub mod column;
pub mod component;
pub mod entity;
pub mod ffi;
pub mod hdr_texture_loader;
pub mod image_texture_loader;
pub mod laws;
pub mod main_pass_driver;
pub mod mipmap_queue;
pub mod shader;
pub mod sparse_set;
pub mod tables;
pub mod upscale_pass;
pub mod world;
