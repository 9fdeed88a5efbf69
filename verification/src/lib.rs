//! Core of a plugin-driven scene graph: the node hierarchy and its
//! world-transform pass, the per-drawable instance lists, the scene
//! directory that answers plugin requests, and the plugin tick protocol.

pub mod drawable;
pub mod error;
pub mod matrix;
pub mod message;
pub mod model;
pub mod node;
pub mod package;
pub mod plugin;
pub mod scene;
pub mod script;
pub mod wire;
