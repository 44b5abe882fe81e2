//! A store of Kubernetes client configurations: named kubeconfig entries,
//! the labels attached to them, and the selectors that query those labels.

pub mod cmd;
pub mod config;
pub mod error;
pub mod kubeconfig;
pub mod metadata;
pub mod string_map;
pub mod text;

pub use error::Error;
