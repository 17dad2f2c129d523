//! Declarative asset fetching and placement.
//!
//! A manifest is a tree of items. Each item fetches content into a fresh
//! temporary workspace, may build it there, and copies chosen assets into a
//! destination directory; its children take that destination as their base.
//! This library holds the model of the manifest, the path arithmetic, the
//! plan that the tree walk produces, and the per-step decisions. Performing
//! the steps (temporary directories, shell commands, copies) is left to the
//! program that drives the plan.
pub mod manifest;
pub mod path;
pub mod plan;
pub mod policy;
pub mod walk;
