//! Firework: a declarative user-interface core.
//!
//! Each frame the application describes its interface as a tree of
//! [`element::Element`] values.  The crate lays the tree out into absolute
//! boxes and decides which retained backend objects have to be created,
//! updated or destroyed so that the backend shows the new tree.
//!
//! All lengths are whole logical units; fractions (scale factors) are
//! expressed in thousandths.  Every executable function is verified against
//! a mathematical model given by the `spec` functions next to it.

pub mod element;
pub mod layout;
pub mod geometry;
pub mod flow;
pub mod engine;
pub mod backend;
pub mod moon_bridge;
pub mod signals;
pub mod widget_tree;
pub mod frames;
