//! Core of a shared vector-drawing editor: strokes, reversible edit actions
//! with undo and redo, hit-testing, and the message protocol that peers use
//! to tell each other about committed edits.
//!
//! Everything here works on whole canvas units. Floating-point input,
//! sockets and painting belong to the embedding application.

pub mod models;
pub mod order;
pub mod store;
pub mod geometry;
pub mod history;
pub mod network;
pub mod app;
pub mod editing;
pub mod sync;
pub mod interaction;
