//! Verified core of the Claudexor Linux client.
#![allow(unused_imports)]

pub mod sse;
pub mod ui;
pub mod text;
pub mod keyed;
pub mod transcript;
pub mod model;
pub mod state;
pub mod api;
pub mod order;
pub mod prefs;
pub mod board;
pub mod pane;
