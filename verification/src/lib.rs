//! A first-person raycasting renderer whose wall texture is driven in real
//! time by audio samples, captured live or decoded from a waveform file.
//!
//! Two independently clocked subsystems meet here: a fixed-size-frame
//! audio pipeline (the [`engine`]) and a per-frame visual pipeline (the
//! [`raycast`] traversal, [`texture`], and [`render`] emission), coupled
//! through bounded non-blocking queues ([`channel`], [`history`]) so that
//! neither side ever blocks the other. Continuous quantities - positions,
//! directions, distances, normalized samples - are Q16.16 [`fixed`]-point
//! integers throughout.

pub mod channel;
pub mod commands;
pub mod engine;
pub mod fixed;
pub mod grid;
pub mod history;
pub mod player;
pub mod raycast;
pub mod render;
pub mod ring;
pub mod source;
pub mod texture;
