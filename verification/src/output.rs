//! Output adapters: the rules that shape what is pushed to external systems.
pub mod prometheus;
pub mod health;
pub mod registry;
pub mod adapter;
pub mod detections;
