//! Dispatch of long-running device operations and the status they drive.
//!
//! A [`dispatch::Dispatcher`] admits at most one operation at a time and filters
//! the events that the operation streams back; a [`status::Status`] is folded
//! from those events and decides which user actions are enabled.
pub mod config;
pub mod controller;
pub mod event;
pub mod status;
pub mod dispatch;
