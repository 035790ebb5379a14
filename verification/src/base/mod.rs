//! Core value types shared by the configuration and parsing layers.

pub mod dag;
pub mod duration;
pub mod job;
pub mod retry;
pub mod schedule;
