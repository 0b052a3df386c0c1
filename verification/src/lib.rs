//! Core of a tick-driven application loop: a stage scheduler that runs named
//! units of work in dependency order, and a progress-tracked loading state
//! machine that aggregates completion and failure over a set of nested load
//! jobs discovered at runtime.

pub mod app_loop;
pub mod loading;
pub mod progress;
pub mod loader;
pub mod schedule;
pub mod tag_index;
pub mod world;
