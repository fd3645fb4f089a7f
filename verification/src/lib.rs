//! Planning, scoring, exam and resource-library logic of the IB 45 Coach.
use vstd::prelude::*;

pub mod ai;
pub mod calendar;
pub mod encoding;
pub mod exam;
pub mod models;
pub mod path_safety;
pub mod profile;
pub mod resources;
pub mod scoring;
pub mod store;
pub mod text;
