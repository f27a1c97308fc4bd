//! The job scheduler: a pool of jobs that depend on each other.

pub mod jobs;
pub mod laws;
pub mod model;
pub mod shifted;
