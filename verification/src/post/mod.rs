//! Post-processing passes over finished maps.

pub mod flood;
