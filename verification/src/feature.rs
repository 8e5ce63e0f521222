//! Continuous feature state, its reducers, and the runtime that owns them.

pub mod bev;
pub mod camera;
pub mod controllers;
pub mod domain;
pub mod domain_runtime;
pub mod id_map;
pub mod name_map;
pub mod performance;
pub mod point_cloud;
pub mod runtime;
pub mod schedule;
pub mod telemetry;
pub mod transform;
