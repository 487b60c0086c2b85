//! The discrete core of a Monte-Carlo path tracer.
//!
//! A path tracer spends its time in floating-point geometry, but what it
//! decides is discrete: when a light path ends and how its colour is put
//! together, how many samples a pixel gets, which of several hits is the
//! nearest, where a pixel lives in the image buffer, which vertices of a
//! model make a triangle. Those decisions are collected here, each with a
//! contract; the numeric kernel that feeds them belongs to the application.
//!
//! - [`raytracing`]: light paths, the nearest hit, the crossing of a sphere
//!   that counts.
//! - [`camera`]: the image buffer, the sample count of a pixel, the seeds
//!   of the workers.
//! - [`obj_loader`]: meshes from Wavefront text.

pub mod camera;
pub mod obj_loader;
pub mod raytracing;
