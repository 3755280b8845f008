//! A Whitted-style ray tracer over fixed-point arithmetic.
//!
//! Every scalar in the library is a signed 64-bit fixed-point number with
//! [`math::FX_ONE`] (2^20) standing for one. Arithmetic saturates at
//! [`math::FX_MAX`] / [`math::FX_MIN`] instead of wrapping, and every
//! operation is specified exactly by a spec function, so the whole pipeline
//! — quadratic root solving, sphere intersection, nearest-hit selection,
//! shading, and the render driver — is deterministic and verified against
//! its mathematical model.

pub mod geometry;
pub mod math;
pub mod scene;
pub mod trace;
