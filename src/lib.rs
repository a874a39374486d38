//! Exact Bézier curve algebra over integer coordinates: evaluation, subdivision,
//! derivatives, and the polynomial machinery behind cubic curve intersection.
//!
//! Every function is verified against its contract. Values are `i128`; each function states,
//! as a precondition, the range of inputs for which its exact result and every intermediate
//! value stay representable.

pub mod casteljau;
pub mod coeffs;
pub mod curve;
pub mod geometry;
pub mod implicit;
pub mod intersect;
pub mod polynomial;
