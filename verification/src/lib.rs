//! Contrast checking for pairs of colours against the WCAG thresholds.

pub mod colour;
pub mod text;
pub mod wcag;
