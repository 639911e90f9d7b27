//! Contrast ratios and the WCAG levels they reach.

pub mod compliance;
pub mod ratio;
pub mod report;

pub use compliance::WcagCompliance;
