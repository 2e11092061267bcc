//! Building blocks for correlating two audio channels in the frequency
//! domain: choosing a transform length, padding signals, and reading a
//! circular correlation by signed lag.

pub mod complex;
pub mod correlation;
pub mod lag_window;
pub mod padding;
pub mod plan;
pub mod smooth;
pub mod transform_length;
