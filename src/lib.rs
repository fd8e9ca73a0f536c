//! System and per-application memory reporting: application names are
//! normalized, process memory is grouped and ranked by application, and the
//! figures of the report (percentages, bars, pressure levels) are computed
//! exactly in integers.

pub mod aggregate;
pub mod count;
pub mod normalize;
pub mod report;
pub mod scale;
pub mod text;
