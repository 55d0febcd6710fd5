//! Raw-photo development: the discrete core of a RAW developer.
//!
//! The library holds the parts of the pipeline that decide and index:
//! colour-filter-array geometry, active-area cropping, neighbourhood
//! selection for demosaicing, colour-matrix and DCP profile planning,
//! 3-D look-up-table addressing and PPM framing.

pub mod cfa;
pub mod color;
pub mod dcp;
pub mod decode;
pub mod demosaic;
pub mod output;

