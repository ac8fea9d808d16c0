//! Porosity analysis of greyscale micrographs: thresholding, 8-connected
//! component labelling of both polarities, size-based classification of
//! pixels into pores and material, and the resulting density reading.

pub mod classify;
pub mod density;
pub mod export;
pub mod labeling;
pub mod pipeline;
pub mod raster;
pub mod records;
