//! On-device text detection and recognition over screen captures.
//!
//! The crate holds the integer side of the pipeline: image buffers, the
//! geometry of detected regions, the ordering of network scores, and the
//! bookkeeping of a recognition pass. Every function states what it returns
//! in its contract.

pub mod binary32;
pub mod error;
pub mod geometry;
pub mod models;
pub mod ocr;
pub mod raster;

pub use crate::error::Error;
pub use crate::models::{OcrBox, Todo};
pub use crate::ocr::pp_ocr::detect;
pub use crate::ocr::{image_buffer_to_base64, run_ocr, try_run_ocr};
