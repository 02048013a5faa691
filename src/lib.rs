//! Grid partitioning of raster images: split-line configurations, per-image
//! overrides, pixel boundaries, cell cropping, JPEG export and batch accounting.

pub mod batch;
pub mod cipher;
pub mod config;
pub mod edit;
pub mod export;
pub mod grid;
pub mod line;
pub mod naming;
pub mod raster;
pub mod resolver;

pub use batch::BatchResult;
pub use cipher::{xor_bytes, xor_cipher};
pub use config::SplitConfig;
pub use export::{export_image, ExportError, OutputFile};
pub use grid::{boundaries, cell_rects, CellRect};
pub use line::{LineKind, LinePos};
pub use naming::{cell_file_name, decimal_string, stem_or_default};
pub use raster::ImageSplitter;
pub use resolver::{resolve, resolve_all};
