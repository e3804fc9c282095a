//! A toolkit for fisheye photos taken with the Laowa 8-15mm lens.
//!
//! Every operation is the same backward remap: for each output pixel, find the
//! source point and sample it. The library holds that engine and the rules
//! around it. Angles and distances that take trigonometry are worked out by the
//! caller, who hands them in as closures, whole pixels or decimal numerals.
//!
//! - [`raster`]: photos, canvases, sampling and the remap itself
//! - [`circle`]: the image circle of a photo
//! - [`lens`]: the lens model and the focal length that a circle gives away
//! - [`warp`]: `refish` and `tunnel`
//! - [`animate`]: the frames from fisheye to flat, their files and videos
//! - [`projection`], [`body`], [`metadata`], [`stamp`], [`plan`]: what a run goes
//!   by, from the command line, the camera and EXIF
//! - [`output`]: file names, JPEG files and the settings recorded in them
//! - [`cli`]: the default subcommand
//! - [`text`], [`sorting`]: tools

pub mod animate;
pub mod body;
pub mod circle;
pub mod cli;
pub mod lens;
pub mod metadata;
pub mod output;
pub mod plan;
pub mod projection;
pub mod raster;
pub mod sorting;
pub mod stamp;
pub mod text;
pub mod warp;
