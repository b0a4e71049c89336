//! Locating a small pixel-art pattern inside a large raster image, and the
//! bookkeeping that replays a stream of drawing records onto a growing canvas.
//!
//! Scanning: `color_utils` compares colors within a tolerance, `raster` holds
//! images, `config` the tolerances, and `pixel_art` extracts a template with
//! its boundary from a reference image and finds it in a source image.
//!
//! Replay: `record` and `fields` describe and read drawing records,
//! `parser_image` paints them onto a canvas that grows as needed, and
//! `parser` decides when a snapshot of the canvas is due.

pub mod color_utils;
pub mod config;
pub mod fields;
pub mod parser;
pub mod parser_config;
pub mod parser_image;
pub mod pixel_art;
pub mod raster;
pub mod record;

pub use color_utils::{safe_abs, Color, ColorUtils};
pub use config::Config;
pub use fields::{
    parse_color, parse_coordinate, parse_i32, parse_timestamp, parse_u32, split_fields, FieldError,
    TIMESTAMP_FORMAT,
};
pub use parser::{seconds_between, ParseError, Parser};
pub use parser_config::{OnError, ParserConfig};
pub use parser_image::{ImageExpansionOffset, ParserImage};
pub use pixel_art::{PixelArt, PixelArtError};
pub use raster::Raster;
pub use record::{Coordinate, Record};
