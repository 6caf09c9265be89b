//! Verified core of an HTTP server that turns shared-album photos into
//! dithered images for e-paper photo frames.

pub mod album;
pub mod alpha;
pub mod background;
pub mod battery_indicator;
pub mod clock;
pub mod color;
pub mod config;
pub mod drawable;
pub mod immich;
pub mod infobox;
pub mod mqtt;
pub mod placement;
pub mod raster;
pub mod request;
pub mod schedule;
pub mod screen_state;
pub mod span;
pub mod text;
pub mod weather;
pub mod webp;
