//! Verified core of a wildfire map service: periodic task scheduling,
//! captcha bookkeeping, feed parsers and filters, the wind raster's coverage
//! and packing rules, and the validation and bookkeeping of user reports and
//! shelters.

pub mod scheduler;
pub mod util;
pub mod captcha;
pub mod text;
pub mod number;
pub mod active_fire;
pub mod station_table;
pub mod wind;
pub mod cctv;
pub mod fire_event;
pub mod forecast;
pub mod feed;
pub mod report;
pub mod shelter;
pub mod danger_place;
