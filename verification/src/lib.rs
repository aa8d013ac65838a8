//! Converts transit-line metadata (lines, route sections, stop sequences,
//! timetables) into the GTFS static feed file set.
//!
//! The two substantial pieces are the geospatial route graph, which
//! reconstructs a physical shape between two stops from raw line-geometry
//! fragments, and the GTFS assembler, which maps the upstream records into
//! the seven GTFS tables with deterministic identifiers and deduplication.
//! Coordinates are fixed-point integers (ten-thousandths of a degree), so
//! vertex identity and distance comparisons are exact.

pub mod batch;
pub mod format;
pub mod geometry;
pub mod graph;
pub mod gtfs;
pub mod line;
pub mod strutil;
