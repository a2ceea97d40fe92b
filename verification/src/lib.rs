//! Detects which pages of a revised document differ from a baseline
//! version, locates the best-matching baseline page for each revised page,
//! encodes per-row pixel differences as fractional vertical bands, and
//! plans an annotated copy in which matched-identical pages are deleted
//! and differing pages carry highlight overlays.

pub mod segments;
pub mod raster;
pub mod matcher;
pub mod compare;
pub mod annotate;
pub mod detector;
pub mod batch;
