//! A scraper and normalizer for the Prometheus text exposition format: a
//! verified decoder of expositions, the decisions of the scrape pipeline, and
//! the relational normalization of samples into interned series.
use vstd::prelude::*;

pub mod fetch;
pub mod grammar;
pub mod http;
pub mod laws;
pub mod model;
pub mod normalize;
pub mod parse;
pub mod render;
pub mod pipeline;
pub mod roundtrip;
pub mod sql;
pub mod text;

pub use normalize::Exporter;

verus! {

/// The settings of a scraper.
pub trait Args {
    /// The (host, port) address that the status server listens on.
    fn addr(&self) -> (&str, u16);

    fn instance(&self) -> Option<&str>;

    fn job(&self) -> Option<&str>;

    /// How often the target is scraped.
    fn interval(&self) -> core::time::Duration;

    /// How many scrapes are held before new ones are dropped.
    fn buffer(&self) -> usize;

    /// The URL of the endpoint to scrape, or `-` for the standard input.
    fn target(&self) -> &str;
}

} // verus!
