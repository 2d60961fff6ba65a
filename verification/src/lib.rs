//! The logic of two Core Lightning plugins: an exporter of Prometheus metrics, and a history of the
//! node's channels.

pub mod accounting;
pub mod activity;
pub mod admission;
pub mod answers;
pub mod browse;
pub mod census;
pub mod channels;
pub mod clock;
pub mod conformance;
pub mod continuity;
pub mod display;
pub mod event_metrics;
pub mod events;
pub mod exporter;
pub mod exposition;
pub mod gauges;
pub mod happenings;
pub mod history;
pub mod identities;
pub mod integrity;
pub mod json;
pub mod likeness;
pub mod listing;
pub mod lookups;
pub mod model;
pub mod node;
pub mod ordered;
pub mod paging;
pub mod plugin_metrics;
pub mod probes;
pub mod queries;
pub mod readings;
pub mod recording;
pub mod reports;
pub mod requests;
pub mod retrieval;
pub mod scrape;
pub mod selection;
pub mod sightings;
pub mod sorting;
pub mod spelling;
pub mod stocktaking;
pub mod store;
pub mod tallies;
pub mod text;
pub mod totals;
pub mod upkeep;
pub mod wording;
