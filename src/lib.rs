//! Seismic early-warning fan-out: geohash cells, subscription index,
//! dispatch decisions and feed message classification.

pub mod geohash;
pub mod models;
pub mod store;
pub mod intensity;
pub mod coords;
pub mod request;
pub mod dispatch;
pub mod notify;
pub mod ingest;
