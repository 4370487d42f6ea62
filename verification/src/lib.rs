//! Score-feed normalisation for a desktop sports bar: strict parsing of the
//! ESPNcricinfo live-scores RSS feed, normalisation of ESPN scoreboard JSON,
//! feed routing and HTTP back-off decisions.

pub mod chars;
pub mod model;
pub mod score;
pub mod url;
pub mod xml;
pub mod cricinfo;
pub mod json;
pub mod espn;
pub mod feed;
pub mod laws;
