//! Core logic of the new-releases service: building the Spotify requests,
//! reading the library pages, counting artists, turning album records into
//! dated tracks and rendering the final report.

pub mod text;
pub mod json;
pub mod artists;
pub mod dates;
pub mod tracks;
pub mod report;
pub mod urls;
pub mod request;
pub mod auth;
pub mod db;
