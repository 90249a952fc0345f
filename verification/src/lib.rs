pub mod cachepath;
pub mod classify;
pub mod diff;
pub mod generator;
pub mod indices;
pub mod model;
pub mod strutil;
pub mod tables;
pub mod themes;
pub mod urls;
