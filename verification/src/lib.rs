//! Hurl file model, parser and serializer, the run and report logic of a Hurl test runner,
//! and the editing state of its desktop client.

pub mod text;
pub mod num;
pub mod model;
pub mod parser;
pub mod serializer;
pub mod json;
pub mod builder;
pub mod models;
pub mod pairs;
pub mod report;
pub mod entries;
pub mod assertions;
pub mod execution;
pub mod envfile;
pub mod api;
pub mod filetree;
pub mod round_trip;
pub mod readback;
pub mod desktop;
