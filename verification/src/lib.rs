//! Keeline: image catalog metadata, validation rules and release planning.
#![allow(unused_imports)]

pub mod text;
pub mod model;
pub mod pattern;
pub mod validate;
pub mod sort;
pub mod discovery;
pub mod output;
pub mod docker;
pub mod cli;
pub mod commands;
pub mod plans;
pub mod matrix;
pub mod summary;
pub mod tools;
pub mod versions;
pub mod declarations;
pub mod checks;
pub mod paths;
