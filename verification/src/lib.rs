pub mod error;
pub mod model;
pub mod strmap;
pub mod text;
pub mod time;
pub mod pattern;
pub mod json;
pub mod csvio;
pub mod parser;
pub mod paths;
pub mod filter;
pub mod stats;
pub mod diagnostics;
pub mod input;
pub mod report;
pub mod cli;
pub mod console;
