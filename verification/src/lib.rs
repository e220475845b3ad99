pub mod text;
pub mod model;
pub mod paths;
pub mod caddyfile;
pub mod roundtrip;
pub mod app;
pub mod installer;
pub mod cli;
pub mod keys;
