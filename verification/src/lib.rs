pub mod cache;
pub mod codec;
pub mod config;
pub mod executor;
pub mod locator;
pub mod manifests;
pub mod namer;
pub mod planner;
pub mod prompts;
pub mod safety;
pub mod strutil;
pub mod tree;
pub mod ui;
