//! Mangalize: turning folders of scraped manga images into readable volumes.
pub mod batch;
pub mod cli;
pub mod compress;
pub mod export;
pub mod fetch;
pub mod library;
pub mod meta;
pub mod natsort;
pub mod order;
pub mod page;
pub mod project;
pub mod reader;
pub mod scan;
pub mod send;
pub mod settings;
pub mod sieve;
pub mod tasks;
pub mod text;
pub mod update;
pub mod writers;
