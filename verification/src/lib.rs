//! The logic of a Hentai@Home client: what it caches, what it answers, what it asks of the server
//! and when it gives up.

pub mod text;
pub mod digest;
pub mod util;
pub mod url;
pub mod error;
pub mod logger;
pub mod metrics;
pub mod file_reader;
pub mod middleware;
pub mod client;
pub mod rpc;
pub mod rpc_http_client;
pub mod server;
pub mod route;
pub mod gallery_downloader;
pub mod params;
pub mod cache_file;
pub mod cache_manager;
