//! An offline website mirroring library: URL-to-file mapping, reference
//! extraction and rewriting, crawl bookkeeping and local serving decisions.
pub mod text;
pub mod patterns;
pub mod paths;
pub mod urls;
pub mod utils;
pub mod rewriter;
pub mod keyed;
pub mod downloader;
pub mod job_state;
pub mod crawl;
pub mod bundled_runtimes;
pub mod local_server;
pub mod net_util;
pub mod broken_links;
pub mod desktop;
pub mod progress;
