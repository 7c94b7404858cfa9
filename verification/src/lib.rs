//! A documentation service core: composite keys for remotely hosted
//! documentation pages, the page content, and a partitioned cache of pages
//! that is persisted as one shard file per crate.
//!
//! The library holds the rules and leaves input and output to its user:
//!
//! - [`cache`]: the table in memory, the keys under which pages are stored
//!   on disk, and the cache with its operations;
//! - [`shard`]: the persistent form of a table, what a save writes and
//!   removes, and what a load builds from the files it read;
//! - [`docs_parser`]: page parameters and content, the address of a page
//!   and the reading of a server's reply;
//! - [`mcp`]: the fetcher that answers from the cache and stores what was
//!   fetched;
//! - [`text`] and [`assoc`]: strings as character sequences, and lists of
//!   pairs as maps.

pub mod assoc;
pub mod cache;
pub mod docs_parser;
pub mod mcp;
pub mod shard;
pub mod text;
