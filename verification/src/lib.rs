//! Mirror of a remote mailbox in a local cache: the cache itself, the rules
//! that keep it in step with the remote change log, and the filtered views
//! that are served from it.

pub mod buckets;
pub mod cache;
pub mod codec;
pub mod compose;
pub mod cursor;
pub mod decimal;
pub mod gate;
pub mod history;
pub mod json;
pub mod listing;
pub mod mirror;
pub mod parser;
pub mod query;
pub mod retry;
pub mod stats;
pub mod status;
pub mod sync;
pub mod table;
pub mod text;
pub mod threads;
pub mod token;
pub mod types;
