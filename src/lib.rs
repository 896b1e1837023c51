//! A local IPTV catalog: playlist and provider-API ingestion, a catalog store
//! with refresh that keeps user state, and a paginated search over it.
pub mod kinds;
pub mod text;
pub mod types;
pub mod store;
pub mod m3u;
pub mod numeric;
pub mod query;
pub mod xtream;
pub mod utils;
pub mod settings;
