//! Block acceptance for a GHOSTDAG block DAG: headers are committed only
//! after all their parents, headers that arrive before a parent wait in an
//! orphan pool, and every table has a byte codec that reads back what it
//! wrote.
pub mod codec;
pub mod schema;
pub mod types;
pub mod tables;
pub mod stores;
pub mod orphans;
pub mod blockdag;
