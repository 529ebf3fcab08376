//! `lbasedb` is the core of an embedded, append-oriented columnar data engine
//! for wide and long tables of simple fixed-width values.
//!
//! The crate is a functional core: it owns the catalogs, the binary codecs
//! and every decision of the engine, and it never touches the file system.
//! Each operation that changes the stored data returns a plan, a list of
//! [`disk::Action`]s, which a driver carries out on the directory of the
//! connection. Each operation that reads the stored data tells the driver
//! what to read and decodes the bytes that the driver hands back.

pub mod col;
pub mod conn;
pub mod conn_data;
pub mod dataset;
pub mod datatype;
pub mod disk;
pub mod error;
pub mod heap;
pub mod ieee;
pub mod items;
pub mod laws;
pub mod laws_catalog;
pub mod le;
pub mod list;
pub mod lookup;
pub mod mgr;
pub mod prelude;
pub mod seq;
pub mod series;
pub mod types;
pub mod utils;

pub use crate::error::Error;
