//! Common used imports such that `Conn`, `Dataset` and others.

pub use crate::conn::Conn;
pub use crate::dataset::{Dataset, Series};
pub use crate::datatype::{Datatype, Dataunit};
pub use crate::disk::{Action, FileId, Read};
pub use crate::error::Error;
