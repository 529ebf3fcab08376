//! The two basic types of values and their stored forms.

use vstd::prelude::*;
use crate::datatype::{Dataunit, DataunitView};
use crate::le::{le_bytes_u64, le_value_u64};
use crate::utils::{from_bytes, to_bytes};

verus! {

/// A basic type of values.
#[derive(Debug, Clone, Copy, PartialEq, Eq, Structural)]
pub enum Types {
    /// 64-bit integers.
    Int,
    /// Real numbers of double precision.
    Float,
}

impl Types {
    /// The stored form of a value of the type, or nothing for a value of
    /// another type.
    pub open spec fn spec_to_bytes(&self, x: DataunitView) -> Option<Seq<u8>> {
        match (*self, x) {
            (Types::Int, DataunitView::I(v)) => Some(le_bytes_u64(v as u64)),
            (Types::Float, DataunitView::F(v)) => Some(le_bytes_u64(v)),
            _ => None,
        }
    }

    /// The value that the first eight bytes of a block stand for.
    pub open spec fn spec_from_bytes(&self, block: Seq<u8>) -> DataunitView {
        match self {
            Types::Int => DataunitView::I(le_value_u64(block.take(8)) as i64),
            Types::Float => DataunitView::F(le_value_u64(block.take(8))),
        }
    }

    /// Represent `x` as its bytes. In case of mismatch `None` will be
    /// returned.
    pub fn to_bytes(&self, x: &Dataunit) -> (block: Option<Vec<u8>>)
        ensures
            match block {
                Some(b) => Some(b@) == self.spec_to_bytes(x@),
                None => self.spec_to_bytes(x@) is None,
            },
    {
        match self {
            Types::Int => {
                if let Dataunit::I(v) = x {
                    Some(to_bytes(v))
                } else {
                    None
                }
            },
            Types::Float => {
                if let Dataunit::F(v) = x {
                    Some(to_bytes(v))
                } else {
                    None
                }
            },
        }
    }

    /// Represent the first eight bytes of `block` as a value of the type.
    pub fn from_bytes(&self, block: &[u8]) -> (x: Dataunit)
        requires
            block@.len() >= 8,
        ensures
            x@ == self.spec_from_bytes(block@),
    {
        match self {
            Types::Int => match from_bytes::<i64>(block) {
                Some(v) => Dataunit::I(v),
                None => Dataunit::I(0),
            },
            Types::Float => match from_bytes::<u64>(block) {
                Some(v) => Dataunit::F(v),
                None => Dataunit::F(0),
            },
        }
    }
}

} // verus!
