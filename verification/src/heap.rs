//! File-based heap allocator.
//!
//! This module plans a simple heap that allocates, resizes, writes, and
//! reads variable-sized memory blocks within a file. Each allocated block
//! is sized to the next power of two to minimize fragmentation. Blocks are
//! managed without free-space reuse.

use vstd::prelude::*;
use crate::disk::{Action, ActionView, FileId, Read, ReadView};
use crate::error::Error;

verus! {

/// Whether a number is a power of two.
pub open spec fn is_power_of_two(p: u64) -> bool {
    p > 0 && p & sub_one(p) == 0
}

/// The number before a number that is not 0.
pub open spec fn sub_one(p: u64) -> u64 {
    (p - 1) as u64
}

/// Whether `p` is the smallest power of two that is no less than `size`.
pub open spec fn is_next_power_of_two(size: u64, p: u64) -> bool {
    &&& is_power_of_two(p)
    &&& size <= p
    &&& p == 1 || p / 2 < size
}

/// Only one number is the smallest power of two that is no less than
/// `size`.
pub proof fn lemma_next_power_of_two_is_one(size: u64, p: u64, q: u64)
    requires
        is_next_power_of_two(size, p),
        is_next_power_of_two(size, q),
    ensures
        p == q,
{
    assert(p == q) by (bit_vector)
        requires
            p > 0 && p & ((p - 1) as u64) == 0,
            q > 0 && q & ((q - 1) as u64) == 0,
            size <= p && (p == 1 || p / 2 < size),
            size <= q && (q == 1 || q / 2 < size),
    ;
}

/// The smallest power of two that is no less than `size`.
pub open spec fn spec_next_power_of_two(size: u64) -> u64 {
    choose|p: u64| is_next_power_of_two(size, p)
}

/// The smallest power of two that is no less than `size`, where a `u64`
/// holds it.
pub fn next_power_of_two(size: u64) -> (res: Option<u64>)
    ensures
        res is Some <==> size <= 0x8000_0000_0000_0000,
        res is Some ==> is_next_power_of_two(size, res->0) && res->0 == spec_next_power_of_two(
            size,
        ),
{
    if size > 0x8000_0000_0000_0000 {
        return None;
    }
    let mut p: u64 = 1;
    assert(1u64 & ((1u64 - 1) as u64) == 0) by (bit_vector);
    while p < size
        invariant
            size <= 0x8000_0000_0000_0000,
            is_power_of_two(p),
            p == 1 || p / 2 < size,
        decreases 0x8000_0000_0000_0000 - p,
    {
        assert(p <= 0x4000_0000_0000_0000 && ((2 * p) as u64) & (((2 * p) as u64 - 1) as u64) == 0)
            by (bit_vector)
            requires
                p > 0,
                p & ((p - 1) as u64) == 0,
                p < 0x8000_0000_0000_0000,
        ;
        p = 2 * p;
    }
    proof {
        lemma_next_power_of_two_is_one(size, p, spec_next_power_of_two(size));
    }
    Some(p)
}

/// Describes a memory block in the file-backed heap.
///
/// Contains the block's file offset, current size, and maximum allocated
/// size.
#[derive(Debug, Clone, Copy, PartialEq, Eq)]
pub struct HeapItem {
    /// The offset of the block in the file.
    pub offset: u64,
    /// The size of the data of the block.
    pub size: u64,
    /// The size that the block was allocated with.
    pub maxsize: u64,
}

/// File-backed heap allocator.
///
/// Manages variable-sized memory blocks within a file.
#[derive(Debug)]
pub struct Heap {
    /// The file of the heap.
    pub file: FileId,
}

impl Heap {
    /// A heap in the given file.
    pub fn new(file: FileId) -> (heap: Heap)
        ensures
            heap.file == file,
    {
        Heap { file }
    }

    /// Returns the current size of a heap file of `len` bytes, where a
    /// `usize` holds it.
    pub fn size(&self, len: u64) -> (size: Option<usize>)
        ensures
            size is Some <==> len <= usize::MAX,
            size is Some ==> size->0 == len,
    {
        if len > usize::MAX as u64 {
            None
        } else {
            Some(len as usize)
        }
    }

    /// Allocates a new memory block of the given size at the end of a heap
    /// file of `len` bytes: the block, and the action that makes room for
    /// it.
    pub fn allocate(&self, len: u64, size: u64) -> (res: Result<(HeapItem, Action), Error>)
        ensures
            res is Ok <==> size <= 0x8000_0000_0000_0000 && len + spec_next_power_of_two(size)
                <= u64::MAX,
            res matches Ok(made) ==> {
                &&& made.0 == (HeapItem {
                    offset: len,
                    size,
                    maxsize: spec_next_power_of_two(size),
                })
                &&& is_next_power_of_two(size, made.0.maxsize)
                &&& made.1@ == ActionView::Resize(self.file@, (len + made.0.maxsize) as u64)
            },
            res is Err ==> res->Err_0 == Error::IoFailure,
    {
        let maxsize = match next_power_of_two(size) {
            Some(maxsize) => maxsize,
            None => {
                return Err(Error::IoFailure);
            },
        };
        if maxsize > u64::MAX - len {
            return Err(Error::IoFailure);
        }
        Ok(
            (
                HeapItem { offset: len, size, maxsize },
                Action::Resize(self.file.copy(), len + maxsize),
            ),
        )
    }

    /// Resizes the memory block. Reallocates at the end of a heap file of
    /// `len` bytes if the new size exceeds the block's capacity.
    pub fn realloc(&self, item: &mut HeapItem, len: u64, size: u64) -> (res: Result<
        Option<Action>,
        Error,
    >)
        ensures
            size <= old(item).maxsize ==> res == Ok::<Option<Action>, Error>(None) && *final(item)
                == (HeapItem { size, ..*old(item) }),
            size > old(item).maxsize ==> (res is Ok <==> size <= 0x8000_0000_0000_0000 && len
                + spec_next_power_of_two(size) <= u64::MAX),
            size > old(item).maxsize && res is Ok ==> {
                &&& res->Ok_0 is Some
                &&& *final(item) == (HeapItem {
                    offset: len,
                    size,
                    maxsize: spec_next_power_of_two(size),
                })
                &&& res->Ok_0->0@ == ActionView::Resize(
                    self.file@,
                    (len + final(item).maxsize) as u64,
                )
            },
            res is Err ==> size > old(item).maxsize && *final(item) == *old(item) && res->Err_0
                == Error::IoFailure,
    {
        if size > item.maxsize {
            match self.allocate(len, size) {
                Ok((made, action)) => {
                    *item = made;
                    Ok(Some(action))
                },
                Err(e) => Err(e),
            }
        } else {
            item.size = size;
            Ok(None)
        }
    }

    /// Writes data to the specified memory block.
    pub fn update(&self, item: &HeapItem, block: Vec<u8>) -> (res: Result<Action, Error>)
        ensures
            res is Ok <==> block@.len() <= item.maxsize,
            res is Ok ==> res->Ok_0@ == ActionView::Write(self.file@, item.offset, block@),
            res is Err ==> res->Err_0 == Error::UnexpectedEof,
    {
        if block.len() as u64 > item.maxsize {
            Err(Error::UnexpectedEof)
        } else {
            Ok(Action::Write(self.file.copy(), item.offset, block))
        }
    }

    /// Reads data from the specified memory block.
    pub fn get(&self, item: &HeapItem) -> (res: Result<Read, Error>)
        ensures
            res is Ok <==> item.size <= usize::MAX,
            res is Ok ==> res->Ok_0@ == (ReadView {
                file: self.file@,
                offset: item.offset,
                len: item.size as usize,
            }),
            res is Err ==> res->Err_0 == Error::IoFailure,
    {
        if item.size > usize::MAX as u64 {
            Err(Error::IoFailure)
        } else {
            Ok(Read { file: self.file.copy(), offset: item.offset, len: item.size as usize })
        }
    }
}

} // verus!
