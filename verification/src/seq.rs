//! `SeqFile` is the basic unit of the stored data: a file that is managed as
//! a sequence of blocks with the same size (`block_size`). Each block is
//! accessed by its index. `SeqFile` says which bytes of the file an
//! operation reads or writes; the driver performs it.

use vstd::prelude::*;
use crate::disk::{Action, ActionView, FileId, Read, ReadView};
use crate::error::Error;

verus! {

/// The product of two sizes, where a `u64` holds it.
pub fn checked_product(a: usize, b: usize) -> (product: Option<u64>)
    ensures
        product is Some <==> a * b <= u64::MAX,
        product is Some ==> product->0 == a * b,
{
    assert(0 <= a * b <= 0xffff_ffff_ffff_ffff * 0xffff_ffff_ffff_ffff) by (nonlinear_arith)
        requires
            0 <= a <= 0xffff_ffff_ffff_ffff,
            0 <= b <= 0xffff_ffff_ffff_ffff,
    ;
    let wide: u128 = (a as u128) * (b as u128);
    if wide <= u64::MAX as u128 {
        Some(wide as u64)
    } else {
        None
    }
}

/// A sequence of zeros.
pub open spec fn zeros(len: nat) -> Seq<u8> {
    Seq::new(len, |i: int| 0u8)
}

/// A block of zeros.
pub fn zero_block(len: usize) -> (block: Vec<u8>)
    ensures
        block@ == zeros(len as nat),
{
    let mut block: Vec<u8> = Vec::new();
    while block.len() < len
        invariant
            block@.len() <= len,
            forall|i: int| 0 <= i < block@.len() ==> block@[i] == 0u8,
        decreases len - block@.len(),
    {
        block.push(0u8);
    }
    assert(block@ =~= zeros(len as nat));
    block
}

/// Whether a number of bytes is a number of whole blocks of a size. With
/// blocks of no size, only no bytes are whole blocks.
pub open spec fn whole_blocks(block_size: nat, len: nat) -> bool {
    if block_size == 0 {
        len == 0
    } else {
        len % block_size == 0
    }
}

/// A file of blocks of one size.
#[derive(Debug)]
pub struct SeqFile {
    /// The file.
    pub file: FileId,
    /// The size of a block in bytes.
    pub block_size: usize,
}

impl SeqFile {
    /// Whether a number of bytes is a number of whole blocks.
    pub open spec fn whole(&self, len: nat) -> bool {
        whole_blocks(self.block_size as nat, len)
    }

    /// Create a `SeqFile` object for the given file, having the given
    /// `block_size`.
    pub fn new(file: FileId, block_size: usize) -> (seq: SeqFile)
        ensures
            seq.file == file,
            seq.block_size == block_size,
    {
        SeqFile { file, block_size }
    }

    /// The action that opens the file: if no file exists, it creates an
    /// empty one.
    pub fn open(&self) -> (action: Action)
        ensures
            action@ == ActionView::Create(self.file@),
    {
        Action::Create(self.file.copy())
    }

    /// Get block size in bytes.
    pub fn block_size(&self) -> (n: usize)
        ensures
            n == self.block_size,
    {
        self.block_size
    }

    /// Get size of a file of `len` bytes in the number of units sized with
    /// `block_size`. A file that does not hold a number of whole blocks is
    /// refused.
    pub fn size(&self, len: u64) -> (res: Result<usize, Error>)
        ensures
            res is Ok <==> self.block_size > 0 && len % (self.block_size as u64) == 0 && len / (
            self.block_size as u64) <= usize::MAX,
            res is Ok ==> res->Ok_0 == len / (self.block_size as u64),
            res is Err ==> res->Err_0 == Error::InvalidData,
    {
        if self.block_size == 0 {
            return Err(Error::InvalidData);
        }
        let block_size = self.block_size as u64;
        if len % block_size != 0 {
            return Err(Error::InvalidData);
        }
        let size = len / block_size;
        if size > usize::MAX as u64 {
            return Err(Error::InvalidData);
        }
        Ok(size as usize)
    }

    /// Resize the file setting a new size `new_size` in the number of units
    /// sized with `block_size`. A size in bytes that no file has is
    /// refused.
    pub fn resize(&self, new_size: usize) -> (res: Result<Action, Error>)
        ensures
            res is Ok <==> new_size * self.block_size <= u64::MAX,
            res is Ok ==> res->Ok_0@ == ActionView::Resize(
                self.file@,
                (new_size * self.block_size) as u64,
            ),
            res is Err ==> res->Err_0 == Error::IoFailure,
    {
        match checked_product(new_size, self.block_size) {
            Some(len) => Ok(Action::Resize(self.file.copy(), len)),
            None => Err(Error::IoFailure),
        }
    }

    /// Push a new data block to the end of a file of `len` bytes. The
    /// result is the index of the first block that is written, and the
    /// action that writes.
    pub fn push(&self, len: u64, block: Vec<u8>) -> (res: Result<(usize, Action), Error>)
        requires
            self.whole(block@.len()),
        ensures
            res is Ok <==> self.block_size > 0 && len / (self.block_size as u64) <= usize::MAX,
            res matches Ok(pushed) ==> pushed.0 == len / (self.block_size as u64) && pushed.1@
                == ActionView::Write(self.file@, len, block@),
            res is Err ==> res->Err_0 == Error::InvalidData,
    {
        if self.block_size == 0 {
            return Err(Error::InvalidData);
        }
        let ix = len / (self.block_size as u64);
        if ix > usize::MAX as u64 {
            return Err(Error::InvalidData);
        }
        Ok((ix as usize, Action::Write(self.file.copy(), len, block)))
    }

    /// Get `len` bytes of data located by the index `ix`.
    pub fn get(&self, ix: usize, len: usize) -> (res: Result<Read, Error>)
        requires
            self.whole(len as nat),
        ensures
            res is Ok <==> ix * self.block_size <= u64::MAX,
            res is Ok ==> res->Ok_0@ == (ReadView {
                file: self.file@,
                offset: (ix * self.block_size) as u64,
                len,
            }),
            res is Err ==> res->Err_0 == Error::IoFailure,
    {
        match checked_product(ix, self.block_size) {
            Some(offset) => Ok(Read { file: self.file.copy(), offset, len }),
            None => Err(Error::IoFailure),
        }
    }

    /// Update data located by the index `ix` with the bytes in `block`.
    pub fn update(&self, ix: usize, block: Vec<u8>) -> (res: Result<Action, Error>)
        requires
            self.whole(block@.len()),
        ensures
            res is Ok <==> ix * self.block_size <= u64::MAX,
            res is Ok ==> res->Ok_0@ == ActionView::Write(
                self.file@,
                (ix * self.block_size) as u64,
                block@,
            ),
            res is Err ==> res->Err_0 == Error::IoFailure,
    {
        match checked_product(ix, self.block_size) {
            Some(offset) => Ok(Action::Write(self.file.copy(), offset, block)),
            None => Err(Error::IoFailure),
        }
    }

    /// Allocate next `count` blocks with zeros at the end of a file of
    /// `len` bytes.
    pub fn push_empty(&self, len: u64, count: usize) -> (res: Result<(usize, Action), Error>)
        ensures
            res is Ok <==> self.block_size > 0 && len / (self.block_size as u64) <= usize::MAX
                && count * self.block_size <= usize::MAX,
            res matches Ok(pushed) ==> pushed.0 == len / (self.block_size as u64) && pushed.1@
                == ActionView::Write(self.file@, len, zeros((count * self.block_size) as nat)),
            res is Err ==> res->Err_0 == Error::InvalidData,
    {
        if self.block_size == 0 {
            return Err(Error::InvalidData);
        }
        let bytes = match checked_product(count, self.block_size) {
            Some(bytes) => bytes,
            None => {
                return Err(Error::InvalidData);
            },
        };
        if bytes > usize::MAX as u64 {
            return Err(Error::InvalidData);
        }
        let block = zero_block(bytes as usize);
        assert((count * self.block_size) % (self.block_size as int) == 0) by (nonlinear_arith)
            requires
                self.block_size > 0,
                count >= 0,
        ;
        self.push(len, block)
    }
}

} // verus!
