//! `Col` is a wrapper over `SeqFile` for a datatype with a fixed-width
//! binary form, so values of it are stored in a file as blocks.

use std::marker::PhantomData;
use vstd::prelude::*;
use crate::disk::{Action, ActionView, FileId, Read, ReadView};
use crate::error::Error;
use crate::seq::{checked_product, SeqFile};
use crate::utils::{
    from_bytes_many, spec_from_bytes_many, spec_to_bytes_many, to_bytes, to_bytes_many, Pod,
};

verus! {

/// A number of whole blocks is a multiple of the size of a block.
pub proof fn lemma_whole_blocks(count: nat, width: nat)
    ensures
        width > 0 ==> (count * width) % width == 0,
        width == 0 ==> count * width == 0,
{
    if width > 0 {
        assert((count * width) % width == 0) by (nonlinear_arith)
            requires
                width > 0,
        ;
    } else {
        assert(count * width == 0) by (nonlinear_arith)
            requires
                width == 0,
        ;
    }
}

/// `Col` implements a storage for the data of type `T`. It plans `push`,
/// `get` and `update` and their multiple extensions.
#[derive(Debug)]
pub struct Col<T> {
    /// The file of blocks.
    pub seq: SeqFile,
    /// The type of the stored values.
    pub phantom: PhantomData<T>,
}

impl<T: Pod> Col<T> {
    /// Whether the blocks of the file have the width of a value.
    pub open spec fn wf(&self) -> bool {
        self.seq.block_size == T::spec_width()
    }

    /// Create a `Col` instance for the given file.
    pub fn new(file: FileId) -> (col: Self)
        ensures
            col.wf(),
            col.seq.file == file,
    {
        Self { seq: SeqFile::new(file, T::width()), phantom: PhantomData }
    }

    /// Get size of the data instance in bytes.
    pub fn block_size() -> (n: usize)
        ensures
            n == T::spec_width(),
    {
        T::width()
    }

    /// Get size of a file of `len` bytes in the number of units sized with
    /// `block_size`.
    pub fn size(&self, len: u64) -> (res: Result<usize, Error>)
        ensures
            res is Ok <==> self.seq.block_size > 0 && len % (self.seq.block_size as u64) == 0
                && len / (self.seq.block_size as u64) <= usize::MAX,
            res is Ok ==> res->Ok_0 == len / (self.seq.block_size as u64),
            res is Err ==> res->Err_0 == Error::InvalidData,
    {
        self.seq.size(len)
    }

    /// Resize the file setting a new size `new_size` in the number of units
    /// sized with `block_size`.
    pub fn resize(&self, new_size: usize) -> (res: Result<Action, Error>)
        ensures
            res is Ok <==> new_size * self.seq.block_size <= u64::MAX,
            res is Ok ==> res->Ok_0@ == ActionView::Resize(
                self.seq.file@,
                (new_size * self.seq.block_size) as u64,
            ),
            res is Err ==> res->Err_0 == Error::IoFailure,
    {
        self.seq.resize(new_size)
    }

    /// Push the data `x` to the end of a file of `len` bytes.
    pub fn push(&self, len: u64, x: &T) -> (res: Result<(usize, Action), Error>)
        requires
            self.wf(),
        ensures
            res is Ok <==> self.seq.block_size > 0 && len / (self.seq.block_size as u64)
                <= usize::MAX,
            res matches Ok(pushed) ==> pushed.0 == len / (self.seq.block_size as u64) && pushed.1@
                == ActionView::Write(self.seq.file@, len, x.spec_encode()),
            res is Err ==> res->Err_0 == Error::InvalidData,
    {
        let block = to_bytes(x);
        proof {
            lemma_whole_blocks(1, T::spec_width());
        }
        self.seq.push(len, block)
    }

    /// Push multiple data `x` to the end of a file of `len` bytes.
    pub fn push_many(&self, len: u64, x: &[T]) -> (res: Result<(usize, Action), Error>)
        requires
            self.wf(),
        ensures
            res is Ok <==> self.seq.block_size > 0 && len / (self.seq.block_size as u64)
                <= usize::MAX,
            res matches Ok(pushed) ==> pushed.0 == len / (self.seq.block_size as u64) && pushed.1@
                == ActionView::Write(self.seq.file@, len, spec_to_bytes_many(x@)),
            res is Err ==> res->Err_0 == Error::InvalidData,
    {
        let block = to_bytes_many(x);
        proof {
            lemma_whole_blocks(x@.len(), T::spec_width());
        }
        self.seq.push(len, block)
    }

    /// Get the instance located at `ix`: the read of its block.
    pub fn get(&self, ix: usize) -> (res: Result<Read, Error>)
        requires
            self.wf(),
        ensures
            res is Ok <==> ix * self.seq.block_size <= u64::MAX,
            res is Ok ==> res->Ok_0@ == (ReadView {
                file: self.seq.file@,
                offset: (ix * self.seq.block_size) as u64,
                len: self.seq.block_size,
            }),
            res is Err ==> res->Err_0 == Error::IoFailure,
    {
        proof {
            lemma_whole_blocks(1, T::spec_width());
        }
        self.seq.get(ix, Self::block_size())
    }

    /// Get `count` instances located from `ix`: the read of their blocks,
    /// and no read for no instance.
    pub fn get_many(&self, ix: usize, count: usize) -> (res: Result<Option<Read>, Error>)
        requires
            self.wf(),
        ensures
            res is Ok <==> count == 0 || (ix * self.seq.block_size <= u64::MAX && count
                * self.seq.block_size <= usize::MAX),
            res is Ok ==> (res->Ok_0 is None <==> count == 0),
            res is Ok && count > 0 ==> res->Ok_0->0@ == (ReadView {
                file: self.seq.file@,
                offset: (ix * self.seq.block_size) as u64,
                len: (count * self.seq.block_size) as usize,
            }),
            res is Err ==> res->Err_0 == Error::IoFailure,
    {
        if count == 0 {
            return Ok(None);
        }
        let len = match checked_product(count, Self::block_size()) {
            Some(len) => len,
            None => {
                return Err(Error::IoFailure);
            },
        };
        if len > usize::MAX as u64 {
            return Err(Error::IoFailure);
        }
        proof {
            lemma_whole_blocks(count as nat, T::spec_width());
        }
        match self.seq.get(ix, len as usize) {
            Ok(read) => Ok(Some(read)),
            Err(e) => Err(e),
        }
    }

    /// Get all instances of a file of `len` bytes: the read of their
    /// blocks, and no read for an empty file.
    pub fn get_all(&self, len: u64) -> (res: Result<Option<Read>, Error>)
        requires
            self.wf(),
        ensures
            res is Ok <==> self.seq.block_size > 0 && len % (self.seq.block_size as u64) == 0
                && len <= usize::MAX,
            res is Ok ==> (res->Ok_0 is None <==> len == 0),
            res is Ok && len > 0 ==> res->Ok_0->0@ == (ReadView {
                file: self.seq.file@,
                offset: 0,
                len: len as usize,
            }),
            res is Err ==> res->Err_0 == Error::InvalidData,
    {
        let size = match self.seq.size(len) {
            Ok(size) => size,
            Err(e) => {
                return Err(e);
            },
        };
        if len > usize::MAX as u64 {
            return Err(Error::InvalidData);
        }
        if size == 0 {
            assert(len == 0) by (nonlinear_arith)
                requires
                    self.seq.block_size > 0,
                    len % (self.seq.block_size as u64) == 0,
                    len / (self.seq.block_size as u64) == 0,
            ;
            return Ok(None);
        }
        assert(len > 0);
        assert(0 * self.seq.block_size == 0) by (nonlinear_arith);
        match self.seq.get(0, len as usize) {
            Ok(read) => Ok(Some(read)),
            Err(_) => Err(Error::InvalidData),
        }
    }

    /// The instance that a block that was read stands for.
    pub fn decode(block: &[u8]) -> (res: Result<T, Error>)
        ensures
            res is Ok <==> block@.len() == T::spec_width() && T::spec_decode(block@) is Some,
            res is Ok ==> Some(res->Ok_0) == T::spec_decode(block@),
            res is Err ==> res->Err_0 == Error::InvalidData,
    {
        if block.len() != T::width() {
            return Err(Error::InvalidData);
        }
        match T::decode(block) {
            Some(x) => Ok(x),
            None => Err(Error::InvalidData),
        }
    }

    /// The instances that the blocks that were read stand for.
    pub fn decode_many(block: &[u8]) -> (res: Result<Vec<T>, Error>)
        ensures
            res is Ok <==> T::spec_width() > 0 && block@.len() % T::spec_width() == 0
                && spec_from_bytes_many::<T>(block@) is Some,
            res is Ok ==> Some(res->Ok_0@) == spec_from_bytes_many::<T>(block@),
            res is Err ==> res->Err_0 == Error::InvalidData,
    {
        let width = T::width();
        if width == 0 || block.len() % width != 0 {
            return Err(Error::InvalidData);
        }
        match from_bytes_many::<T>(block) {
            Some(xs) => Ok(xs),
            None => Err(Error::InvalidData),
        }
    }

    /// Update the instance located at `ix` with the data `x`.
    pub fn update(&self, ix: usize, x: &T) -> (res: Result<Action, Error>)
        requires
            self.wf(),
        ensures
            res is Ok <==> ix * self.seq.block_size <= u64::MAX,
            res is Ok ==> res->Ok_0@ == ActionView::Write(
                self.seq.file@,
                (ix * self.seq.block_size) as u64,
                x.spec_encode(),
            ),
            res is Err ==> res->Err_0 == Error::IoFailure,
    {
        let block = to_bytes(x);
        proof {
            lemma_whole_blocks(1, T::spec_width());
        }
        self.seq.update(ix, block)
    }

    /// Update the instances located from `ix` with the data in the slice
    /// `x`.
    pub fn update_many(&self, ix: usize, x: &[T]) -> (res: Result<Action, Error>)
        requires
            self.wf(),
        ensures
            res is Ok <==> ix * self.seq.block_size <= u64::MAX,
            res is Ok ==> res->Ok_0@ == ActionView::Write(
                self.seq.file@,
                (ix * self.seq.block_size) as u64,
                spec_to_bytes_many(x@),
            ),
            res is Err ==> res->Err_0 == Error::IoFailure,
    {
        let block = to_bytes_many(x);
        proof {
            lemma_whole_blocks(x@.len(), T::spec_width());
        }
        self.seq.update(ix, block)
    }
}

} // verus!
