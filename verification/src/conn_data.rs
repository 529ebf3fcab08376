//! The dataset operations of a connection: which bytes of which column
//! files a dataset is written to and read from.

use vstd::prelude::*;
use vstd::string::StringExecFns;
use crate::col::lemma_whole_blocks;
use crate::conn::{lemma_plan_view_concat, resize_plan, sizable, Conn};
use crate::dataset::{get_dataset_size, units_view, Dataset};
use crate::datatype::{Dataunit, DataunitView};
use crate::disk::{
    plan_view, reads_view, run, Action, ActionView, DiskView, FileId, FileIdView, Read, ReadView,
};
use crate::error::Error;
use crate::items::{ColItem, FeedItem};
use crate::laws::lemma_data_update_laws;
use crate::list::keys_of;
use crate::lookup::find;
use crate::seq::{checked_product, whole_blocks, zero_block, zeros, SeqFile};
use crate::series::{
    decode_series, encode_series, lemma_try_map_failure, series_bytes, series_units, storable,
    try_map,
};
use crate::utils::Pod;

verus! {

/// What an update writes to the file of a column of a feed from the row
/// `ix` on: the stored form of the series of the column, or `n` rows of
/// zeros where the dataset has no series for it. It fails where the feed has
/// no such column, where the column does not store a unit of the series,
/// and where the file has no such place.
pub open spec fn col_update(
    feed: Seq<char>,
    cols: Seq<ColItem>,
    ix: nat,
    n: nat,
    series: Option<Seq<DataunitView>>,
    name: Seq<char>,
) -> Result<ActionView, Error> {
    match find(keys_of(cols), name) {
        None => Err(Error::NotFound),
        Some(j) => {
            let datatype = cols[j].datatype;
            let width = datatype.spec_size();
            let file = FileIdView::Col(feed, name);
            match series {
                Some(units) => if !storable(datatype, units) || !whole_blocks(
                    width,
                    series_bytes(datatype, units).len(),
                ) {
                    Err(Error::InvalidData)
                } else if ix * width > u64::MAX {
                    Err(Error::IoFailure)
                } else {
                    Ok(ActionView::Write(file, (ix * width) as u64, series_bytes(datatype, units)))
                },
                None => if n * width > usize::MAX || ix * width > u64::MAX {
                    Err(Error::IoFailure)
                } else {
                    Ok(ActionView::Write(file, (ix * width) as u64, zeros(n * width)))
                },
            }
        },
    }
}

/// The read of `size` rows of a column of a feed from the row `ix` on. It
/// fails where the feed has no such column and where no file has such a
/// place.
pub open spec fn col_read(
    feed: Seq<char>,
    cols: Seq<ColItem>,
    ix: nat,
    size: nat,
    name: Seq<char>,
) -> Result<ReadView, Error> {
    match find(keys_of(cols), name) {
        None => Err(Error::NotFound),
        Some(j) => {
            let width = cols[j].datatype.spec_size();
            if size * width > usize::MAX || ix * width > u64::MAX {
                Err(Error::IoFailure)
            } else {
                Ok(
                    ReadView {
                        file: FileIdView::Col(feed, name),
                        offset: (ix * width) as u64,
                        len: (size * width) as usize,
                    },
                )
            }
        },
    }
}

/// What a write of a block to the file of a column of a feed from the row
/// `ix` on is. It fails where the feed has no such column, where the block
/// is no whole blocks of the column, and where the file has no such place.
pub open spec fn col_write(
    feed: Seq<char>,
    cols: Seq<ColItem>,
    ix: nat,
    block: Seq<u8>,
    name: Seq<char>,
) -> Result<ActionView, Error> {
    match find(keys_of(cols), name) {
        None => Err(Error::NotFound),
        Some(j) => {
            let width = cols[j].datatype.spec_size();
            if !whole_blocks(width, block.len()) {
                Err(Error::InvalidData)
            } else if ix * width > u64::MAX {
                Err(Error::IoFailure)
            } else {
                Ok(ActionView::Write(FileIdView::Col(feed, name), (ix * width) as u64, block))
            }
        },
    }
}

/// The units of `size` rows that were read from the file of a column as a
/// block. It fails where the feed has no such column, where the column has
/// no width of its own, and where the block is not the bytes of that many
/// rows.
pub open spec fn col_units(cols: Seq<ColItem>, size: nat, name: Seq<char>, block: Seq<u8>)
    -> Result<
    Seq<DataunitView>,
    Error,
> {
    match find(keys_of(cols), name) {
        None => Err(Error::NotFound),
        Some(j) => {
            let datatype = cols[j].datatype;
            if datatype.spec_size() == 0 {
                Err(Error::InvalidData)
            } else if block.len() != size * datatype.spec_size() {
                Err(Error::UnexpectedEof)
            } else {
                Ok(series_units(datatype, block, size))
            }
        },
    }
}

/// The names of columns, each with the block that was read for it.
pub open spec fn named_blocks(names: Seq<Seq<char>>, blocks: Seq<Vec<u8>>) -> Seq<
    (Seq<char>, Seq<u8>),
> {
    Seq::new(names.len(), |k: int| (names[k], blocks[k]@))
}

/// The map from the names of columns to their units, where a column that
/// is named twice has the units that are given last.
pub open spec fn gathered(names: Seq<Seq<char>>, series: Seq<Seq<DataunitView>>) -> Map<
    Seq<char>,
    Seq<DataunitView>,
>
    decreases names.len(),
{
    if names.len() == 0 {
        Map::empty()
    } else {
        gathered(names.drop_last(), series.drop_last()).insert(names.last(), series.last())
    }
}

/// The names that texts hold.
pub open spec fn names_view(names: Seq<String>) -> Seq<Seq<char>> {
    names.map_values(|s: String| s@)
}

impl Conn {
    /// The plan of an update of the named columns of a feed from the row
    /// `ix` on: nothing for a dataset without rows, and else what each of
    /// the columns is written, in the order of the names. A dataset whose
    /// columns differ in length is refused.
    pub open spec fn spec_data_update(
        &self,
        feed: Seq<char>,
        ix: nat,
        ds: Dataset,
        names: Seq<Seq<char>>,
    ) -> Result<Seq<ActionView>, Error> {
        if !ds.even() {
            Err(Error::InvalidData)
        } else if ds.spec_size() == 0 {
            Ok(Seq::empty())
        } else {
            match self.feed_at(feed) {
                None => Err(Error::NotFound),
                Some(i) => try_map(
                    names,
                    |name: Seq<char>|
                        col_update(feed, self.cols(i), ix, ds.spec_size(), ds.units_of(name), name),
                ),
            }
        }
    }

    /// The units of `size` rows of the named columns of a feed, from the
    /// blocks that were read for them, in the order of the names.
    pub open spec fn spec_data_decode(
        &self,
        feed: Seq<char>,
        size: nat,
        names: Seq<Seq<char>>,
        blocks: Seq<Vec<u8>>,
    ) -> Result<Seq<Seq<DataunitView>>, Error> {
        try_map(
            named_blocks(names, blocks),
            |p: (Seq<char>, Seq<u8>)| col_units(self.cols(self.feed_at(feed)->0), size, p.0, p.1),
        )
    }

    /// The reads of `size` rows of the named columns of a feed from the row
    /// `ix` on, in the order of the names.
    pub open spec fn spec_data_get(
        &self,
        feed: Seq<char>,
        ix: nat,
        size: nat,
        names: Seq<Seq<char>>,
    ) -> Result<Seq<ReadView>, Error> {
        match self.feed_at(feed) {
            None => Err(Error::NotFound),
            Some(i) => try_map(
                names,
                |name: Seq<char>| col_read(feed, self.cols(i), ix, size, name),
            ),
        }
    }

    /// Plan the update of one column of the feed at the position `i`: see
    /// [`col_update`].
    fn _seq_update(
        &self,
        i: usize,
        feed_name: &str,
        col_name: &str,
        ix: usize,
        size: usize,
        series: Option<&Vec<Dataunit>>,
    ) -> (res: Result<Action, Error>)
        requires
            self.wf(),
            i < self.feeds().len(),
        ensures
            match res {
                Ok(action) => Ok::<ActionView, Error>(action@),
                Err(e) => Err::<ActionView, Error>(e),
            } == col_update(
                feed_name@,
                self.cols(i as int),
                ix as nat,
                size as nat,
                match series {
                    Some(units) => Some(units_view(units@)),
                    None => None,
                },
                col_name@,
            ),
    {
        // Get col item because we need the datatype
        let j = match self.col_index(i, col_name) {
            Some(j) => j,
            None => {
                return Err(Error::NotFound);
            },
        };
        let datatype = self.col_lists[i].recs[j].datatype;
        let seq = SeqFile::new(
            FileId::Col(String::from_str(feed_name), String::from_str(col_name)),
            datatype.size(),
        );
        // Convert the series into a byte sequence
        let block: Vec<u8> = match series {
            Some(units) => {
                let block = match encode_series(&datatype, units) {
                    Ok(block) => block,
                    Err(e) => {
                        return Err(e);
                    },
                };
                let whole = if datatype.size() == 0 {
                    block.len() == 0
                } else {
                    block.len() % datatype.size() == 0
                };
                if !whole {
                    return Err(Error::InvalidData);
                }
                block
            },
            None => {
                let len = match checked_product(size, datatype.size()) {
                    Some(len) => len,
                    None => {
                        return Err(Error::IoFailure);
                    },
                };
                if len > usize::MAX as u64 {
                    return Err(Error::IoFailure);
                }
                proof {
                    lemma_whole_blocks(size as nat, datatype.spec_size());
                }
                let block = zero_block(len as usize);
                if checked_product(ix, datatype.size()).is_none() {
                    return Err(Error::IoFailure);
                }
                block
            },
        };
        // Update the seq file
        seq.update(ix, block)
    }

    /// Plan the update of the named columns of a feed: see
    /// [`Conn::spec_data_update`].
    fn _data_update(&self, feed_name: &str, ix: usize, ds: &Dataset, cols: &Vec<String>) -> (res:
        Result<Vec<Action>, Error>)
        requires
            self.wf(),
            ds.wf(),
        ensures
            match res {
                Ok(plan) => Ok::<Seq<ActionView>, Error>(plan_view(plan@)),
                Err(e) => Err::<Seq<ActionView>, Error>(e),
            } == self.spec_data_update(feed_name@, ix as nat, *ds, names_view(cols@)),
    {
        // Get dataset size, it also check where the dataset is valid:
        // all series have the same size
        let size = match get_dataset_size(ds) {
            Ok(size) => size,
            Err(e) => {
                return Err(e);
            },
        };
        let mut plan: Vec<Action> = Vec::new();
        // If the dataset is not empty
        if size > 0 {
            let i = match self.feed_index(feed_name) {
                Some(i) => i,
                None => {
                    return Err(Error::NotFound);
                },
            };
            let ghost names = names_view(cols@);
            let ghost step = |name: Seq<char>|
                col_update(
                    feed_name@,
                    self.cols(i as int),
                    ix as nat,
                    ds.spec_size(),
                    ds.units_of(name),
                    name,
                );
            assert(names.take(0) =~= Seq::<Seq<char>>::empty());
            assert(plan_view(plan@) =~= Seq::<ActionView>::empty());
            // Iterate the columns
            let mut k: usize = 0;
            while k < cols.len()
                invariant
                    self.wf(),
                    ds.wf(),
                    i < self.feeds().len(),
                    k <= cols@.len(),
                    names == names_view(cols@),
                    size == ds.spec_size(),
                    size > 0,
                    ds.even(),
                    self.feed_at(feed_name@) == Some(i as int),
                    step == (|name: Seq<char>|
                        col_update(
                            feed_name@,
                            self.cols(i as int),
                            ix as nat,
                            ds.spec_size(),
                            ds.units_of(name),
                            name,
                        )),
                    try_map(names.take(k as int), step) == Ok::<Seq<ActionView>, Error>(
                        plan_view(plan@),
                    ),
                decreases cols@.len() - k,
            {
                let col_name = cols[k].as_str();
                let ghost before = plan_view(plan@);
                proof {
                    assert(names.take(k + 1).drop_last() =~= names.take(k as int));
                    assert(names.take(k + 1).last() == col_name@);
                }
                match self._seq_update(i, feed_name, col_name, ix, size, ds.get(col_name)) {
                    Ok(action) => {
                        plan.push(action);
                        assert(plan_view(plan@) =~= before.push(action@));
                    },
                    Err(e) => {
                        proof {
                            assert(step(col_name@) == Err::<ActionView, Error>(e));
                            assert(try_map(names.take(k + 1), step) == Err::<
                                Seq<ActionView>,
                                Error,
                            >(e));
                            lemma_try_map_failure(names, step, k + 1);
                        }
                        return Err(e);
                    },
                }
                k = k + 1;
            }
            assert(names.take(cols@.len() as int) =~= names);
        } else {
            assert(plan_view(plan@) =~= Seq::<ActionView>::empty());
        }
        Ok(plan)
    }

    /// Update the records in the feed with the given dataset. The missing
    /// columns will be filled with zeros. For preventing it use
    /// `data_patch` instead.
    #[verifier::rlimit(50)]
    pub fn data_save(&self, feed_name: &str, ix: usize, ds: &Dataset) -> (res: Result<
        Vec<Action>,
        Error,
    >)
        requires
            self.wf(),
            ds.wf(),
        ensures
            match res {
                Ok(plan) => Ok::<Seq<ActionView>, Error>(plan_view(plan@)),
                Err(e) => Err::<Seq<ActionView>, Error>(e),
            } == (match self.feed_at(feed_name@) {
                None => Err(Error::NotFound),
                Some(i) => self.spec_data_update(
                    feed_name@,
                    ix as nat,
                    *ds,
                    keys_of(self.cols(i)),
                ),
            }),
            res matches Ok(plan) ==> forall|disk: DiskView|
                #![trigger run(disk, plan_view(plan@))]
                {
                    &&& run(run(disk, plan_view(plan@)), plan_view(plan@)) == run(
                        disk,
                        plan_view(plan@),
                    )
                    &&& self.agrees(disk) && self.has_rows(feed_name@, ix as nat, ds.spec_size())
                        ==> self.agrees(run(disk, plan_view(plan@)))
                },
    {
        let i = match self.feed_index(feed_name) {
            Some(i) => i,
            None => {
                return Err(Error::NotFound);
            },
        };
        let pairs = self.col_lists[i].map();
        let mut cols: Vec<String> = Vec::new();
        let mut k: usize = 0;
        while k < pairs.len()
            invariant
                k <= pairs@.len(),
                cols@.len() == k,
                forall|m: int| 0 <= m < k ==> (#[trigger] cols@[m])@ == pairs@[m].0@,
            decreases pairs@.len() - k,
        {
            cols.push(pairs[k].0.clone());
            k = k + 1;
        }
        assert(names_view(cols@) =~= keys_of(self.cols(i as int)));
        let res = self._data_update(feed_name, ix, ds, &cols);
        proof {
            if res is Ok {
                let plan = res->Ok_0;
                assert(self.col_lists@[i as int].wf());
                assert forall|disk: DiskView|
                    #![trigger run(disk, plan_view(plan@))]
                    {
                        &&& run(run(disk, plan_view(plan@)), plan_view(plan@)) == run(
                            disk,
                            plan_view(plan@),
                        )
                        &&& self.agrees(disk) && self.has_rows(
                            feed_name@,
                            ix as nat,
                            ds.spec_size(),
                        ) ==> self.agrees(run(disk, plan_view(plan@)))
                    } by {
                    lemma_data_update_laws(
                        *self,
                        feed_name@,
                        ix as nat,
                        *ds,
                        keys_of(self.cols(i as int)),
                        disk,
                    );
                }
            }
        }
        res
    }

    /// Update the records in the feed with the given dataset. The missing
    /// columns will no change. For making them zero use `data_save`
    /// instead.
    #[verifier::rlimit(50)]
    pub fn data_patch(&self, feed_name: &str, ix: usize, ds: &Dataset) -> (res: Result<
        Vec<Action>,
        Error,
    >)
        requires
            self.wf(),
            ds.wf(),
        ensures
            match res {
                Ok(plan) => Ok::<Seq<ActionView>, Error>(plan_view(plan@)),
                Err(e) => Err::<Seq<ActionView>, Error>(e),
            } == self.spec_data_update(feed_name@, ix as nat, *ds, ds.names()),
            res matches Ok(plan) ==> forall|disk: DiskView|
                #![trigger run(disk, plan_view(plan@))]
                {
                    &&& run(run(disk, plan_view(plan@)), plan_view(plan@)) == run(
                        disk,
                        plan_view(plan@),
                    )
                    &&& self.agrees(disk) && self.has_rows(feed_name@, ix as nat, ds.spec_size())
                        ==> self.agrees(run(disk, plan_view(plan@)))
                },
    {
        let mut cols: Vec<String> = Vec::new();
        let mut k: usize = 0;
        while k < ds.cols.len()
            invariant
                k <= ds.cols@.len(),
                cols@.len() == k,
                forall|m: int| 0 <= m < k ==> (#[trigger] cols@[m])@ == ds.cols@[m].name@,
            decreases ds.cols@.len() - k,
        {
            cols.push(ds.cols[k].name.clone());
            k = k + 1;
        }
        assert(names_view(cols@) =~= ds.names());
        let res = self._data_update(feed_name, ix, ds, &cols);
        proof {
            if res is Ok {
                let plan = res->Ok_0;
                assert forall|disk: DiskView|
                    #![trigger run(disk, plan_view(plan@))]
                    {
                        &&& run(run(disk, plan_view(plan@)), plan_view(plan@)) == run(
                            disk,
                            plan_view(plan@),
                        )
                        &&& self.agrees(disk) && self.has_rows(
                            feed_name@,
                            ix as nat,
                            ds.spec_size(),
                        ) ==> self.agrees(run(disk, plan_view(plan@)))
                    } by {
                    lemma_data_update_laws(*self, feed_name@, ix as nat, *ds, ds.names(), disk);
                }
            }
        }
        res
    }

    /// What a push of a dataset to a feed plans: nothing for a dataset
    /// without rows, and else the new length of each column file, the new
    /// record of the feed, and the rows of the dataset after the rows that
    /// the feed had.
    pub open spec fn spec_data_push(&self, feed: Seq<char>, ds: Dataset) -> Result<
        Seq<ActionView>,
        Error,
    > {
        if !ds.even() {
            Err(Error::InvalidData)
        } else if ds.spec_size() == 0 {
            Ok(Seq::empty())
        } else {
            match self.feed_at(feed) {
                None => Err(Error::NotFound),
                Some(i) => {
                    let ix = self.feeds()[i].size;
                    let size = ix + ds.spec_size();
                    if size > usize::MAX {
                        Err(Error::IoFailure)
                    } else {
                        match self.spec_data_update(feed, ix as nat, ds, ds.names()) {
                            Err(e) => Err(e),
                            Ok(patch) => if !sizable(self.cols(i), size as nat) {
                                Err(Error::IoFailure)
                            } else {
                                Ok(
                                    resize_plan(feed, self.cols(i), size as nat) + seq![
                                        ActionView::Write(
                                            FileIdView::FeedList,
                                            (i * 264) as u64,
                                            (FeedItem {
                                                name: self.feeds()[i].name,
                                                size: size as usize,
                                            }).spec_encode(),
                                        ),
                                    ] + patch,
                                )
                            },
                        }
                    }
                },
            }
        }
    }

    /// Push the dataset to the feed. The missed columns will be zeros.
    #[verifier::rlimit(50)]
    pub fn data_push(&mut self, feed_name: &str, ds: &Dataset) -> (res: Result<Vec<Action>, Error>)
        requires
            old(self).wf(),
            ds.wf(),
        ensures
            final(self).wf(),
            final(self).path == old(self).path,
            final(self).col_lists@ == old(self).col_lists@,
            match res {
                Ok(plan) => Ok::<Seq<ActionView>, Error>(plan_view(plan@)),
                Err(e) => Err::<Seq<ActionView>, Error>(e),
            } == old(self).spec_data_push(feed_name@, *ds),
            res is Err || ds.spec_size() == 0 ==> final(self).same(*old(self)),
            res matches Ok(plan) ==> forall|disk: DiskView| #[trigger]
                old(self).agrees(disk) ==> final(self).agrees(run(disk, plan_view(plan@))),
            res is Ok && ds.spec_size() > 0 ==> {
                let i = old(self).feed_at(feed_name@)->0;
                final(self).feeds() == old(self).feeds().update(
                    i,
                    FeedItem {
                        name: old(self).feeds()[i].name,
                        size: (old(self).feeds()[i].size + ds.spec_size()) as usize,
                    },
                )
            },
    {
        // Get the dataset size
        let size = match get_dataset_size(ds) {
            Ok(size) => size,
            Err(e) => {
                return Err(e);
            },
        };
        let mut plan: Vec<Action> = Vec::new();
        // If the dataset is not empty
        if size > 0 {
            let i = match self.feed_index(feed_name) {
                Some(i) => i,
                None => {
                    return Err(Error::NotFound);
                },
            };
            // Get the current feed size into ix
            let ix = self.feed_list.recs[i].size;
            if size > usize::MAX - ix {
                return Err(Error::IoFailure);
            }
            // Plan the insert of the data from the dataset
            let mut patch = match self.data_patch(feed_name, ix, ds) {
                Ok(patch) => patch,
                Err(e) => {
                    return Err(e);
                },
            };
            // Update the size of all cols
            let (_, mut resize) = match self.size_set(feed_name, ix + size) {
                Ok(set) => set,
                Err(e) => {
                    return Err(e);
                },
            };
            proof {
                lemma_plan_view_concat(resize@, patch@);
                assert(self.feeds()[i as int] == (FeedItem {
                    name: old(self).feeds()[i as int].name,
                    size: (ix + size) as usize,
                }));
                let first = plan_view(resize@);
                let second = plan_view(patch@);
                assert(self.feed_list.keys() =~= old(self).feed_list.keys());
                assert(self.spec_data_update(feed_name@, ix as nat, *ds, ds.names()) == Ok::<
                    Seq<ActionView>,
                    Error,
                >(second));
                assert forall|disk: DiskView| #[trigger] old(self).agrees(disk) implies self.agrees(
                    run(disk, first + second),
                ) by {
                    let mid = run(disk, first);
                    assert(self.agrees(mid));
                    lemma_data_update_laws(*self, feed_name@, ix as nat, *ds, ds.names(), mid);
                    crate::disk::lemma_run_concat(disk, first, second);
                }
            }
            plan.append(&mut resize);
            plan.append(&mut patch);
        } else {
            assert(plan_view(plan@) =~= Seq::<ActionView>::empty());
            assert(self.all_cols() =~= old(self).all_cols());
        }
        Ok(plan)
    }

    /// The read of `size` rows of a column of the feed at the position `i`
    /// from the row `ix` on: see [`col_read`].
    fn _col_read(&self, i: usize, feed_name: &str, col_name: &str, ix: usize, size: usize) -> (res:
        Result<Read, Error>)
        requires
            self.wf(),
            i < self.feeds().len(),
        ensures
            match res {
                Ok(read) => Ok::<ReadView, Error>(read@),
                Err(e) => Err::<ReadView, Error>(e),
            } == col_read(feed_name@, self.cols(i as int), ix as nat, size as nat, col_name@),
    {
        let j = match self.col_index(i, col_name) {
            Some(j) => j,
            None => {
                return Err(Error::NotFound);
            },
        };
        let datatype = self.col_lists[i].recs[j].datatype;
        let seq = SeqFile::new(
            FileId::Col(String::from_str(feed_name), String::from_str(col_name)),
            datatype.size(),
        );
        let len = match checked_product(size, datatype.size()) {
            Some(len) => len,
            None => {
                return Err(Error::IoFailure);
            },
        };
        if len > usize::MAX as u64 {
            return Err(Error::IoFailure);
        }
        proof {
            lemma_whole_blocks(size as nat, datatype.spec_size());
        }
        seq.get(ix, len as usize)
    }

    /// Get dataset stored in the feed `feed_name`, having the size `size`
    /// and the columns `cols` with the offset `ix`: the reads of the
    /// columns, in the order of `cols`. The blocks that the driver reads
    /// are turned into the dataset by [`Conn::data_decode`].
    pub fn data_get(&self, feed_name: &str, ix: usize, size: usize, cols: &Vec<String>) -> (res:
        Result<Vec<Read>, Error>)
        requires
            self.wf(),
        ensures
            match res {
                Ok(reads) => Ok::<Seq<ReadView>, Error>(reads_view(reads@)),
                Err(e) => Err::<Seq<ReadView>, Error>(e),
            } == self.spec_data_get(feed_name@, ix as nat, size as nat, names_view(cols@)),
    {
        let i = match self.feed_index(feed_name) {
            Some(i) => i,
            None => {
                return Err(Error::NotFound);
            },
        };
        let ghost names = names_view(cols@);
        let ghost step = |name: Seq<char>|
            col_read(feed_name@, self.cols(i as int), ix as nat, size as nat, name);
        let mut reads: Vec<Read> = Vec::new();
        assert(names.take(0) =~= Seq::<Seq<char>>::empty());
        assert(reads_view(reads@) =~= Seq::<ReadView>::empty());
        let mut k: usize = 0;
        while k < cols.len()
            invariant
                self.wf(),
                i < self.feeds().len(),
                self.feed_at(feed_name@) == Some(i as int),
                k <= cols@.len(),
                names == names_view(cols@),
                step == (|name: Seq<char>|
                    col_read(feed_name@, self.cols(i as int), ix as nat, size as nat, name)),
                try_map(names.take(k as int), step) == Ok::<Seq<ReadView>, Error>(
                    reads_view(reads@),
                ),
            decreases cols@.len() - k,
        {
            let col_name = cols[k].as_str();
            let ghost before = reads_view(reads@);
            proof {
                assert(names.take(k + 1).drop_last() =~= names.take(k as int));
                assert(names.take(k + 1).last() == col_name@);
            }
            match self._col_read(i, feed_name, col_name, ix, size) {
                Ok(read) => {
                    reads.push(read);
                    assert(reads_view(reads@) =~= before.push(read@));
                },
                Err(e) => {
                    proof {
                        assert(step(col_name@) == Err::<ReadView, Error>(e));
                        assert(try_map(names.take(k + 1), step) == Err::<Seq<ReadView>, Error>(e));
                        lemma_try_map_failure(names, step, k + 1);
                    }
                    return Err(e);
                },
            }
            k = k + 1;
        }
        assert(names.take(cols@.len() as int) =~= names);
        Ok(reads)
    }

    /// Get raw bytes having the size `size` (in data units) of the column
    /// `col_name` in the feed `feed_name` with the offset `ix`: the read.
    pub fn raw_get(&self, feed_name: &str, col_name: &str, ix: usize, size: usize) -> (res: Result<
        Read,
        Error,
    >)
        requires
            self.wf(),
        ensures
            match res {
                Ok(read) => Ok::<ReadView, Error>(read@),
                Err(e) => Err::<ReadView, Error>(e),
            } == (match self.feed_at(feed_name@) {
                None => Err(Error::NotFound),
                Some(i) => col_read(feed_name@, self.cols(i), ix as nat, size as nat, col_name@),
            }),
    {
        match self.feed_index(feed_name) {
            Some(i) => self._col_read(i, feed_name, col_name, ix, size),
            None => Err(Error::NotFound),
        }
    }

    /// Update raw bytes from the `block` in the column `col_name` of the
    /// feed `feed_name` with the offset `ix`.
    pub fn raw_set(&self, feed_name: &str, col_name: &str, ix: usize, block: Vec<u8>) -> (res:
        Result<Action, Error>)
        requires
            self.wf(),
        ensures
            match res {
                Ok(action) => Ok::<ActionView, Error>(action@),
                Err(e) => Err::<ActionView, Error>(e),
            } == (match self.feed_at(feed_name@) {
                None => Err(Error::NotFound),
                Some(i) => col_write(feed_name@, self.cols(i), ix as nat, block@, col_name@),
            }),
    {
        let i = match self.feed_index(feed_name) {
            Some(i) => i,
            None => {
                return Err(Error::NotFound);
            },
        };
        let j = match self.col_index(i, col_name) {
            Some(j) => j,
            None => {
                return Err(Error::NotFound);
            },
        };
        let width = self.col_lists[i].recs[j].datatype.size();
        let whole = if width == 0 {
            block.len() == 0
        } else {
            block.len() % width == 0
        };
        if !whole {
            return Err(Error::InvalidData);
        }
        // Get seq object
        let seq = SeqFile::new(
            FileId::Col(String::from_str(feed_name), String::from_str(col_name)),
            width,
        );
        // Update the seq file with the block
        seq.update(ix, block)
    }

    /// The units of `size` rows of a column of the feed at the position
    /// `i`, from the block that was read for them: see [`col_units`].
    fn _col_units(&self, i: usize, col_name: &str, size: usize, block: &[u8]) -> (res: Result<
        Vec<Dataunit>,
        Error,
    >)
        requires
            self.wf(),
            i < self.feeds().len(),
        ensures
            match res {
                Ok(units) => Ok::<Seq<DataunitView>, Error>(units_view(units@)),
                Err(e) => Err::<Seq<DataunitView>, Error>(e),
            } == col_units(self.cols(i as int), size as nat, col_name@, block@),
    {
        // Get datatype from col item
        let j = match self.col_index(i, col_name) {
            Some(j) => j,
            None => {
                return Err(Error::NotFound);
            },
        };
        let datatype = self.col_lists[i].recs[j].datatype;
        if datatype.size() == 0 {
            return Err(Error::InvalidData);
        }
        let block_len = block.len();
        let fits = match checked_product(size, datatype.size()) {
            Some(len) => len == block_len as u64,
            None => false,
        };
        if !fits {
            return Err(Error::UnexpectedEof);
        }
        proof {
            lemma_whole_blocks(size as nat, datatype.spec_size());
            assert((size * datatype.spec_size()) / (datatype.spec_size() as int) == size)
                by (nonlinear_arith)
                requires
                    datatype.spec_size() > 0,
            ;
        }
        // Convert bytes to a dataset series
        decode_series(&datatype, block)
    }

    /// Convert the blocks that were read for [`Conn::data_get`] into the
    /// dataset: `blocks` holds, for each of `cols` in their order, the
    /// bytes of `size` rows. A column that is named twice has the units of
    /// the block that was read last.
    #[verifier::rlimit(50)]
    pub fn data_decode(
        &self,
        feed_name: &str,
        size: usize,
        cols: &Vec<String>,
        blocks: &Vec<Vec<u8>>,
    ) -> (res: Result<Dataset, Error>)
        requires
            self.wf(),
        ensures
            res is Ok <==> self.feed_at(feed_name@) is Some && blocks@.len() == cols@.len()
                && self.spec_data_decode(feed_name@, size as nat, names_view(cols@), blocks@)
                is Ok,
            res is Err ==> res->Err_0 == (if self.feed_at(feed_name@) is None {
                Error::NotFound
            } else if blocks@.len() != cols@.len() {
                Error::InvalidInput
            } else {
                self.spec_data_decode(feed_name@, size as nat, names_view(cols@), blocks@)->Err_0
            }),
            res matches Ok(ds) ==> ds.wf() && ds.view_map() == gathered(
                names_view(cols@),
                self.spec_data_decode(feed_name@, size as nat, names_view(cols@), blocks@)->Ok_0,
            ),
    {
        let i = match self.feed_index(feed_name) {
            Some(i) => i,
            None => {
                return Err(Error::NotFound);
            },
        };
        if blocks.len() != cols.len() {
            return Err(Error::InvalidInput);
        }
        let ghost names = names_view(cols@);
        let ghost items = named_blocks(names, blocks@);
        let ghost step = |p: (Seq<char>, Seq<u8>)|
            col_units(self.cols(i as int), size as nat, p.0, p.1);
        let ghost mut done: Seq<Seq<DataunitView>> = Seq::empty();
        // Create an empty dataset
        let mut ds = Dataset::new();
        proof {
            assert(items.take(0) =~= Seq::<(Seq<char>, Seq<u8>)>::empty());
            assert(names.take(0) =~= Seq::<Seq<char>>::empty());
            assert(ds.view_map() =~= Map::<Seq<char>, Seq<DataunitView>>::empty());
        }
        let mut k: usize = 0;
        while k < cols.len()
            invariant
                self.wf(),
                i < self.feeds().len(),
                self.feed_at(feed_name@) == Some(i as int),
                blocks@.len() == cols@.len(),
                k <= cols@.len(),
                names == names_view(cols@),
                items == named_blocks(names, blocks@),
                step == (|p: (Seq<char>, Seq<u8>)|
                    col_units(self.cols(i as int), size as nat, p.0, p.1)),
                try_map(items.take(k as int), step) == Ok::<Seq<Seq<DataunitView>>, Error>(done),
                done.len() == k,
                ds.wf(),
                ds.view_map() == gathered(names.take(k as int), done),
            decreases cols@.len() - k,
        {
            let col_name = cols[k].as_str();
            proof {
                assert(items.take(k + 1).drop_last() =~= items.take(k as int));
                assert(items.take(k + 1).last() == items[k as int]);
                assert(items[k as int] == (col_name@, blocks@[k as int]@));
            }
            let series = match self._col_units(i, col_name, size, blocks[k].as_slice()) {
                Ok(series) => series,
                Err(e) => {
                    proof {
                        assert(step(items[k as int]) == Err::<Seq<DataunitView>, Error>(e));
                        assert(try_map(items.take(k + 1), step) == Err::<
                            Seq<Seq<DataunitView>>,
                            Error,
                        >(e));
                        lemma_try_map_failure(items, step, k + 1);
                    }
                    return Err(e);
                },
            };
            proof {
                assert(step(items[k as int]) == Ok::<Seq<DataunitView>, Error>(
                    units_view(series@),
                ));
                let next = done.push(units_view(series@));
                assert(names.take(k + 1).drop_last() =~= names.take(k as int));
                assert(names.take(k + 1).last() == col_name@);
                assert(next.drop_last() =~= done);
                done = next;
            }
            // Insert series into the dataset
            ds.insert(col_name, series);
            k = k + 1;
        }
        proof {
            assert(items.take(cols@.len() as int) =~= items);
            assert(names.take(cols@.len() as int) =~= names);
        }
        Ok(ds)
    }
}

} // verus!
