//! `Dataset` keeps vectors of basic data (provided as `Dataunit`) by keys,
//! so it represents a common dataset having columns (the keys) and rows.

use vstd::prelude::*;
use vstd::string::StringExecFns;
use crate::datatype::{Dataunit, DataunitView};
use crate::error::Error;
use crate::lookup::{find, lemma_find_at, lemma_find_none, lemma_find_some};

verus! {

/// What a series of units holds.
pub open spec fn units_view(units: Seq<Dataunit>) -> Seq<DataunitView> {
    units.map_values(|u: Dataunit| u@)
}

/// A column of a dataset: the name of the column and its units.
#[derive(Debug, Clone, PartialEq)]
pub struct Series {
    /// The name of the column.
    pub name: String,
    /// The units of the column, one for each row.
    pub units: Vec<Dataunit>,
}

/// `Dataset` maps the names of columns to vectors of `Dataunit`, no name
/// twice, in the order in which the columns were inserted. Since `Dataunit`
/// is an enum over integers, real numbers and strings, they are the
/// supported datatypes for the dataset.
#[derive(Debug, Clone, PartialEq)]
pub struct Dataset {
    /// The columns of the dataset.
    pub cols: Vec<Series>,
}

impl Dataset {
    /// The names of the columns, in their order.
    pub open spec fn names(&self) -> Seq<Seq<char>> {
        self.cols@.map_values(|s: Series| s.name@)
    }

    /// Whether no name stands twice in the dataset.
    pub open spec fn wf(&self) -> bool {
        self.names().no_duplicates()
    }

    /// Where the column of a name stands, if the dataset has it.
    pub open spec fn index_of(&self, name: Seq<char>) -> Option<int> {
        find(self.names(), name)
    }

    /// The units of the column of a name, if the dataset has it.
    pub open spec fn units_of(&self, name: Seq<char>) -> Option<Seq<DataunitView>> {
        match self.index_of(name) {
            Some(i) => Some(units_view(self.cols@[i].units@)),
            None => None,
        }
    }

    /// The dataset as a map from the names of its columns to their units.
    pub open spec fn view_map(&self) -> Map<Seq<char>, Seq<DataunitView>> {
        Map::new(
            |name: Seq<char>| self.units_of(name) is Some,
            |name: Seq<char>| self.units_of(name)->0,
        )
    }

    /// Whether every column has as many units as the first.
    pub open spec fn even(&self) -> bool {
        forall|i: int|
            0 <= i < self.cols@.len() ==> (#[trigger] self.cols@[i]).units@.len()
                == self.cols@[0].units@.len()
    }

    /// The number of rows of a dataset whose columns are of one length.
    pub open spec fn spec_size(&self) -> nat {
        if self.cols@.len() == 0 {
            0
        } else {
            self.cols@[0].units@.len()
        }
    }

    /// A dataset without columns.
    pub fn new() -> (ds: Dataset)
        ensures
            ds.cols@.len() == 0,
            ds.wf(),
    {
        let ds = Dataset { cols: Vec::new() };
        assert(ds.names() =~= Seq::<Seq<char>>::empty());
        ds
    }

    /// The number of columns.
    pub fn len(&self) -> (n: usize)
        ensures
            n == self.cols@.len(),
    {
        self.cols.len()
    }

    /// Where the column of a name stands, if the dataset has it.
    pub fn position(&self, name: &str) -> (at: Option<usize>)
        requires
            self.wf(),
        ensures
            at is Some <==> self.index_of(name@) is Some,
            at is Some ==> at->0 as int == self.index_of(name@)->0,
            at is Some ==> at->0 < self.cols@.len() && self.cols@[at->0 as int].name@ == name@,
    {
        let wanted = String::from_str(name);
        let mut i: usize = 0;
        while i < self.cols.len()
            invariant
                self.wf(),
                i <= self.cols@.len(),
                wanted@ == name@,
                forall|j: int| 0 <= j < i ==> self.names()[j] != name@,
            decreases self.cols@.len() - i,
        {
            if self.cols[i].name == wanted {
                proof {
                    lemma_find_at(self.names(), name@, i as int);
                }
                return Some(i);
            }
            i = i + 1;
        }
        proof {
            lemma_find_none(self.names(), name@);
        }
        None
    }

    /// The units of the column of a name, if the dataset has it.
    pub fn get(&self, name: &str) -> (units: Option<&Vec<Dataunit>>)
        requires
            self.wf(),
        ensures
            units is Some <==> self.index_of(name@) is Some,
            units is Some ==> units_view(units->0@) == self.units_of(name@)->0,
    {
        match self.position(name) {
            Some(i) => Some(&self.cols[i].units),
            None => None,
        }
    }

    /// Put the units of a column into the dataset, in place of the units
    /// that the column had, or as a new last column.
    pub fn insert(&mut self, name: &str, units: Vec<Dataunit>)
        requires
            old(self).wf(),
        ensures
            final(self).wf(),
            final(self).units_of(name@) == Some(units_view(units@)),
            forall|other: Seq<char>|
                other != name@ ==> final(self).units_of(other) == old(self).units_of(other),
            final(self).view_map() == old(self).view_map().insert(name@, units_view(units@)),
            match old(self).index_of(name@) {
                Some(i) => {
                    &&& final(self).names() == old(self).names()
                    &&& final(self).cols@ == old(self).cols@.update(i, final(self).cols@[i])
                },
                None => {
                    &&& final(self).names() == old(self).names().push(name@)
                    &&& final(self).cols@.drop_last() == old(self).cols@
                },
            },
    {
        match self.position(name) {
            Some(i) => {
                let ghost before = self.names();
                self.cols[i].units = units;
                assert(self.names() =~= before);
                assert(self.cols@ =~= old(self).cols@.update(i as int, self.cols@[i as int]));
                proof {
                    lemma_find_at(self.names(), name@, i as int);
                    assert forall|other: Seq<char>| other != name@ implies self.units_of(other)
                        == old(self).units_of(other) by {
                        if find(before, other) is Some {
                            lemma_find_some(before, other);
                        }
                    }
                }
            },
            None => {
                let ghost before = self.names();
                self.cols.push(Series { name: String::from_str(name), units });
                assert(self.names() =~= before.push(name@));
                assert(self.cols@.drop_last() =~= old(self).cols@);
                assert(self.names().no_duplicates()) by {
                    assert forall|j: int| 0 <= j < before.len() implies before[j] != name@ by {
                        if before[j] == name@ {
                            assert(before.contains(name@));
                        }
                    }
                }
                proof {
                    lemma_find_at(self.names(), name@, self.names().len() - 1);
                    assert forall|other: Seq<char>| other != name@ implies self.units_of(other)
                        == old(self).units_of(other) by {
                        if find(before, other) is Some {
                            lemma_find_some(before, other);
                            lemma_find_at(self.names(), other, find(before, other)->0);
                        } else {
                            assert forall|j: int| 0 <= j < self.names().len()
                                implies self.names()[j]
                                != other by {
                                if j < before.len() && before[j] == other {
                                    assert(before.contains(other));
                                }
                            }
                            lemma_find_none(self.names(), other);
                        }
                    }
                }
            },
        }
        assert(self.view_map() =~= old(self).view_map().insert(name@, units_view(units@)));
    }
}

/// Get size of the dataset: the length of its columns, and 0 where it has
/// none. A dataset whose columns differ in length is refused.
pub fn get_dataset_size(ds: &Dataset) -> (res: Result<usize, Error>)
    ensures
        res is Ok <==> ds.even(),
        res is Ok ==> res->Ok_0 == ds.spec_size(),
        res is Err ==> res->Err_0 == Error::InvalidData,
{
    if ds.cols.len() == 0 {
        return Ok(0);
    }
    let size = ds.cols[0].units.len();
    let mut i: usize = 1;
    while i < ds.cols.len()
        invariant
            1 <= i <= ds.cols@.len(),
            size == ds.cols@[0].units@.len(),
            forall|j: int| 0 <= j < i ==> (#[trigger] ds.cols@[j]).units@.len() == size,
        decreases ds.cols@.len() - i,
    {
        if ds.cols[i].units.len() != size {
            return Err(Error::InvalidData);
        }
        i = i + 1;
    }
    Ok(size)
}

} // verus!
