//! `List` keeps a small catalog of keyed records in the memory, in the
//! order in which the file of the catalog stores them, and plans how each
//! change of the catalog is written to that file. The main purpose of
//! `List` is the inner data management between files, data types,
//! structures and so on in the DBMS.

use std::marker::PhantomData;
use vstd::prelude::*;
use crate::col::Col;
use crate::disk::{plan_view, written, Action, ActionView, FileId, FileIdView};
use crate::error::Error;
use crate::lookup::{find, lemma_find_at, lemma_find_none, lemma_find_some};
use crate::utils::{
    chunk, lemma_to_bytes_many_chunk, lemma_to_bytes_many_len, pad_to, spec_from_bytes_many,
    spec_to_bytes_many, Pod,
};

verus! {

/// Key trait so a struct can be stored in `List`.
pub trait ListKeyTrait<K: View> {
    /// Whether the record has a key.
    spec fn keyed(&self) -> bool;

    /// The unique key of a record.
    spec fn spec_key(&self) -> K::V;

    /// Whether the record has a key.
    fn has_key(&self) -> (b: bool)
        ensures
            b == self.keyed(),
    ;

    /// Key function to calculate the unique key of a record.
    fn key(&self) -> (k: K)
        requires
            self.keyed(),
        ensures
            k@ == self.spec_key(),
    ;
}

/// The keys of records, in the order of the records.
pub open spec fn keys_of<T: ListKeyTrait<String>>(recs: Seq<T>) -> Seq<Seq<char>> {
    Seq::new(recs.len(), |i: int| recs[i].spec_key())
}

/// Whether each of the records has a key.
pub open spec fn all_keyed<T: ListKeyTrait<String>>(recs: Seq<T>) -> bool {
    forall|i: int| 0 <= i < recs.len() ==> (#[trigger] recs[i]).keyed()
}

/// Whether bytes are the stored form of records that have keys, no two of
/// them the same key.
pub open spec fn loadable<T: Pod + ListKeyTrait<String>>(block: Seq<u8>) -> bool {
    &&& T::spec_width() > 0
    &&& block.len() % T::spec_width() == 0
    &&& spec_from_bytes_many::<T>(block) is Some
    &&& all_keyed(spec_from_bytes_many::<T>(block)->0)
    &&& keys_of(spec_from_bytes_many::<T>(block)->0).no_duplicates()
}

/// The stored form of records with one more record is the stored form of
/// the records and then that of the record.
pub proof fn lemma_stored_push<T: Pod>(recs: Seq<T>, rec: T)
    ensures
        spec_to_bytes_many(recs.push(rec)) == written(
            spec_to_bytes_many(recs),
            recs.len() * T::spec_width(),
            rec.spec_encode(),
        ),
{
    lemma_to_bytes_many_len(recs);
    T::lemma_round_trip(rec);
    assert(recs.push(rec).drop_last() =~= recs);
    assert(spec_to_bytes_many(recs.push(rec)) =~= written(
        spec_to_bytes_many(recs),
        recs.len() * T::spec_width(),
        rec.spec_encode(),
    ));
}

/// The stored form of records with one record replaced is the stored form
/// of the records with the block of that record overwritten.
pub proof fn lemma_stored_update<T: Pod>(recs: Seq<T>, i: int, rec: T)
    requires
        0 <= i < recs.len(),
    ensures
        spec_to_bytes_many(recs.update(i, rec)) == written(
            spec_to_bytes_many(recs),
            (i * T::spec_width()) as nat,
            rec.spec_encode(),
        ),
    decreases recs.len(),
{
    let w = T::spec_width();
    let front = spec_to_bytes_many(recs.drop_last());
    lemma_to_bytes_many_len(recs.drop_last());
    lemma_to_bytes_many_len(recs);
    T::lemma_round_trip(rec);
    T::lemma_round_trip(recs.last());
    assert(0 <= i * w) by (nonlinear_arith)
        requires
            0 <= i,
            0 <= w,
    ;
    if i == recs.len() - 1 {
        assert(recs.update(i, rec).drop_last() =~= recs.drop_last());
        assert(front + rec.spec_encode() =~= written(
            front + recs.last().spec_encode(),
            (i * w) as nat,
            rec.spec_encode(),
        ));
    } else {
        lemma_stored_update(recs.drop_last(), i, rec);
        assert(recs.update(i, rec).drop_last() =~= recs.drop_last().update(i, rec));
        assert(i * w + w <= (recs.len() - 1) * w) by (nonlinear_arith)
            requires
                0 <= i < recs.len() - 1,
                0 <= w,
        ;
        assert(written(front, (i * w) as nat, rec.spec_encode()) + recs.last().spec_encode()
            =~= written(front + recs.last().spec_encode(), (i * w) as nat, rec.spec_encode()));
    }
}

/// The stored form of records without the last record is the stored form
/// of the records, cut before the last block.
pub proof fn lemma_stored_drop_last<T: Pod>(recs: Seq<T>)
    requires
        recs.len() > 0,
    ensures
        spec_to_bytes_many(recs.drop_last()) == pad_to(
            spec_to_bytes_many(recs),
            ((recs.len() - 1) * T::spec_width()) as nat,
        ),
{
    lemma_to_bytes_many_len(recs.drop_last());
    lemma_to_bytes_many_len(recs);
    T::lemma_round_trip(recs.last());
    assert(spec_to_bytes_many(recs.drop_last()) =~= pad_to(
        spec_to_bytes_many(recs),
        ((recs.len() - 1) * T::spec_width()) as nat,
    ));
}

/// The plan that takes the record at a position out of a file of records.
pub open spec fn remove_plan(file: FileIdView, width: nat, ix: int, last: int, tail: Seq<u8>)
    -> Seq<
    ActionView,
> {
    let cut = ActionView::Resize(file, (last * width) as u64);
    let put = ActionView::Write(file, (ix * width) as u64, tail);
    if ix == last {
        seq![cut]
    } else {
        seq![put, cut]
    }
}

/// `List` implements methods to work with small lists stored as a `Col`
/// object. `List` keeps the records in the memory to reduce the access to
/// the data in the file, so if there are too many records, `List` object
/// may be consuming.
#[derive(Debug)]
pub struct List<T, K> {
    /// The file of the records.
    pub col: Col<T>,
    /// The records, in the order of the file.
    pub recs: Vec<T>,
    /// The type of the keys.
    pub marker: PhantomData<K>,
}

impl<T: Pod + ListKeyTrait<String> + Copy> List<T, String> {
    /// The keys of the records, in the order of the file.
    pub open spec fn keys(&self) -> Seq<Seq<char>> {
        keys_of(self.recs@)
    }

    /// Whether each record has a key, no two records have the same key, and
    /// the file of the records has a length.
    pub open spec fn wf(&self) -> bool {
        &&& self.col.wf()
        &&& T::spec_width() > 0
        &&& all_keyed(self.recs@)
        &&& self.keys().no_duplicates()
        &&& self.recs@.len() * T::spec_width() <= u64::MAX
    }

    /// Whether the memory and the file have room for one more record.
    pub open spec fn has_room(&self) -> bool {
        self.recs@.len() < usize::MAX && (self.recs@.len() + 1) * T::spec_width() <= u64::MAX
    }

    /// The position of the record of a key in the file, if there is such a
    /// record: the index map of the list.
    pub open spec fn position(&self, key: Seq<char>) -> Option<int> {
        find(self.keys(), key)
    }

    /// The content of the file that holds the records.
    pub open spec fn stored(&self) -> Seq<u8> {
        spec_to_bytes_many(self.recs@)
    }

    /// The position of the record of a key, if there is such a record.
    pub fn index(&self, key: &String) -> (at: Option<usize>)
        requires
            self.wf(),
        ensures
            at is Some <==> self.position(key@) is Some,
            at is Some ==> at->0 == self.position(key@)->0 && at->0 < self.recs@.len()
                && self.recs@[at->0 as int].spec_key() == key@,
    {
        let mut i: usize = 0;
        while i < self.recs.len()
            invariant
                self.wf(),
                i <= self.recs@.len(),
                forall|j: int| 0 <= j < i ==> self.keys()[j] != key@,
            decreases self.recs@.len() - i,
        {
            if self.recs[i].key() == *key {
                proof {
                    lemma_find_at(self.keys(), key@, i as int);
                }
                return Some(i);
            }
            i = i + 1;
        }
        proof {
            lemma_find_none(self.keys(), key@);
        }
        None
    }

    /// Create a new `List` object for the given file from the content of
    /// the file. A content that is not the stored form of records with
    /// keys that are all different is refused.
    pub fn new(file: FileId, block: &[u8]) -> (res: Result<Self, Error>)
        ensures
            res is Ok <==> loadable::<T>(block@),
            res is Ok ==> {
                &&& res->Ok_0.wf()
                &&& res->Ok_0.col.seq.file == file
                &&& Some(res->Ok_0.recs@) == spec_from_bytes_many::<T>(block@)
            },
            res is Err ==> res->Err_0 == Error::InvalidData,
    {
        let recs = match Col::<T>::decode_many(block) {
            Ok(recs) => recs,
            Err(e) => {
                return Err(e);
            },
        };
        let total = block.len();
        assert(recs@.len() * T::spec_width() <= u64::MAX) by {
            let w = T::spec_width();
            let n = block@.len();
            assert(recs@.len() == n / w);
            assert((n / w) * w <= n) by (nonlinear_arith)
                requires
                    w > 0,
                    n >= 0,
            ;
        }
        let mut list = Self { col: Col::new(file), recs: Vec::new(), marker: PhantomData };
        assert(list.keys() =~= Seq::<Seq<char>>::empty());
        let mut i: usize = 0;
        while i < recs.len()
            invariant
                i <= recs@.len(),
                list.wf(),
                list.col.seq.file == file,
                list.recs@ == recs@.take(i as int),
                recs@.len() * T::spec_width() <= u64::MAX,
                Some(recs@) == spec_from_bytes_many::<T>(block@),
            decreases recs@.len() - i,
        {
            let rec = recs[i];
            if !rec.has_key() {
                return Err(Error::InvalidData);
            }
            let key = rec.key();
            if list.index(&key).is_some() {
                proof {
                    let j = list.position(key@)->0;
                    lemma_find_some(list.keys(), key@);
                    assert(list.keys()[j] == list.recs@[j].spec_key());
                    assert(keys_of(recs@)[j] == keys_of(recs@)[i as int]);
                }
                return Err(Error::InvalidData);
            }
            let ghost before = list.keys();
            list.recs.push(rec);
            proof {
                assert(list.recs@ =~= recs@.take(i + 1));
                assert(list.keys() =~= before.push(key@));
                assert(list.keys().no_duplicates()) by {
                    assert forall|j: int| 0 <= j < before.len() implies before[j] != key@ by {
                        if before[j] == key@ {
                            assert(before.contains(key@));
                        }
                    }
                }
                assert(list.recs@.len() * T::spec_width() <= recs@.len() * T::spec_width())
                    by (nonlinear_arith)
                    requires
                        list.recs@.len() <= recs@.len(),
                        T::spec_width() >= 0,
                ;
            }
            i = i + 1;
        }
        assert(recs@.take(recs@.len() as int) =~= recs@);
        Ok(list)
    }

    /// Check whether the key exists.
    pub fn contains(&self, key: &String) -> (found: bool)
        requires
            self.wf(),
        ensures
            found == self.position(key@) is Some,
    {
        self.index(key).is_some()
    }

    /// Size of the list.
    pub fn size(&self) -> (n: usize)
        ensures
            n == self.recs@.len(),
    {
        self.recs.len()
    }

    /// List all records as a vector, in the order of the file.
    pub fn list(&self) -> (recs: Vec<T>)
        ensures
            recs@ == self.recs@,
    {
        let mut recs: Vec<T> = Vec::new();
        let mut i: usize = 0;
        while i < self.recs.len()
            invariant
                i <= self.recs@.len(),
                recs@ == self.recs@.take(i as int),
            decreases self.recs@.len() - i,
        {
            recs.push(self.recs[i]);
            assert(recs@ =~= self.recs@.take(i + 1));
            i = i + 1;
        }
        assert(self.recs@.take(self.recs@.len() as int) =~= self.recs@);
        recs
    }

    /// Mapping of all records by key: each record with its key, in the
    /// order of the file. The keys are those that have a position.
    pub fn map(&self) -> (pairs: Vec<(String, T)>)
        requires
            self.wf(),
        ensures
            pairs@.len() == self.recs@.len(),
            forall|i: int|
                0 <= i < pairs@.len() ==> (#[trigger] pairs@[i]).0@ == self.keys()[i] && pairs@[i].1
                    == self.recs@[i],
            forall|i: int|
                0 <= i < pairs@.len() ==> self.position((#[trigger] pairs@[i]).0@) == Some(i),
            forall|key: Seq<char>|
                self.position(key) is Some ==> 0 <= self.position(key)->0 < pairs@.len()
                    && pairs@[self.position(key)->0].0@ == key,
    {
        let mut pairs: Vec<(String, T)> = Vec::new();
        let mut i: usize = 0;
        while i < self.recs.len()
            invariant
                self.wf(),
                i <= self.recs@.len(),
                pairs@.len() == i,
                forall|j: int|
                    0 <= j < i ==> (#[trigger] pairs@[j]).0@ == self.keys()[j] && pairs@[j].1
                        == self.recs@[j],
            decreases self.recs@.len() - i,
        {
            pairs.push((self.recs[i].key(), self.recs[i]));
            i = i + 1;
        }
        proof {
            assert forall|j: int| 0 <= j < pairs@.len() implies self.position(
                (#[trigger] pairs@[j]).0@,
            ) == Some(j) by {
                lemma_find_at(self.keys(), pairs@[j].0@, j);
            }
            assert forall|key: Seq<char>| self.position(key) is Some implies 0 <= self.position(
                key,
            )->0 < pairs@.len() && pairs@[self.position(key)->0].0@ == key by {
                lemma_find_some(self.keys(), key);
            }
        }
        pairs
    }

    /// Get record by key.
    pub fn detail(&self, key: &String) -> (res: Result<T, Error>)
        requires
            self.wf(),
        ensures
            res is Ok <==> self.position(key@) is Some,
            res is Ok ==> res->Ok_0 == self.recs@[self.position(key@)->0],
            res is Err ==> res->Err_0 == Error::NotFound,
    {
        match self.index(key) {
            Some(ix) => Ok(self.recs[ix]),
            None => Err(Error::NotFound),
        }
    }

    /// Add a new record: it goes after the last record of the file. A
    /// record whose key is in the list is refused, and so is a record for
    /// which the file has no room.
    pub fn add(&mut self, rec: &T) -> (res: Result<Action, Error>)
        requires
            old(self).wf(),
            rec.keyed(),
        ensures
            final(self).wf(),
            final(self).col == old(self).col,
            res is Ok <==> old(self).position(rec.spec_key()) is None && old(self).has_room(),
            res is Ok ==> {
                &&& final(self).recs@ == old(self).recs@.push(*rec)
                &&& res->Ok_0@ == ActionView::Write(
                    old(self).col.seq.file@,
                    (old(self).recs@.len() * T::spec_width()) as u64,
                    rec.spec_encode(),
                )
                &&& final(self).stored() == written(
                    old(self).stored(),
                    old(self).recs@.len() * T::spec_width(),
                    rec.spec_encode(),
                )
                &&& final(self).position(rec.spec_key()) == Some(old(self).recs@.len() as int)
            },
            res is Err ==> *final(self) == *old(self),
            res is Err ==> res->Err_0 == (if old(self).position(rec.spec_key()) is Some {
                Error::AlreadyExists
            } else {
                Error::IoFailure
            }),
    {
        let key = rec.key();
        if self.index(&key).is_some() {
            return Err(Error::AlreadyExists);
        }
        let n = self.recs.len();
        let width = Self::width();
        if n == usize::MAX {
            return Err(Error::IoFailure);
        }
        match crate::seq::checked_product(n + 1, width) {
            Some(_) => {},
            None => {
                return Err(Error::IoFailure);
            },
        }
        assert(n * T::spec_width() <= (n + 1) * T::spec_width()) by (nonlinear_arith)
            requires
                T::spec_width() >= 0,
        ;
        let action = match self.col.update(n, rec) {
            Ok(action) => action,
            Err(e) => {
                return Err(e);
            },
        };
        let ghost before = self.keys();
        self.recs.push(*rec);
        proof {
            assert(self.keys() =~= before.push(rec.spec_key()));
            assert(self.keys().no_duplicates()) by {
                assert forall|j: int| 0 <= j < before.len() implies before[j] != rec.spec_key() by {
                    if before[j] == rec.spec_key() {
                        assert(before.contains(rec.spec_key()));
                    }
                }
            }
            lemma_stored_push(old(self).recs@, *rec);
            lemma_find_at(self.keys(), rec.spec_key(), n as int);
        }
        Ok(action)
    }

    /// Remove the record by key: the last record of the file takes its
    /// place and its position, and the file loses its last block. Where the
    /// record is the last one, the file only loses its last block.
    pub fn remove(&mut self, key: &String) -> (res: Result<Vec<Action>, Error>)
        requires
            old(self).wf(),
        ensures
            final(self).wf(),
            final(self).col == old(self).col,
            res is Ok <==> old(self).position(key@) is Some,
            res is Ok ==> {
                let ix = old(self).position(key@)->0;
                let last = old(self).recs@.len() - 1;
                &&& final(self).recs@
                    == old(self).recs@.update(ix, old(self).recs@[last]).drop_last()
                &&& plan_view(res->Ok_0@) == remove_plan(
                    old(self).col.seq.file@,
                    T::spec_width(),
                    ix,
                    last,
                    old(self).recs@[last].spec_encode(),
                )
                &&& final(self).stored() == pad_to(
                    if ix == last {
                        old(self).stored()
                    } else {
                        written(
                            old(self).stored(),
                            (ix * T::spec_width()) as nat,
                            old(self).recs@[last].spec_encode(),
                        )
                    },
                    (last * T::spec_width()) as nat,
                )
                &&& final(self).position(key@) is None
                &&& ix != last
                    ==> final(self).position(old(self).recs@[last].spec_key()) == Some(ix)
            },
            res is Err ==> *final(self) == *old(self) && res->Err_0 == Error::NotFound,
    {
        let ix = match self.index(key) {
            Some(ix) => ix,
            None => {
                return Err(Error::NotFound);
            },
        };
        let n = self.recs.len();
        let last = n - 1;
        let tail = self.recs[last];
        let ghost w = T::spec_width();
        proof {
            assert(0 <= ix * w <= last * w <= n * w) by (nonlinear_arith)
                requires
                    0 <= ix <= last,
                    last == n - 1,
                    w >= 0,
            ;
        }
        let mut plan: Vec<Action> = Vec::new();
        if ix != last {
            match self.col.update(ix, &tail) {
                Ok(put) => {
                    plan.push(put);
                },
                Err(_) => {},
            }
        }
        match self.col.resize(last) {
            Ok(cut) => {
                plan.push(cut);
            },
            Err(_) => {},
        }
        let ghost before = self.keys();
        let ghost old_recs = self.recs@;
        self.recs.swap_remove(ix);
        proof {
            let new_recs = self.recs@;
            assert(new_recs == old_recs.update(ix as int, old_recs[last as int]).drop_last());
            assert(self.keys() =~= before.update(ix as int, before[last as int]).drop_last());
            assert(self.keys().no_duplicates());
            assert(all_keyed(self.recs@));
            assert(self.recs@.len() * w <= n * w) by (nonlinear_arith)
                requires
                    self.recs@.len() <= n,
                    w >= 0,
            ;
            lemma_stored_update(old_recs, ix as int, old_recs[last as int]);
            lemma_stored_drop_last(old_recs.update(ix as int, old_recs[last as int]));
            if ix == last {
                assert(old_recs.update(ix as int, old_recs[last as int]) =~= old_recs);
            }
            assert(self.position(key@) is None) by {
                assert forall|j: int| 0 <= j < self.keys().len() implies self.keys()[j] != key@ by {
                    assert(before[ix as int] == key@);
                    if j == ix {
                        assert(self.keys()[j] == before[last as int]);
                    } else {
                        assert(self.keys()[j] == before[j]);
                    }
                }
                lemma_find_none(self.keys(), key@);
            }
            if ix != last {
                lemma_find_at(self.keys(), old_recs[last as int].spec_key(), ix as int);
            }
            assert(plan_view(plan@) =~= (if ix == last {
                seq![plan@[0]@]
            } else {
                seq![plan@[0]@, plan@[1]@]
            }));
        }
        Ok(plan)
    }

    /// Modify record by key: the record takes the place of the record of
    /// the key. A record with another key, which is in the list already, is
    /// refused.
    pub fn modify(&mut self, key: &String, rec: &T) -> (res: Result<Action, Error>)
        requires
            old(self).wf(),
            rec.keyed(),
        ensures
            final(self).wf(),
            final(self).col == old(self).col,
            res is Ok <==> old(self).position(key@) is Some && (rec.spec_key() == key@ || old(
                self,
            ).position(rec.spec_key()) is None),
            res is Ok ==> {
                let ix = old(self).position(key@)->0;
                &&& final(self).recs@ == old(self).recs@.update(ix, *rec)
                &&& res->Ok_0@ == ActionView::Write(
                    old(self).col.seq.file@,
                    (ix * T::spec_width()) as u64,
                    rec.spec_encode(),
                )
                &&& final(self).stored() == written(
                    old(self).stored(),
                    (ix * T::spec_width()) as nat,
                    rec.spec_encode(),
                )
                &&& final(self).position(rec.spec_key()) == Some(ix)
            },
            res is Err ==> *final(self) == *old(self),
            res is Err ==> res->Err_0 == (if old(self).position(key@) is None {
                Error::NotFound
            } else {
                Error::AlreadyExists
            }),
    {
        let ix = match self.index(key) {
            Some(ix) => ix,
            None => {
                return Err(Error::NotFound);
            },
        };
        let new_key = rec.key();
        if new_key != *key && self.index(&new_key).is_some() {
            return Err(Error::AlreadyExists);
        }
        let ghost w = T::spec_width();
        proof {
            assert(0 <= ix * w <= self.recs@.len() * w) by (nonlinear_arith)
                requires
                    0 <= ix <= self.recs@.len(),
                    w >= 0,
            ;
        }
        let action = match self.col.update(ix, rec) {
            Ok(action) => action,
            Err(e) => {
                return Err(e);
            },
        };
        let ghost before = self.keys();
        self.recs.set(ix, *rec);
        proof {
            assert(self.keys() =~= before.update(ix as int, rec.spec_key()));
            assert(self.keys().no_duplicates()) by {
                assert forall|j: int| 0 <= j < before.len() && j != ix implies before[j]
                    != rec.spec_key() by {
                    if before[j] == rec.spec_key() {
                        if rec.spec_key() == key@ {
                            assert(before[ix as int] == key@);
                        } else {
                            assert(before.contains(rec.spec_key()));
                        }
                    }
                }
            }
            lemma_stored_update(old(self).recs@, ix as int, *rec);
            lemma_find_at(self.keys(), rec.spec_key(), ix as int);
        }
        Ok(action)
    }

    /// A list without records for the given file.
    pub fn empty(file: FileId) -> (list: Self)
        requires
            T::spec_width() > 0,
        ensures
            list.wf(),
            list.col.seq.file == file,
            list.recs@.len() == 0,
    {
        let list = Self { col: Col::new(file), recs: Vec::new(), marker: PhantomData };
        assert(list.keys() =~= Seq::<Seq<char>>::empty());
        assert(0 * T::spec_width() == 0) by (nonlinear_arith);
        list
    }

    /// Keep the records and take another file for them: the file of the
    /// list was given that name.
    pub fn refile(&mut self, file: FileId)
        requires
            old(self).wf(),
        ensures
            final(self).wf(),
            final(self).col.seq.file == file,
            final(self).recs == old(self).recs,
    {
        self.col = Col::new(file);
    }

    /// Get size of a record in bytes.
    pub fn width() -> (n: usize)
        ensures
            n == T::spec_width(),
    {
        T::width()
    }
}

/// The record of a key is the record that the file of the list holds at
/// the position of the key.
pub proof fn lemma_detail_is_stored<T: Pod + ListKeyTrait<String> + Copy>(
    list: List<T, String>,
    key: Seq<char>,
)
    requires
        list.wf(),
        list.position(key) is Some,
    ensures
        0 <= list.position(key)->0 < list.recs@.len(),
        list.recs@[list.position(key)->0].spec_key() == key,
        T::spec_decode(chunk(list.stored(), T::spec_width(), list.position(key)->0)) == Some(
            list.recs@[list.position(key)->0],
        ),
{
    let i = list.position(key)->0;
    lemma_find_some(list.keys(), key);
    lemma_to_bytes_many_chunk(list.recs@, i);
    T::lemma_round_trip(list.recs@[i]);
}

/// The file of a list reads back as the records of the list.
pub proof fn lemma_stored_is_list<T: Pod + ListKeyTrait<String> + Copy>(list: List<T, String>)
    requires
        list.wf(),
    ensures
        spec_from_bytes_many::<T>(list.stored()) == Some(list.recs@),
        list.stored().len() == list.recs@.len() * T::spec_width(),
{
    crate::utils::lemma_many_round_trip(list.recs@);
    lemma_to_bytes_many_len(list.recs@);
}

} // verus!
