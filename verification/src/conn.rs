//! `Conn` is a basic structure for the connection that provides the full
//! interface to the DBMS.
//!
//! A connection keeps the catalog of the feeds and, for each feed, the
//! catalog of its columns. Each operation that changes the stored data
//! changes the catalogs in the memory and returns the plan that makes the
//! directory agree with them. A driver that fails to carry a plan out keeps
//! the connection as it was before the operation.

use vstd::prelude::*;
use vstd::string::StringExecFns;
use vstd::utf8::encode_utf8;
use crate::datatype::Datatype;
use crate::disk::{
    content, plan_view, run, Action, ActionView, DiskView, FileId, FileIdView,
};
use crate::error::Error;
use crate::items::{stored_name, ColItem, FeedItem};
use crate::laws::lemma_size_set_agrees;
use crate::laws_catalog::{
    creates_only, lemma_col_add_agrees, lemma_col_remove_agrees, lemma_col_rename_agrees,
    lemma_creates_agree, lemma_feed_add_agrees, lemma_feed_remove_agrees,
    lemma_feed_rename_agrees,
};
use crate::list::{keys_of, loadable, remove_plan, List, ListKeyTrait};
use crate::lookup::lemma_find_some;
use crate::seq::SeqFile;
use crate::utils::{is_allowed_name, pad_to, spec_from_bytes_many, spec_to_bytes_many, Pod};

verus! {

/// The actions that open the files of columns of a feed: each file is
/// created without content unless it is there.
pub open spec fn open_plan(feed: Seq<char>, cols: Seq<ColItem>) -> Seq<ActionView> {
    Seq::new(
        cols.len(),
        |j: int| ActionView::Create(FileIdView::Col(feed, cols[j].spec_name())),
    )
}

/// The actions that open a feed: the file of its col list and the files
/// of its columns are created without content unless they are there.
pub open spec fn feed_open_plan(feed: Seq<char>, cols: Seq<ColItem>) -> Seq<ActionView> {
    seq![ActionView::Create(FileIdView::ColList(feed))] + open_plan(feed, cols)
}

/// The actions that open the first `n` of the feeds, one feed after the
/// other.
pub open spec fn conn_open_plan(feeds: Seq<FeedItem>, cols: Seq<Seq<ColItem>>, n: nat) -> Seq<
    ActionView,
>
    decreases n,
{
    if n == 0 {
        Seq::empty()
    } else {
        conn_open_plan(feeds, cols, (n - 1) as nat) + feed_open_plan(
            feeds[n - 1].spec_name(),
            cols[n - 1],
        )
    }
}

/// What the actions of two plans hold, one plan after the other.
pub proof fn lemma_plan_view_concat(first: Seq<Action>, second: Seq<Action>)
    ensures
        plan_view(first + second) == plan_view(first) + plan_view(second),
{
    assert(plan_view(first + second) =~= plan_view(first) + plan_view(second));
}

/// The actions that give the files of columns of a feed the length of a
/// number of rows.
pub open spec fn resize_plan(feed: Seq<char>, cols: Seq<ColItem>, size: nat) -> Seq<ActionView> {
    Seq::new(
        cols.len(),
        |j: int|
            ActionView::Resize(
                FileIdView::Col(feed, cols[j].spec_name()),
                (size * cols[j].datatype.spec_size()) as u64,
            ),
    )
}

/// Whether a file of each of the columns can hold a number of rows.
pub open spec fn sizable(cols: Seq<ColItem>, size: nat) -> bool {
    forall|j: int| 0 <= j < cols.len()
        ==> size * (#[trigger] cols[j]).datatype.spec_size() <= u64::MAX
}

/// Connection object that manages all the entities.
#[derive(Debug)]
pub struct Conn {
    /// Path to the directory where the data and settings are stored
    pub path: String,
    /// Feed list object to manage the feeds options
    pub feed_list: List<FeedItem, String>,
    /// Col list objects, one for each feed, in the order of the feed list
    pub col_lists: Vec<List<ColItem, String>>,
}

impl Conn {
    /// Whether the catalogs are well formed and each feed has the catalog
    /// of its columns.
    pub open spec fn wf(&self) -> bool {
        &&& self.feed_list.wf()
        &&& self.feed_list.col.seq.file@ == FileIdView::FeedList
        &&& self.col_lists@.len() == self.feed_list.recs@.len()
        &&& forall|i: int|
            0 <= i < self.col_lists@.len() ==> {
                &&& (#[trigger] self.col_lists@[i]).wf()
                &&& self.col_lists@[i].col.seq.file@ == FileIdView::ColList(
                    self.feed_list.keys()[i],
                )
            }
    }

    /// Whether two connections hold the same catalogs for the same path.
    pub open spec fn same(&self, other: Conn) -> bool {
        &&& self.path == other.path
        &&& self.feed_list == other.feed_list
        &&& self.col_lists@ == other.col_lists@
    }

    /// Whether the last feed of the connection began with what a directory
    /// held for it: the col list of its columns and, for each of its
    /// columns, a file without content or no file. A feed without columns
    /// began so with a directory that held no col list for it, or an empty
    /// one.
    pub open spec fn adopted(&self, disk: DiskView) -> bool {
        let n = self.feeds().len() - 1;
        let feed = self.feeds()[n].spec_name();
        &&& content(disk, FileIdView::ColList(feed)) == spec_to_bytes_many(self.cols(n))
        &&& forall|j: int|
            0 <= j < self.cols(n).len() ==> content(
                disk,
                FileIdView::Col(feed, (#[trigger] self.cols(n)[j]).spec_name()),
            ).len() == 0
    }

    /// The feeds, in the order of the feed list.
    pub open spec fn feeds(&self) -> Seq<FeedItem> {
        self.feed_list.recs@
    }

    /// The columns of the feed at a position, in the order of its col list.
    pub open spec fn cols(&self, i: int) -> Seq<ColItem> {
        self.col_lists@[i].recs@
    }

    /// The position of a feed in the feed list, if the feed is there.
    pub open spec fn feed_at(&self, feed: Seq<char>) -> Option<int> {
        self.feed_list.position(feed)
    }

    /// The position of a column in the col list of the feed at a position,
    /// if the column is there.
    pub open spec fn col_at(&self, i: int, col: Seq<char>) -> Option<int> {
        self.col_lists@[i].position(col)
    }

    /// The position of a feed in the feed list, if the feed is there.
    pub fn feed_index(&self, feed_name: &str) -> (at: Option<usize>)
        requires
            self.wf(),
        ensures
            at is Some <==> self.feed_at(feed_name@) is Some,
            at is Some ==> at->0 == self.feed_at(feed_name@)->0 && at->0 < self.feeds().len()
                && self.feeds()[at->0 as int].spec_name() == feed_name@,
    {
        let key = String::from_str(feed_name);
        self.feed_list.index(&key)
    }

    /// The position of a column in the col list of the feed at a position,
    /// if the column is there.
    pub fn col_index(&self, i: usize, col_name: &str) -> (at: Option<usize>)
        requires
            self.wf(),
            i < self.feeds().len(),
        ensures
            at is Some <==> self.col_at(i as int, col_name@) is Some,
            at is Some ==> at->0 == self.col_at(i as int, col_name@)->0 && at->0 < self.cols(
                i as int,
            ).len() && self.cols(i as int)[at->0 as int].spec_name() == col_name@,
    {
        let key = String::from_str(col_name);
        self.col_lists[i].index(&key)
    }

    /// Path to the data
    pub fn path(&self) -> (path: String)
        ensures
            path@ == self.path@,
    {
        self.path.clone()
    }

    /// List the feeds.
    pub fn feed_list(&self) -> (feeds: Vec<FeedItem>)
        ensures
            feeds@ == self.feeds(),
    {
        self.feed_list.list()
    }

    /// Check if the feed exists.
    pub fn feed_exists(&self, feed_name: &str) -> (found: bool)
        requires
            self.wf(),
        ensures
            found == self.feed_at(feed_name@) is Some,
    {
        self.feed_index(feed_name).is_some()
    }

    /// List columns of the feed.
    pub fn col_list(&self, feed_name: &str) -> (res: Result<Vec<ColItem>, Error>)
        requires
            self.wf(),
        ensures
            res is Ok <==> self.feed_at(feed_name@) is Some,
            res is Ok ==> res->Ok_0@ == self.cols(self.feed_at(feed_name@)->0),
            res is Err ==> res->Err_0 == Error::NotFound,
    {
        match self.feed_index(feed_name) {
            Some(i) => Ok(self.col_lists[i].list()),
            None => Err(Error::NotFound),
        }
    }

    /// Check if the column exists in the feed. No feed, no column.
    pub fn col_exists(&self, feed_name: &str, col_name: &str) -> (found: bool)
        requires
            self.wf(),
        ensures
            found == (self.feed_at(feed_name@) is Some && self.col_at(
                self.feed_at(feed_name@)->0,
                col_name@,
            ) is Some),
    {
        match self.feed_index(feed_name) {
            Some(i) => self.col_index(i, col_name).is_some(),
            None => false,
        }
    }

    /// Get the size of the feed.
    pub fn size_get(&self, feed_name: &str) -> (res: Result<usize, Error>)
        requires
            self.wf(),
        ensures
            res is Ok <==> self.feed_at(feed_name@) is Some,
            res is Ok ==> res->Ok_0 == self.feeds()[self.feed_at(feed_name@)->0].size,
            res is Err ==> res->Err_0 == Error::NotFound,
    {
        match self.feed_index(feed_name) {
            Some(i) => Ok(self.feed_list.recs[i].size),
            None => Err(Error::NotFound),
        }
    }
}

impl Conn {
    /// The action that opens the file of a column of a feed.
    fn _col_open(feed_name: &String, col_item: &ColItem) -> (action: Action)
        requires
            col_item.wf(),
        ensures
            action@ == ActionView::Create(FileIdView::Col(feed_name@, col_item.spec_name())),
    {
        Action::Create(FileId::Col(feed_name.clone(), col_item.get_name()))
    }

    /// Open a feed from the content of the file of its col list: the col
    /// list, and the actions that open the files of the feed.
    fn _feed_open(feed_name: &String, col_list: &[u8]) -> (res: Result<
        (List<ColItem, String>, Vec<Action>),
        Error,
    >)
        ensures
            res is Ok <==> loadable::<ColItem>(col_list@),
            res matches Ok(opened) ==> {
                &&& opened.0.wf()
                &&& opened.0.col.seq.file@ == FileIdView::ColList(feed_name@)
                &&& Some(opened.0.recs@) == spec_from_bytes_many::<ColItem>(col_list@)
                &&& plan_view(opened.1@) == feed_open_plan(feed_name@, opened.0.recs@)
            },
            res is Err ==> res->Err_0 == Error::InvalidData,
    {
        let list = match List::<ColItem, String>::new(FileId::ColList(feed_name.clone()),
            col_list) {
            Ok(list) => list,
            Err(e) => {
                return Err(e);
            },
        };
        let mut plan: Vec<Action> = Vec::new();
        plan.push(Action::Create(FileId::ColList(feed_name.clone())));
        let mut j: usize = 0;
        while j < list.recs.len()
            invariant
                list.wf(),
                j <= list.recs@.len(),
                plan@.len() == j + 1,
                plan@[0]@ == ActionView::Create(FileIdView::ColList(feed_name@)),
                forall|m: int|
                    1 <= m <= j ==> (#[trigger] plan@[m])@ == ActionView::Create(
                        FileIdView::Col(feed_name@, list.recs@[m - 1].spec_name()),
                    ),
            decreases list.recs@.len() - j,
        {
            assert(list.recs@[j as int].keyed());
            plan.push(Self::_col_open(feed_name, &list.recs[j]));
            j = j + 1;
        }
        assert(plan_view(plan@) =~= feed_open_plan(feed_name@, list.recs@));
        Ok((list, plan))
    }

    /// Create a connection to the directory at `path` from the content of
    /// the file of the feed list and, for each feed in the order of that
    /// list, the content of the file of its col list. The plan opens the
    /// files of all feeds.
    #[verifier::rlimit(50)]
    pub fn new(path: &str, feed_list: &[u8], col_lists: &Vec<Vec<u8>>) -> (res: Result<
        (Conn, Vec<Action>),
        Error,
    >)
        ensures
            res is Ok <==> {
                &&& loadable::<FeedItem>(feed_list@)
                &&& col_lists@.len() == spec_from_bytes_many::<FeedItem>(feed_list@)->0.len()
                &&& forall|i: int|
                    0 <= i < col_lists@.len() ==> loadable::<ColItem>((#[trigger] col_lists@[i])@)
            },
            res matches Ok(opened) ==> {
                &&& opened.0.wf()
                &&& opened.0.path@ == path@
                &&& Some(opened.0.feeds()) == spec_from_bytes_many::<FeedItem>(feed_list@)
                &&& forall|i: int|
                    0 <= i < col_lists@.len() ==> Some(opened.0.cols(i)) == spec_from_bytes_many::<
                        ColItem,
                    >((#[trigger] col_lists@[i])@)
                &&& plan_view(opened.1@) == conn_open_plan(
                    opened.0.feeds(),
                    Seq::new(opened.0.feeds().len(), |i: int| opened.0.cols(i)),
                    opened.0.feeds().len(),
                )
            },
            res matches Ok(opened) ==> forall|disk: DiskView| #[trigger]
                opened.0.agrees(disk) ==> opened.0.agrees(run(disk, plan_view(opened.1@))),
            res is Err ==> res->Err_0 == Error::InvalidData,
    {
        let feeds = match List::<FeedItem, String>::new(FileId::FeedList, feed_list) {
            Ok(feeds) => feeds,
            Err(e) => {
                return Err(e);
            },
        };
        if col_lists.len() != feeds.recs.len() {
            return Err(Error::InvalidData);
        }
        let mut lists: Vec<List<ColItem, String>> = Vec::new();
        let mut plan: Vec<Action> = Vec::new();
        let mut i: usize = 0;
        while i < feeds.recs.len()
            invariant
                feeds.wf(),
                col_lists@.len() == feeds.recs@.len(),
                i <= feeds.recs@.len(),
                lists@.len() == i,
                forall|k: int|
                    0 <= k < i ==> {
                        &&& (#[trigger] lists@[k]).wf()
                        &&& lists@[k].col.seq.file@ == FileIdView::ColList(feeds.keys()[k])
                        &&& Some(lists@[k].recs@) == spec_from_bytes_many::<ColItem>(
                            col_lists@[k]@,
                        )
                        &&& loadable::<ColItem>(col_lists@[k]@)
                    },
                plan_view(plan@) == conn_open_plan(
                    feeds.recs@,
                    Seq::new(i as nat, |k: int| lists@[k].recs@),
                    i as nat,
                ),
            decreases feeds.recs@.len() - i,
        {
            assert(feeds.recs@[i as int].keyed());
            let key = feeds.recs[i].key();
            let (list, mut part) = match Self::_feed_open(&key, col_lists[i].as_slice()) {
                Ok(opened) => opened,
                Err(e) => {
                    return Err(e);
                },
            };
            proof {
                let before = Seq::new(i as nat, |k: int| lists@[k].recs@);
                let after = Seq::new((i + 1) as nat, |k: int| lists@.push(list)[k].recs@);
                lemma_plan_view_concat(plan@, part@);
                lemma_conn_open_plan_ext(feeds.recs@, before, after, i as nat);
            }
            lists.push(list);
            plan.append(&mut part);
            i = i + 1;
        }
        let conn = Conn { path: String::from_str(path), feed_list: feeds, col_lists: lists };
        proof {
            assert forall|k: int| 0 <= k < col_lists@.len() implies loadable::<ColItem>(
                (#[trigger] col_lists@[k])@,
            ) && Some(conn.cols(k)) == spec_from_bytes_many::<ColItem>(col_lists@[k]@) by {
                assert(lists@[k].wf());
            }
            let a = Seq::new(conn.feeds().len(), |k: int| lists@[k].recs@);
            let b = Seq::new(conn.feeds().len(), |k: int| conn.cols(k));
            assert(a =~= b);
            lemma_conn_open_plan_creates(conn.feeds(), b, conn.feeds().len());
            assert forall|disk: DiskView| #[trigger] conn.agrees(disk) implies conn.agrees(
                run(disk, plan_view(plan@)),
            ) by {
                lemma_creates_agree(conn.feeds(), conn.all_cols(), plan_view(plan@), disk);
            }
        }
        Ok((conn, plan))
    }
}

impl Conn {
    /// Add a new feed by its name. The content of the file of its col
    /// list, which is empty unless the directory of the feed was left
    /// behind, gives the columns that the feed begins with.
    #[verifier::rlimit(50)]
    pub fn feed_add(&mut self, feed_name: &str, col_list: &[u8]) -> (res: Result<
        Vec<Action>,
        Error,
    >)
        requires
            old(self).wf(),
        ensures
            final(self).wf(),
            final(self).path == old(self).path,
            res is Ok <==> {
                &&& old(self).feed_at(feed_name@) is None
                &&& is_allowed_name(feed_name@)
                &&& old(self).feed_at(stored_name(feed_name@)) is None
                &&& loadable::<ColItem>(col_list@)
                &&& old(self).feed_list.has_room()
            },
            res is Ok ==> {
                let n = old(self).feeds().len() as int;
                let item = final(self).feeds()[n];
                &&& final(self).feeds() == old(self).feeds().push(item)
                &&& item.name@ == pad_to(encode_utf8(feed_name@), 256)
                &&& item.size == 0
                &&& item.spec_name() == stored_name(feed_name@)
                &&& final(self).col_lists@.len() == n + 1
                &&& final(self).col_lists@.drop_last() == old(self).col_lists@
                &&& Some(final(self).cols(n)) == spec_from_bytes_many::<ColItem>(col_list@)
                &&& plan_view(res->Ok_0@) == seq![
                    ActionView::CreateDir(item.spec_name()),
                    ActionView::Write(FileIdView::FeedList, (n * 264) as u64, item.spec_encode()),
                ] + feed_open_plan(item.spec_name(), final(self).cols(n))
            },
            res is Ok ==> forall|disk: DiskView| #[trigger]
                old(self).agrees(disk) && final(self).adopted(disk) ==> final(self).agrees(
                    run(disk, plan_view(res->Ok_0@)),
                ),
            res is Err ==> final(self).same(*old(self)),
            res is Err ==> res->Err_0 == (if old(self).feed_at(feed_name@) is Some {
                Error::AlreadyExists
            } else if !is_allowed_name(feed_name@) {
                Error::InvalidInput
            } else if old(self).feed_at(stored_name(feed_name@)) is Some {
                Error::AlreadyExists
            } else if !loadable::<ColItem>(col_list@) {
                Error::InvalidData
            } else {
                Error::IoFailure
            }),
    {
        if self.feed_exists(feed_name) {
            return Err(Error::AlreadyExists);
        }
        let feed_item = match FeedItem::new(feed_name) {
            Ok(feed_item) => feed_item,
            Err(e) => {
                return Err(e);
            },
        };
        let key = feed_item.key();
        if self.feed_list.index(&key).is_some() {
            return Err(Error::AlreadyExists);
        }
        let (catalog, mut opened) = match Self::_feed_open(&key, col_list) {
            Ok(opened) => opened,
            Err(e) => {
                return Err(e);
            },
        };
        let write = match self.feed_list.add(&feed_item) {
            Ok(write) => write,
            Err(e) => {
                return Err(e);
            },
        };
        self.col_lists.push(catalog);
        let mut plan: Vec<Action> = Vec::new();
        plan.push(Action::CreateDir(key));
        plan.push(write);
        proof {
            lemma_plan_view_concat(plan@, opened@);
            assert(plan_view(plan@) =~= seq![plan@[0]@, plan@[1]@]);
            old(self).lemma_distinct();
            let n = old(self).feeds().len() as int;
            assert forall|k: int| 0 <= k < n implies self.cols(k) == old(self).cols(k) by {
                assert(self.col_lists@.drop_last()[k] == self.col_lists@[k]);
            }
            assert(self.all_cols() =~= old(self).all_cols().push(self.cols(n)));
            assert forall|f: int| 0 <= f < n implies (#[trigger] old(self).feeds()[f]).spec_name()
                != feed_item.spec_name() by {
                if old(self).feeds()[f].spec_name() == feed_item.spec_name() {
                    assert(keys_of(old(self).feeds())[f] == feed_item.spec_name());
                    assert(keys_of(old(self).feeds()).contains(feed_item.spec_name()));
                }
            }
            assert forall|disk: DiskView| #[trigger]
                old(self).agrees(disk) && self.adopted(disk) implies self.agrees(
                run(disk, plan_view(plan@) + plan_view(opened@)),
            ) by {
                lemma_feed_add_agrees(
                    old(self).feeds(),
                    old(self).all_cols(),
                    feed_item,
                    self.cols(n),
                    disk,
                );
            }
        }
        plan.append(&mut opened);
        Ok(plan)
    }

    /// Remove the feed by its name.
    #[verifier::rlimit(50)]
    pub fn feed_remove(&mut self, feed_name: &str) -> (res: Result<Vec<Action>, Error>)
        requires
            old(self).wf(),
        ensures
            final(self).wf(),
            final(self).path == old(self).path,
            res is Ok <==> old(self).feed_at(feed_name@) is Some,
            res is Ok ==> {
                let ix = old(self).feed_at(feed_name@)->0;
                let last = old(self).feeds().len() - 1;
                &&& final(self).feeds() == old(self).feeds().update(
                    ix,
                    old(self).feeds()[last],
                ).drop_last()
                &&& final(self).col_lists@ == old(self).col_lists@.update(
                    ix,
                    old(self).col_lists@[last],
                ).drop_last()
                &&& plan_view(res->Ok_0@) == remove_plan(
                    FileIdView::FeedList,
                    264,
                    ix,
                    last,
                    old(self).feeds()[last].spec_encode(),
                ) + seq![ActionView::RemoveDir(feed_name@)]
                &&& final(self).feed_at(feed_name@) is None
            },
            res is Ok ==> forall|disk: DiskView| #[trigger]
                old(self).agrees(disk) ==> final(self).agrees(run(disk, plan_view(res->Ok_0@))),
            res is Err ==> final(self).same(*old(self)) && res->Err_0 == Error::NotFound,
    {
        let ix = match self.feed_index(feed_name) {
            Some(ix) => ix,
            None => {
                return Err(Error::NotFound);
            },
        };
        let key = String::from_str(feed_name);
        let ghost old_keys = self.feed_list.keys();
        let mut plan = match self.feed_list.remove(&key) {
            Ok(plan) => plan,
            Err(e) => {
                return Err(e);
            },
        };
        self.col_lists.swap_remove(ix);
        proof {
            let last = old(self).feeds().len() - 1;
            assert(self.feed_list.keys()
                =~= old_keys.update(ix as int, old_keys[last]).drop_last());
            assert forall|i: int| 0 <= i < self.col_lists@.len()
                implies (#[trigger] self.col_lists@[i]).wf()
                && self.col_lists@[i].col.seq.file@ == FileIdView::ColList(
                self.feed_list.keys()[i],
            ) by {
                if i == ix {
                    assert(self.col_lists@[i] == old(self).col_lists@[last]);
                } else {
                    assert(self.col_lists@[i] == old(self).col_lists@[i]);
                }
            }
            let tail = seq![Action::RemoveDir(key)];
            lemma_plan_view_concat(plan@, tail);
            assert(plan_view(tail) =~= seq![ActionView::RemoveDir(feed_name@)]);
            assert(plan@.push(Action::RemoveDir(key)) =~= plan@ + tail);
        }
        plan.push(Action::RemoveDir(key));
        proof {
            old(self).lemma_distinct();
            assert(self.all_cols() =~= old(self).all_cols().update(
                ix as int,
                old(self).all_cols().last(),
            ).drop_last());
            assert forall|disk: DiskView| #[trigger] old(self).agrees(disk) implies self.agrees(
                run(disk, plan_view(plan@)),
            ) by {
                lemma_feed_remove_agrees(old(self).feeds(), old(self).all_cols(), ix as int, disk);
            }
        }
        Ok(plan)
    }

    /// Rename the feed.
    #[verifier::rlimit(50)]
    pub fn feed_rename(&mut self, name: &str, name_new: &str) -> (res: Result<Vec<Action>, Error>)
        requires
            old(self).wf(),
        ensures
            final(self).wf(),
            final(self).path == old(self).path,
            res is Ok <==> {
                &&& old(self).feed_at(name@) is Some
                &&& old(self).feed_at(name_new@) is None
                &&& is_allowed_name(name_new@)
                &&& (stored_name(name_new@) == name@ || old(self).feed_at(stored_name(name_new@))
                    is None)
            },
            res is Ok ==> {
                let ix = old(self).feed_at(name@)->0;
                let item = final(self).feeds()[ix];
                &&& final(self).feeds() == old(self).feeds().update(ix, item)
                &&& item.name@ == pad_to(encode_utf8(name_new@), 256)
                &&& item.size == old(self).feeds()[ix].size
                &&& item.spec_name() == stored_name(name_new@)
                &&& final(self).col_lists@.len() == old(self).col_lists@.len()
                &&& forall|i: int|
                    0 <= i < final(self).col_lists@.len()
                        ==> #[trigger] final(self).cols(i) == old(self).cols(i)
                &&& plan_view(res->Ok_0@) == seq![
                    ActionView::Write(FileIdView::FeedList, (ix * 264) as u64, item.spec_encode()),
                    ActionView::RenameDir(name@, item.spec_name()),
                ]
            },
            res is Ok ==> forall|disk: DiskView| #[trigger]
                old(self).agrees(disk) ==> final(self).agrees(run(disk, plan_view(res->Ok_0@))),
            res is Err ==> final(self).same(*old(self)),
            res is Err ==> res->Err_0 == (if old(self).feed_at(name@) is None {
                Error::NotFound
            } else if old(self).feed_at(name_new@) is Some {
                Error::AlreadyExists
            } else if !is_allowed_name(name_new@) {
                Error::InvalidInput
            } else {
                Error::AlreadyExists
            }),
    {
        let ix = match self.feed_index(name) {
            Some(ix) => ix,
            None => {
                return Err(Error::NotFound);
            },
        };
        if self.feed_exists(name_new) {
            return Err(Error::AlreadyExists);
        }
        let mut feed_item = self.feed_list.recs[ix];
        match feed_item.rename(name_new) {
            Ok(()) => {},
            Err(e) => {
                return Err(e);
            },
        }
        let key = String::from_str(name);
        let ghost old_keys = self.feed_list.keys();
        let write = match self.feed_list.modify(&key, &feed_item) {
            Ok(write) => write,
            Err(e) => {
                return Err(e);
            },
        };
        let key_new = feed_item.key();
        self.col_lists[ix].refile(FileId::ColList(key_new.clone()));
        let mut plan: Vec<Action> = Vec::new();
        plan.push(write);
        plan.push(Action::RenameDir(key, key_new));
        proof {
            assert(self.feed_list.keys() =~= old_keys.update(ix as int, feed_item.spec_key()));
            assert forall|i: int| 0 <= i < self.col_lists@.len()
                implies (#[trigger] self.col_lists@[i]).wf()
                && self.col_lists@[i].col.seq.file@ == FileIdView::ColList(
                self.feed_list.keys()[i],
            ) by {
                if i != ix {
                    assert(self.col_lists@[i] == old(self).col_lists@[i]);
                }
            }
            assert(plan_view(plan@) =~= seq![plan@[0]@, plan@[1]@]);
            old(self).lemma_distinct();
            assert(self.all_cols() =~= old(self).all_cols());
            assert forall|f: int| 0 <= f < old(self).feeds().len() && f != ix implies (
            #[trigger] old(self).feeds()[f]).spec_name() != feed_item.spec_name() by {
                assert(keys_of(self.feeds())[f] != keys_of(self.feeds())[ix as int]);
            }
            assert forall|disk: DiskView| #[trigger] old(self).agrees(disk) implies self.agrees(
                run(disk, plan_view(plan@)),
            ) by {
                lemma_feed_rename_agrees(
                    old(self).feeds(),
                    old(self).all_cols(),
                    ix as int,
                    feed_item,
                    disk,
                );
            }
        }
        Ok(plan)
    }
}

impl Conn {
    /// Add a new column by its name and datatype. The file of the column
    /// gets the length of the rows of the feed.
    #[verifier::rlimit(50)]
    pub fn col_add(&mut self, feed_name: &str, col_name: &str, datatype: &str) -> (res: Result<
        Vec<Action>,
        Error,
    >)
        requires
            old(self).wf(),
        ensures
            final(self).wf(),
            final(self).path == old(self).path,
            final(self).feed_list == old(self).feed_list,
            res is Ok <==> {
                let i = old(self).feed_at(feed_name@)->0;
                &&& old(self).feed_at(feed_name@) is Some
                &&& old(self).col_at(i, col_name@) is None
                &&& is_allowed_name(col_name@)
                &&& Datatype::spec_parse(datatype@) is Some
                &&& old(self).col_at(i, stored_name(col_name@)) is None
                &&& old(self).feeds()[i].size * Datatype::spec_parse(datatype@)->0.spec_size()
                    <= u64::MAX
                &&& old(self).col_lists@[i].has_room()
            },
            res is Ok ==> {
                let i = old(self).feed_at(feed_name@)->0;
                let n = old(self).cols(i).len() as int;
                let item = final(self).cols(i)[n];
                let file = FileIdView::Col(feed_name@, item.spec_name());
                &&& final(self).cols(i) == old(self).cols(i).push(item)
                &&& item.name@ == pad_to(encode_utf8(col_name@), 256)
                &&& item.datatype == Datatype::spec_parse(datatype@)->0
                &&& item.spec_name() == stored_name(col_name@)
                &&& final(self).col_lists@.len() == old(self).col_lists@.len()
                &&& forall|k: int|
                    0 <= k < final(self).col_lists@.len() && k != i
                        ==> #[trigger] final(self).col_lists@[k] == old(self).col_lists@[k]
                &&& plan_view(res->Ok_0@) == seq![
                    ActionView::Write(
                        FileIdView::ColList(feed_name@),
                        (n * 272) as u64,
                        item.spec_encode(),
                    ),
                    ActionView::Create(file),
                    ActionView::Resize(
                        file,
                        (old(self).feeds()[i].size * item.datatype.spec_size()) as u64,
                    ),
                ]
            },
            res is Ok ==> forall|disk: DiskView| #[trigger]
                old(self).agrees(disk) ==> final(self).agrees(run(disk, plan_view(res->Ok_0@))),
            res is Err ==> final(self).same(*old(self)),
            res is Err ==> res->Err_0 == (if old(self).feed_at(feed_name@) is None {
                Error::NotFound
            } else if old(self).col_at(old(self).feed_at(feed_name@)->0, col_name@) is Some {
                Error::AlreadyExists
            } else if !is_allowed_name(col_name@) || Datatype::spec_parse(datatype@) is None {
                Error::InvalidInput
            } else if old(self).col_at(old(self).feed_at(feed_name@)->0, stored_name(col_name@))
                is Some {
                Error::AlreadyExists
            } else {
                Error::IoFailure
            }),
    {
        let i = match self.feed_index(feed_name) {
            Some(i) => i,
            None => {
                return Err(Error::NotFound);
            },
        };
        if self.col_index(i, col_name).is_some() {
            return Err(Error::AlreadyExists);
        }
        let col_item = match ColItem::new(col_name, datatype) {
            Ok(col_item) => col_item,
            Err(e) => {
                return Err(e);
            },
        };
        let key = col_item.key();
        if self.col_lists[i].index(&key).is_some() {
            return Err(Error::AlreadyExists);
        }
        let size = self.feed_list.recs[i].size;
        let seq = SeqFile::new(
            FileId::Col(String::from_str(feed_name), key),
            col_item.datatype.size(),
        );
        let resize = match seq.resize(size) {
            Ok(resize) => resize,
            Err(e) => {
                return Err(e);
            },
        };
        let write = match self.col_lists[i].add(&col_item) {
            Ok(write) => write,
            Err(e) => {
                assert(self.col_lists@ =~= old(self).col_lists@);
                return Err(e);
            },
        };
        let mut plan: Vec<Action> = Vec::new();
        plan.push(write);
        plan.push(seq.open());
        plan.push(resize);
        proof {
            assert forall|k: int| 0 <= k < self.col_lists@.len()
                implies (#[trigger] self.col_lists@[k]).wf()
                && self.col_lists@[k].col.seq.file@ == FileIdView::ColList(
                self.feed_list.keys()[k],
            ) by {
                if k != i {
                    assert(self.col_lists@[k] == old(self).col_lists@[k]);
                }
            }
            assert(plan_view(plan@) =~= seq![plan@[0]@, plan@[1]@, plan@[2]@]);
            old(self).lemma_distinct();
            let before = old(self).cols(i as int);
            let item = self.cols(i as int)[before.len() as int];
            assert(self.all_cols() =~= old(self).all_cols().update(i as int, before.push(item)));
            assert forall|j: int| 0 <= j < before.len()
                implies (#[trigger] old(self).all_cols()[i as int][j]).spec_name()
                != item.spec_name() by {
                if before[j].spec_name() == item.spec_name() {
                    assert(keys_of(before)[j] == item.spec_name());
                    assert(keys_of(before).contains(item.spec_name()));
                }
            }
            assert forall|disk: DiskView| #[trigger] old(self).agrees(disk) implies self.agrees(
                run(disk, plan_view(plan@)),
            ) by {
                lemma_col_add_agrees(old(self).feeds(), old(self).all_cols(), i as int, item, disk);
            }
        }
        Ok(plan)
    }

    /// Rename the column
    #[verifier::rlimit(50)]
    pub fn col_rename(&mut self, feed_name: &str, name: &str, name_new: &str) -> (res: Result<
        Vec<Action>,
        Error,
    >)
        requires
            old(self).wf(),
        ensures
            final(self).wf(),
            final(self).path == old(self).path,
            final(self).feed_list == old(self).feed_list,
            res is Ok <==> {
                let i = old(self).feed_at(feed_name@)->0;
                &&& old(self).feed_at(feed_name@) is Some
                &&& old(self).col_at(i, name@) is Some
                &&& old(self).col_at(i, name_new@) is None
                &&& is_allowed_name(name_new@)
                &&& (stored_name(name_new@) == name@ || old(self).col_at(
                    i,
                    stored_name(name_new@),
                ) is None)
            },
            res is Ok ==> {
                let i = old(self).feed_at(feed_name@)->0;
                let ix = old(self).col_at(i, name@)->0;
                let item = final(self).cols(i)[ix];
                &&& final(self).cols(i) == old(self).cols(i).update(ix, item)
                &&& item.name@ == pad_to(encode_utf8(name_new@), 256)
                &&& item.datatype == old(self).cols(i)[ix].datatype
                &&& item.spec_name() == stored_name(name_new@)
                &&& final(self).col_lists@.len() == old(self).col_lists@.len()
                &&& forall|k: int|
                    0 <= k < final(self).col_lists@.len() && k != i
                        ==> #[trigger] final(self).col_lists@[k] == old(self).col_lists@[k]
                &&& plan_view(res->Ok_0@) == seq![
                    ActionView::Write(
                        FileIdView::ColList(feed_name@),
                        (ix * 272) as u64,
                        item.spec_encode(),
                    ),
                    ActionView::Rename(
                        FileIdView::Col(feed_name@, name@),
                        FileIdView::Col(feed_name@, item.spec_name()),
                    ),
                ]
            },
            res is Ok ==> forall|disk: DiskView| #[trigger]
                old(self).agrees(disk) ==> final(self).agrees(run(disk, plan_view(res->Ok_0@))),
            res is Err ==> final(self).same(*old(self)),
            res is Err
                ==> res->Err_0
                    == (if old(self).feed_at(feed_name@) is None || old(self).col_at(
                    old(self).feed_at(feed_name@)->0,
                    name@,
                ) is None {
                Error::NotFound
            } else if old(self).col_at(old(self).feed_at(feed_name@)->0, name_new@) is Some {
                Error::AlreadyExists
            } else if !is_allowed_name(name_new@) {
                Error::InvalidInput
            } else {
                Error::AlreadyExists
            }),
    {
        let i = match self.feed_index(feed_name) {
            Some(i) => i,
            None => {
                return Err(Error::NotFound);
            },
        };
        let ix = match self.col_index(i, name) {
            Some(ix) => ix,
            None => {
                return Err(Error::NotFound);
            },
        };
        if self.col_index(i, name_new).is_some() {
            return Err(Error::AlreadyExists);
        }
        let mut col_item = self.col_lists[i].recs[ix];
        match col_item.rename(name_new) {
            Ok(()) => {},
            Err(e) => {
                return Err(e);
            },
        }
        let key = String::from_str(name);
        let write = match self.col_lists[i].modify(&key, &col_item) {
            Ok(write) => write,
            Err(e) => {
                assert(self.col_lists@ =~= old(self).col_lists@);
                return Err(e);
            },
        };
        let mut plan: Vec<Action> = Vec::new();
        plan.push(write);
        plan.push(
            Action::Rename(
                FileId::Col(String::from_str(feed_name), key),
                FileId::Col(String::from_str(feed_name), col_item.key()),
            ),
        );
        proof {
            assert forall|k: int| 0 <= k < self.col_lists@.len()
                implies (#[trigger] self.col_lists@[k]).wf()
                && self.col_lists@[k].col.seq.file@ == FileIdView::ColList(
                self.feed_list.keys()[k],
            ) by {
                if k != i {
                    assert(self.col_lists@[k] == old(self).col_lists@[k]);
                }
            }
            assert(plan_view(plan@) =~= seq![plan@[0]@, plan@[1]@]);
            old(self).lemma_distinct();
            let item = self.cols(i as int)[ix as int];
            assert(old(self).col_lists@[i as int].wf());
            assert(self.col_lists@[i as int].wf());
            assert(self.all_cols() =~= old(self).all_cols().update(
                i as int,
                old(self).cols(i as int).update(ix as int, item),
            ));
            assert forall|j: int| 0 <= j < old(self).cols(i as int).len() && j != ix implies (
            #[trigger] old(self).all_cols()[i as int][j]).spec_name() != item.spec_name() by {
                assert(keys_of(self.cols(i as int))[j] != keys_of(self.cols(i as int))[ix as int]);
            }
            assert forall|disk: DiskView| #[trigger] old(self).agrees(disk) implies self.agrees(
                run(disk, plan_view(plan@)),
            ) by {
                lemma_col_rename_agrees(
                    old(self).feeds(),
                    old(self).all_cols(),
                    i as int,
                    ix as int,
                    item,
                    disk,
                );
            }
        }
        Ok(plan)
    }

    /// Remove the column.
    #[verifier::rlimit(50)]
    pub fn col_remove(&mut self, feed_name: &str, col_name: &str) -> (res: Result<
        Vec<Action>,
        Error,
    >)
        requires
            old(self).wf(),
        ensures
            final(self).wf(),
            final(self).path == old(self).path,
            final(self).feed_list == old(self).feed_list,
            res is Ok <==> old(self).feed_at(feed_name@) is Some && old(self).col_at(
                old(self).feed_at(feed_name@)->0,
                col_name@,
            ) is Some,
            res is Ok ==> {
                let i = old(self).feed_at(feed_name@)->0;
                let ix = old(self).col_at(i, col_name@)->0;
                let last = old(self).cols(i).len() - 1;
                &&& final(self).cols(i) == old(self).cols(i).update(
                    ix,
                    old(self).cols(i)[last],
                ).drop_last()
                &&& final(self).col_lists@.len() == old(self).col_lists@.len()
                &&& forall|k: int|
                    0 <= k < final(self).col_lists@.len() && k != i
                        ==> #[trigger] final(self).col_lists@[k] == old(self).col_lists@[k]
                &&& plan_view(res->Ok_0@) == remove_plan(
                    FileIdView::ColList(feed_name@),
                    272,
                    ix,
                    last,
                    old(self).cols(i)[last].spec_encode(),
                ) + seq![ActionView::Remove(FileIdView::Col(feed_name@, col_name@))]
            },
            res is Ok ==> forall|disk: DiskView| #[trigger]
                old(self).agrees(disk) ==> final(self).agrees(run(disk, plan_view(res->Ok_0@))),
            res is Err ==> final(self).same(*old(self)) && res->Err_0 == Error::NotFound,
    {
        let i = match self.feed_index(feed_name) {
            Some(i) => i,
            None => {
                return Err(Error::NotFound);
            },
        };
        let key = String::from_str(col_name);
        let mut plan = match self.col_lists[i].remove(&key) {
            Ok(plan) => plan,
            Err(e) => {
                assert(self.col_lists@ =~= old(self).col_lists@);
                return Err(e);
            },
        };
        let remove = Action::Remove(FileId::Col(String::from_str(feed_name), key));
        proof {
            assert forall|k: int| 0 <= k < self.col_lists@.len()
                implies (#[trigger] self.col_lists@[k]).wf()
                && self.col_lists@[k].col.seq.file@ == FileIdView::ColList(
                self.feed_list.keys()[k],
            ) by {
                if k != i {
                    assert(self.col_lists@[k] == old(self).col_lists@[k]);
                }
            }
            let tail = seq![remove];
            lemma_plan_view_concat(plan@, tail);
            assert(plan_view(tail) =~= seq![remove@]);
            assert(plan@.push(remove) =~= plan@ + tail);
        }
        plan.push(remove);
        proof {
            old(self).lemma_distinct();
            let ix = old(self).col_at(i as int, col_name@)->0;
            lemma_find_some(old(self).col_lists@[i as int].keys(), col_name@);
            assert(old(self).col_lists@[i as int].wf());
            assert(self.all_cols() =~= old(self).all_cols().update(
                i as int,
                old(self).cols(i as int).update(ix, old(self).cols(i as int).last()).drop_last(),
            ));
            assert forall|disk: DiskView| #[trigger] old(self).agrees(disk) implies self.agrees(
                run(disk, plan_view(plan@)),
            ) by {
                lemma_col_remove_agrees(old(self).feeds(), old(self).all_cols(), i as int, ix,
                    disk);
            }
        }
        Ok(plan)
    }

    /// Change the size of the feed including the sizes of all column files.
    /// The result is the size that the feed had, and the plan.
    #[verifier::rlimit(50)]
    pub fn size_set(&mut self, feed_name: &str, size: usize) -> (res: Result<
        (usize, Vec<Action>),
        Error,
    >)
        requires
            old(self).wf(),
        ensures
            final(self).wf(),
            final(self).path == old(self).path,
            final(self).col_lists == old(self).col_lists,
            res is Ok <==> old(self).feed_at(feed_name@) is Some && sizable(
                old(self).cols(old(self).feed_at(feed_name@)->0),
                size as nat,
            ),
            res matches Ok(set) ==> {
                let i = old(self).feed_at(feed_name@)->0;
                let item = final(self).feeds()[i];
                &&& set.0 == old(self).feeds()[i].size
                &&& final(self).feeds() == old(self).feeds().update(i, item)
                &&& item.name == old(self).feeds()[i].name
                &&& item.size == size
                &&& plan_view(set.1@) == resize_plan(feed_name@, old(self).cols(i), size as nat)
                    + seq![
                    ActionView::Write(FileIdView::FeedList, (i * 264) as u64, item.spec_encode()),
                ]
                &&& forall|disk: DiskView| #[trigger]
                    old(self).agrees(disk) ==> final(self).agrees(run(disk, plan_view(set.1@)))
            },
            res is Err ==> final(self).same(*old(self)),
            res is Err ==> res->Err_0 == (if old(self).feed_at(feed_name@) is None {
                Error::NotFound
            } else {
                Error::IoFailure
            }),
    {
        let i = match self.feed_index(feed_name) {
            Some(i) => i,
            None => {
                return Err(Error::NotFound);
            },
        };
        let mut plan: Vec<Action> = Vec::new();
        let mut j: usize = 0;
        while j < self.col_lists[i].recs.len()
            invariant
                self.wf(),
                *self == *old(self),
                i < self.col_lists@.len(),
                j <= self.cols(i as int).len(),
                plan@.len() == j,
                self.feed_at(feed_name@) == Some(i as int),
                self.feeds()[i as int].spec_name() == feed_name@,
                forall|k: int|
                    0 <= k < j ==> (#[trigger] plan@[k])@ == resize_plan(
                        feed_name@,
                        self.cols(i as int),
                        size as nat,
                    )[k],
                forall|k: int|
                    0 <= k < j ==> size * (#[trigger] self.cols(i as int)[k]).datatype.spec_size()
                        <= u64::MAX,
            decreases self.cols(i as int).len() - j,
        {
            let col_item = &self.col_lists[i].recs[j];
            assert(self.col_lists@[i as int].wf());
            assert(col_item.keyed());
            let seq = SeqFile::new(
                FileId::Col(String::from_str(feed_name), col_item.get_name()),
                col_item.datatype.size(),
            );
            match seq.resize(size) {
                Ok(resize) => {
                    plan.push(resize);
                },
                Err(e) => {
                    return Err(e);
                },
            }
            j = j + 1;
        }
        let mut feed_item = self.feed_list.recs[i];
        let old_size = feed_item.size;
        feed_item.size = size;
        let key = String::from_str(feed_name);
        let ghost old_keys = self.feed_list.keys();
        let write = match self.feed_list.modify(&key, &feed_item) {
            Ok(write) => write,
            Err(e) => {
                return Err(e);
            },
        };
        proof {
            assert(self.feed_list.keys() =~= old_keys);
            let tail = seq![write];
            lemma_plan_view_concat(plan@, tail);
            assert(plan_view(tail) =~= seq![write@]);
            assert(plan@.push(write) =~= plan@ + tail);
            assert(plan_view(plan@)
                =~= resize_plan(feed_name@, old(self).cols(i as int), size as nat));
        }
        plan.push(write);
        proof {
            old(self).lemma_distinct();
            assert(self.all_cols() =~= old(self).all_cols());
            assert(self.feeds()[i as int] == (FeedItem {
                name: old(self).feeds()[i as int].name,
                size,
            }));
            assert forall|disk: DiskView| #[trigger] old(self).agrees(disk) implies self.agrees(
                run(disk, plan_view(plan@)),
            ) by {
                lemma_size_set_agrees(old(self).feeds(), old(self).all_cols(), i as int, size,
                    disk);
            }
        }
        Ok((old_size, plan))
    }
}

/// The actions that open feeds only create files.
pub proof fn lemma_conn_open_plan_creates(feeds: Seq<FeedItem>, cols: Seq<Seq<ColItem>>, n: nat)
    ensures
        creates_only(conn_open_plan(feeds, cols, n)),
    decreases n,
{
    if n > 0 {
        lemma_conn_open_plan_creates(feeds, cols, (n - 1) as nat);
    }
}

/// The actions that open the first feeds look at the columns of those
/// feeds only.
pub proof fn lemma_conn_open_plan_ext(
    feeds: Seq<FeedItem>,
    a: Seq<Seq<ColItem>>,
    b: Seq<Seq<ColItem>>,
    n: nat,
)
    requires
        n <= a.len(),
        n <= b.len(),
        forall|k: int| 0 <= k < n ==> a[k] == b[k],
    ensures
        conn_open_plan(feeds, a, n) == conn_open_plan(feeds, b, n),
    decreases n,
{
    if n > 0 {
        lemma_conn_open_plan_ext(feeds, a, b, (n - 1) as nat);
    }
}

} // verus!
