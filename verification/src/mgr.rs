//! The managers of the catalogs: `ColMgr` keeps the columns of one feed and
//! `FeedMgr` keeps the feeds, each with the manager of its columns. They
//! hold names only; the sizes of the feeds are kept by a connection.

use vstd::prelude::*;
use vstd::string::StringExecFns;
use vstd::utf8::{encode_utf8, valid_utf8};
use crate::conn::lemma_plan_view_concat;
use crate::datatype::Datatype;
use crate::disk::{plan_view, Action, ActionView, FileId, FileIdView};
use crate::error::Error;
use crate::items::{name_buffer, ColItem, NameType};
use crate::list::{loadable, remove_plan, List, ListKeyTrait};
use crate::utils::{
    bytes_to_str, pad_to, spec_bytes_to_str, spec_from_bytes_many, str_to_bytes, trim_zeros,
    try_bytes_to_str, Pod,
};

verus! {

broadcast use vstd::array::group_array_axioms;

/// The record of a column: its name and its datatype.
#[derive(Debug, Clone, Copy, PartialEq, Eq)]
pub struct ColRecord {
    /// Name of the column.
    pub name: NameType,
    /// Datatype of the column.
    pub datatype: Datatype,
}

impl ColRecord {
    /// The record as a column item, which has the same stored form.
    pub open spec fn item(&self) -> ColItem {
        ColItem { name: self.name, datatype: self.datatype }
    }

    /// Create a record by the name as string and the datatype. A name of
    /// more than 256 bytes is cut.
    pub fn new(name: &str, datatype: Datatype) -> (rec: Self)
        ensures
            rec.name@ == pad_to(encode_utf8(name@), 256),
            rec.datatype == datatype,
    {
        Self { name: str_to_bytes::<256>(name), datatype }
    }
}

impl ListKeyTrait<String> for ColRecord {
    open spec fn keyed(&self) -> bool {
        valid_utf8(trim_zeros(self.name@))
    }

    open spec fn spec_key(&self) -> Seq<char> {
        spec_bytes_to_str(self.name@)
    }

    fn has_key(&self) -> bool {
        try_bytes_to_str(self.name.as_slice()).is_some()
    }

    fn key(&self) -> String {
        String::from_str(bytes_to_str(self.name.as_slice()))
    }
}

impl Pod for ColRecord {
    open spec fn spec_width() -> nat {
        272
    }

    open spec fn spec_encode(&self) -> Seq<u8> {
        self.item().spec_encode()
    }

    open spec fn spec_decode(block: Seq<u8>) -> Option<ColRecord> {
        match ColItem::spec_decode(block) {
            Some(item) => Some(ColRecord { name: item.name, datatype: item.datatype }),
            None => None,
        }
    }

    proof fn lemma_round_trip(v: ColRecord) {
        ColItem::lemma_round_trip(v.item());
    }

    fn width() -> usize {
        272
    }

    fn encode(&self) -> Vec<u8> {
        let item = ColItem { name: self.name, datatype: self.datatype };
        item.encode()
    }

    fn decode(block: &[u8]) -> Option<ColRecord> {
        match ColItem::decode(block) {
            Some(item) => Some(ColRecord { name: item.name, datatype: item.datatype }),
            None => None,
        }
    }
}

/// The record of a feed: its name.
#[derive(Debug, Clone, Copy, PartialEq, Eq)]
pub struct FeedRecord {
    /// Name of the feed.
    pub name: NameType,
}

impl FeedRecord {
    /// Create a record by the name as string. A name of more than 256
    /// bytes is cut.
    pub fn new(name: &str) -> (rec: Self)
        ensures
            rec.name@ == pad_to(encode_utf8(name@), 256),
    {
        Self { name: str_to_bytes::<256>(name) }
    }
}

impl ListKeyTrait<String> for FeedRecord {
    open spec fn keyed(&self) -> bool {
        valid_utf8(trim_zeros(self.name@))
    }

    open spec fn spec_key(&self) -> Seq<char> {
        spec_bytes_to_str(self.name@)
    }

    fn has_key(&self) -> bool {
        try_bytes_to_str(self.name.as_slice()).is_some()
    }

    fn key(&self) -> String {
        String::from_str(bytes_to_str(self.name.as_slice()))
    }
}

impl Pod for FeedRecord {
    open spec fn spec_width() -> nat {
        256
    }

    open spec fn spec_encode(&self) -> Seq<u8> {
        self.name@
    }

    open spec fn spec_decode(block: Seq<u8>) -> Option<FeedRecord> {
        Some(FeedRecord { name: name_buffer(block) })
    }

    proof fn lemma_round_trip(v: FeedRecord) {
        assert(name_buffer(v.name@)@ == v.name@);
        assert(name_buffer(v.name@) =~= v.name);
    }

    fn width() -> usize {
        256
    }

    fn encode(&self) -> Vec<u8> {
        let mut block: Vec<u8> = Vec::new();
        let mut i: usize = 0;
        while i < 256
            invariant
                i <= 256,
                block@.len() == i,
                forall|j: int| 0 <= j < i ==> block@[j] == self.name@[j],
            decreases 256 - i,
        {
            block.push(self.name[i]);
            i = i + 1;
        }
        assert(block@ =~= self.name@);
        block
    }

    fn decode(block: &[u8]) -> Option<FeedRecord> {
        let mut name = [0u8;256];
        let mut i: usize = 0;
        while i < 256
            invariant
                i <= 256,
                block@.len() == 256,
                forall|j: int| 0 <= j < i ==> name@[j] == block@[j],
            decreases 256 - i,
        {
            name[i] = block[i];
            i = i + 1;
        }
        assert(name@ =~= block@);
        assert(name_buffer(block@)@ == name@);
        assert(name_buffer(block@) =~= name);
        Some(FeedRecord { name })
    }
}

/// The manager of the columns of a feed.
#[derive(Debug)]
pub struct ColMgr {
    /// The name of the directory of the feed.
    pub path: String,
    /// The list of the columns.
    pub list: List<ColRecord, String>,
}

impl ColMgr {
    /// Whether the list is well formed and is the col list of the feed.
    pub open spec fn wf(&self) -> bool {
        self.list.wf() && self.list.col.seq.file@ == FileIdView::ColList(self.path@)
    }

    /// Create the manager of the columns of the feed at `path` from the
    /// content of the file of its col list.
    pub fn new(path: &str, block: &[u8]) -> (res: Result<Self, Error>)
        ensures
            res is Ok <==> loadable::<ColRecord>(block@),
            res is Ok ==> {
                &&& res->Ok_0.wf()
                &&& res->Ok_0.path@ == path@
                &&& Some(res->Ok_0.list.recs@) == spec_from_bytes_many::<ColRecord>(block@)
            },
            res is Err ==> res->Err_0 == Error::InvalidData,
    {
        match List::<ColRecord, String>::new(FileId::ColList(String::from_str(path)), block) {
            Ok(list) => Ok(Self { path: String::from_str(path), list }),
            Err(e) => Err(e),
        }
    }

    /// The name of the directory of the feed.
    pub fn path(&self) -> (path: &str)
        ensures
            path@ == self.path@,
    {
        self.path.as_str()
    }

    /// Check whether the column exists.
    pub fn contains(&self, name: &str) -> (found: bool)
        requires
            self.wf(),
        ensures
            found == self.list.position(name@) is Some,
    {
        self.list.contains(&String::from_str(name))
    }

    /// List the columns.
    pub fn list(&self) -> (recs: Vec<ColRecord>)
        ensures
            recs@ == self.list.recs@,
    {
        self.list.list()
    }

    /// Add a column. A name that is no text when it is cut to 256 bytes is
    /// refused.
    pub fn add(&mut self, name: &str, datatype: Datatype) -> (res: Result<Action, Error>)
        requires
            old(self).wf(),
        ensures
            final(self).wf(),
            final(self).path == old(self).path,
            res is Ok <==> {
                let rec = ColRecord { name: name_buffer(pad_to(encode_utf8(name@), 256)),
                    datatype };
                &&& rec.keyed()
                &&& old(self).list.position(rec.spec_key()) is None
                &&& old(self).list.has_room()
            },
            res is Ok ==> {
                let n = old(self).list.recs@.len() as int;
                let rec = final(self).list.recs@[n];
                &&& final(self).list.recs@ == old(self).list.recs@.push(rec)
                &&& rec.name@ == pad_to(encode_utf8(name@), 256)
                &&& rec.datatype == datatype
                &&& res->Ok_0@ == ActionView::Write(
                    FileIdView::ColList(old(self).path@),
                    (n * 272) as u64,
                    rec.spec_encode(),
                )
            },
            res is Err ==> final(self).list == old(self).list,
            res is Err ==> res->Err_0 == (if !valid_utf8(
                trim_zeros(pad_to(encode_utf8(name@), 256)),
            ) {
                Error::InvalidInput
            } else if old(self).list.position(spec_bytes_to_str(pad_to(encode_utf8(name@), 256)))
                is Some {
                Error::AlreadyExists
            } else {
                Error::IoFailure
            }),
    {
        // Add record to the list
        let rec = ColRecord::new(name, datatype);
        proof {
            assert(name_buffer(rec.name@)@ == rec.name@);
            assert(name_buffer(rec.name@) =~= rec.name);
        }
        if !rec.has_key() {
            return Err(Error::InvalidInput);
        }
        self.list.add(&rec)
    }

    /// Remove a column.
    pub fn remove(&mut self, name: &str) -> (res: Result<Vec<Action>, Error>)
        requires
            old(self).wf(),
        ensures
            final(self).wf(),
            final(self).path == old(self).path,
            res is Ok <==> old(self).list.position(name@) is Some,
            res is Ok ==> {
                let ix = old(self).list.position(name@)->0;
                let recs = old(self).list.recs@;
                &&& final(self).list.recs@ == recs.update(ix, recs.last()).drop_last()
                &&& final(self).list.position(name@) is None
                &&& plan_view(res->Ok_0@) == remove_plan(
                    FileIdView::ColList(old(self).path@),
                    272,
                    ix,
                    recs.len() - 1,
                    recs.last().spec_encode(),
                )
            },
            res is Err ==> final(self).list == old(self).list && res->Err_0 == Error::NotFound,
    {
        // Remove the record from the list
        self.list.remove(&String::from_str(name))
    }

    /// Rename a column: its record gets the new name and keeps its
    /// datatype, and its file gets the new name.
    pub fn rename(&mut self, name: &str, new_name: &str) -> (res: Result<Vec<Action>, Error>)
        requires
            old(self).wf(),
        ensures
            final(self).wf(),
            final(self).path == old(self).path,
            res is Ok ==> {
                let ix = old(self).list.position(name@)->0;
                let rec = final(self).list.recs@[ix];
                &&& old(self).list.position(name@) is Some
                &&& final(self).list.recs@ == old(self).list.recs@.update(ix, rec)
                &&& rec.name@ == pad_to(encode_utf8(new_name@), 256)
                &&& rec.datatype == old(self).list.recs@[ix].datatype
                &&& plan_view(res->Ok_0@) == seq![
                    ActionView::Write(
                        FileIdView::ColList(old(self).path@),
                        (ix * 272) as u64,
                        rec.spec_encode(),
                    ),
                    ActionView::Rename(
                        FileIdView::Col(old(self).path@, name@),
                        FileIdView::Col(old(self).path@, rec.spec_key()),
                    ),
                ]
            },
            res is Err ==> final(self).list == old(self).list,
            res is Ok <==> {
                let rec = ColRecord {
                    name: name_buffer(pad_to(encode_utf8(new_name@), 256)),
                    datatype: Datatype::Int64,
                };
                &&& old(self).list.position(name@) is Some
                &&& rec.keyed()
                &&& (rec.spec_key() == name@ || old(self).list.position(rec.spec_key()) is None)
            },
            res is Err ==> res->Err_0 == (if old(self).list.position(name@) is None {
                Error::NotFound
            } else if !valid_utf8(trim_zeros(pad_to(encode_utf8(new_name@), 256))) {
                Error::InvalidInput
            } else {
                Error::AlreadyExists
            }),
    {
        let key = String::from_str(name);
        let old_rec = match self.list.detail(&key) {
            Ok(rec) => rec,
            Err(e) => {
                return Err(e);
            },
        };
        let rec = ColRecord::new(new_name, old_rec.datatype);
        proof {
            assert(name_buffer(rec.name@)@ == rec.name@);
            assert(name_buffer(rec.name@) =~= rec.name);
        }
        if !rec.has_key() {
            return Err(Error::InvalidInput);
        }
        let write = match self.list.modify(&key, &rec) {
            Ok(write) => write,
            Err(e) => {
                return Err(e);
            },
        };
        let mut plan: Vec<Action> = Vec::new();
        plan.push(write);
        plan.push(
            Action::Rename(
                FileId::Col(self.path.clone(), key),
                FileId::Col(self.path.clone(), rec.key()),
            ),
        );
        assert(plan_view(plan@) =~= seq![plan@[0]@, plan@[1]@]);
        Ok(plan)
    }
}

/// The manager of the feeds.
#[derive(Debug)]
pub struct FeedMgr {
    /// Path to the directory of the data.
    pub path: String,
    /// The list of the feeds.
    pub list: List<FeedRecord, String>,
    /// The managers of the columns, one for each feed, in the order of the
    /// list.
    pub col_mgr: Vec<ColMgr>,
}

impl FeedMgr {
    /// Whether the list is well formed and each feed has the manager of
    /// its columns.
    pub open spec fn wf(&self) -> bool {
        &&& self.list.wf()
        &&& self.list.col.seq.file@ == FileIdView::FeedList
        &&& self.col_mgr@.len() == self.list.recs@.len()
        &&& forall|i: int|
            0 <= i < self.col_mgr@.len() ==> (#[trigger] self.col_mgr@[i]).wf()
                && self.col_mgr@[i].path@ == self.list.keys()[i]
    }

    /// Create the manager of the feeds of the directory at `path` from the
    /// content of the file of the feed list and, for each feed in the
    /// order of that list, the content of the file of its col list.
    pub fn new(path: &str, feed_list: &[u8], col_lists: &Vec<Vec<u8>>) -> (res: Result<Self, Error>)
        ensures
            res is Ok ==> {
                &&& res->Ok_0.wf()
                &&& res->Ok_0.path@ == path@
                &&& Some(res->Ok_0.list.recs@) == spec_from_bytes_many::<FeedRecord>(feed_list@)
                &&& col_lists@.len() == res->Ok_0.list.recs@.len()
                &&& forall|i: int|
                    0 <= i < col_lists@.len() ==> Some(
                        (#[trigger] res->Ok_0.col_mgr@[i]).list.recs@,
                    ) == spec_from_bytes_many::<ColRecord>(col_lists@[i]@)
            },
            res is Err ==> res->Err_0 == Error::InvalidData,
            res is Ok <==> {
                &&& loadable::<FeedRecord>(feed_list@)
                &&& col_lists@.len() == spec_from_bytes_many::<FeedRecord>(feed_list@)->0.len()
                &&& forall|i: int|
                    0 <= i < col_lists@.len() ==> loadable::<ColRecord>((#[trigger] col_lists@[i])@)
            },
    {
        let list = match List::<FeedRecord, String>::new(FileId::FeedList, feed_list) {
            Ok(list) => list,
            Err(e) => {
                return Err(e);
            },
        };
        if col_lists.len() != list.recs.len() {
            return Err(Error::InvalidData);
        }
        let col_mgr = match Self::_load_col_mgr(&list, col_lists) {
            Ok(col_mgr) => col_mgr,
            Err(e) => {
                return Err(e);
            },
        };
        Ok(Self { path: String::from_str(path), list, col_mgr })
    }

    /// Path to the directory of the data.
    pub fn path(&self) -> (path: &str)
        ensures
            path@ == self.path@,
    {
        self.path.as_str()
    }

    /// The manager of the columns of a feed.
    pub fn col_mgr(&self, feed: &str) -> (mgr: Option<&ColMgr>)
        requires
            self.wf(),
        ensures
            mgr is Some <==> self.list.position(feed@) is Some,
            mgr is Some ==> *mgr->0 == self.col_mgr@[self.list.position(feed@)->0],
    {
        match self.list.index(&String::from_str(feed)) {
            Some(i) => Some(&self.col_mgr[i]),
            None => None,
        }
    }

    /// Check whether the feed exists.
    pub fn contains(&self, feed: &str) -> (found: bool)
        requires
            self.wf(),
        ensures
            found == self.list.position(feed@) is Some,
    {
        self.list.contains(&String::from_str(feed))
    }

    /// List the feeds.
    pub fn list(&self) -> (recs: Vec<FeedRecord>)
        ensures
            recs@ == self.list.recs@,
    {
        self.list.list()
    }

    /// Add a feed, with the columns that the content of the file of its
    /// col list gives.
    pub fn add(&mut self, feed: &str, col_list: &[u8]) -> (res: Result<Vec<Action>, Error>)
        requires
            old(self).wf(),
        ensures
            final(self).wf(),
            final(self).path == old(self).path,
            res is Ok ==> {
                let n = old(self).list.recs@.len() as int;
                let rec = final(self).list.recs@[n];
                &&& final(self).list.recs@ == old(self).list.recs@.push(rec)
                &&& rec.name@ == pad_to(encode_utf8(feed@), 256)
                &&& final(self).col_mgr@.len() == n + 1
                &&& Some(final(self).col_mgr@[n].list.recs@) == spec_from_bytes_many::<ColRecord>(
                    col_list@,
                )
                &&& plan_view(res->Ok_0@) == seq![
                    ActionView::CreateDir(rec.spec_key()),
                    ActionView::Write(FileIdView::FeedList, (n * 256) as u64, rec.spec_encode()),
                ]
            },
            res is Err
                ==> final(self).list == old(self).list
                    && final(self).col_mgr@ == old(self).col_mgr@,
            res is Ok <==> {
                let name = pad_to(encode_utf8(feed@), 256);
                &&& valid_utf8(trim_zeros(name))
                &&& loadable::<ColRecord>(col_list@)
                &&& old(self).list.position(spec_bytes_to_str(name)) is None
                &&& old(self).list.has_room()
            },
            res is Err ==> res->Err_0 == (if !valid_utf8(
                trim_zeros(pad_to(encode_utf8(feed@), 256)),
            ) {
                Error::InvalidInput
            } else if !loadable::<ColRecord>(col_list@) {
                Error::InvalidData
            } else if old(self).list.position(spec_bytes_to_str(pad_to(encode_utf8(feed@), 256)))
                is Some {
                Error::AlreadyExists
            } else {
                Error::IoFailure
            }),
    {
        // Add record to the list
        let rec = FeedRecord::new(feed);
        if !rec.has_key() {
            return Err(Error::InvalidInput);
        }
        let key = rec.key();
        // Ensure ColMgr
        let mgr = match ColMgr::new(key.as_str(), col_list) {
            Ok(mgr) => mgr,
            Err(e) => {
                return Err(e);
            },
        };
        let write = match self.list.add(&rec) {
            Ok(write) => write,
            Err(e) => {
                return Err(e);
            },
        };
        self.col_mgr.push(mgr);
        let mut plan: Vec<Action> = Vec::new();
        plan.push(Action::CreateDir(key));
        plan.push(write);
        proof {
            assert(plan_view(plan@) =~= seq![plan@[0]@, plan@[1]@]);
            assert forall|i: int| 0 <= i < self.col_mgr@.len()
                implies (#[trigger] self.col_mgr@[i]).wf()
                && self.col_mgr@[i].path@ == self.list.keys()[i] by {
                if i < old(self).col_mgr@.len() {
                    assert(self.col_mgr@[i] == old(self).col_mgr@[i]);
                    assert(self.list.keys()[i] == old(self).list.keys()[i]);
                }
            }
        }
        Ok(plan)
    }

    /// Remove a feed: its directory, and then its record.
    pub fn remove(&mut self, feed: &str) -> (res: Result<Vec<Action>, Error>)
        requires
            old(self).wf(),
        ensures
            final(self).wf(),
            final(self).path == old(self).path,
            res is Ok <==> old(self).list.position(feed@) is Some,
            res is Ok ==> {
                let ix = old(self).list.position(feed@)->0;
                let recs = old(self).list.recs@;
                &&& final(self).list.recs@ == recs.update(ix, recs.last()).drop_last()
                &&& final(self).col_mgr@ == old(self).col_mgr@.update(
                    ix,
                    old(self).col_mgr@.last(),
                ).drop_last()
                &&& plan_view(res->Ok_0@) == seq![ActionView::RemoveDir(feed@)] + remove_plan(
                    FileIdView::FeedList,
                    256,
                    ix,
                    recs.len() - 1,
                    recs.last().spec_encode(),
                )
                &&& final(self).list.position(feed@) is None
            },
            res is Err
                ==> final(self).list == old(self).list
                    && final(self).col_mgr@ == old(self).col_mgr@ && res->Err_0 == Error::NotFound,
    {
        let key = String::from_str(feed);
        let ix = match self.list.index(&key) {
            Some(ix) => ix,
            None => {
                return Err(Error::NotFound);
            },
        };
        let ghost old_keys = self.list.keys();
        // Remove the record from the list
        let mut removed = match self.list.remove(&key) {
            Ok(removed) => removed,
            Err(e) => {
                return Err(e);
            },
        };
        // Remove ColMgr
        self.col_mgr.swap_remove(ix);
        let mut plan: Vec<Action> = Vec::new();
        plan.push(Action::RemoveDir(key));
        proof {
            lemma_plan_view_concat(plan@, removed@);
            assert(plan_view(plan@) =~= seq![ActionView::RemoveDir(feed@)]);
        }
        plan.append(&mut removed);
        proof {
            let last = old(self).list.recs@.len() - 1;
            assert(self.list.keys() =~= old_keys.update(ix as int, old_keys[last]).drop_last());
            assert forall|i: int| 0 <= i < self.col_mgr@.len()
                implies (#[trigger] self.col_mgr@[i]).wf()
                && self.col_mgr@[i].path@ == self.list.keys()[i] by {
                if i == ix {
                    assert(self.col_mgr@[i] == old(self).col_mgr@[last]);
                } else {
                    assert(self.col_mgr@[i] == old(self).col_mgr@[i]);
                }
            }
        }
        Ok(plan)
    }

    /// Rename a feed: its record gets the new name, and so does its
    /// directory.
    pub fn rename(&mut self, feed: &str, new_feed: &str) -> (res: Result<Vec<Action>, Error>)
        requires
            old(self).wf(),
        ensures
            final(self).wf(),
            final(self).path == old(self).path,
            res is Ok ==> {
                let ix = old(self).list.position(feed@)->0;
                let rec = final(self).list.recs@[ix];
                &&& old(self).list.position(feed@) is Some
                &&& final(self).list.recs@ == old(self).list.recs@.update(ix, rec)
                &&& rec.name@ == pad_to(encode_utf8(new_feed@), 256)
                &&& final(self).col_mgr@.len() == old(self).col_mgr@.len()
                &&& forall|i: int|
                    0 <= i < final(self).col_mgr@.len()
                        ==> (#[trigger] final(self).col_mgr@[i]).list.recs
                        == old(self).col_mgr@[i].list.recs
                &&& plan_view(res->Ok_0@) == seq![
                    ActionView::Write(FileIdView::FeedList, (ix * 256) as u64, rec.spec_encode()),
                    ActionView::RenameDir(feed@, rec.spec_key()),
                ]
            },
            res is Err
                ==> final(self).list == old(self).list
                    && final(self).col_mgr@ == old(self).col_mgr@,
            res is Ok <==> {
                let name = pad_to(encode_utf8(new_feed@), 256);
                &&& old(self).list.position(feed@) is Some
                &&& valid_utf8(trim_zeros(name))
                &&& (spec_bytes_to_str(name) == feed@ || old(self).list.position(
                    spec_bytes_to_str(name),
                ) is None)
            },
            res is Err ==> res->Err_0 == (if old(self).list.position(feed@) is None {
                Error::NotFound
            } else if !valid_utf8(trim_zeros(pad_to(encode_utf8(new_feed@), 256))) {
                Error::InvalidInput
            } else {
                Error::AlreadyExists
            }),
    {
        let key = String::from_str(feed);
        let ix = match self.list.index(&key) {
            Some(ix) => ix,
            None => {
                return Err(Error::NotFound);
            },
        };
        // Modify the record from the list
        let rec = FeedRecord::new(new_feed);
        if !rec.has_key() {
            return Err(Error::InvalidInput);
        }
        let ghost old_keys = self.list.keys();
        let write = match self.list.modify(&key, &rec) {
            Ok(write) => write,
            Err(e) => {
                return Err(e);
            },
        };
        // Update col_mgr
        let new_key = rec.key();
        self.col_mgr[ix].path = new_key.clone();
        self.col_mgr[ix].list.refile(FileId::ColList(new_key.clone()));
        // Move the path
        let mut plan: Vec<Action> = Vec::new();
        plan.push(write);
        plan.push(Action::RenameDir(key, new_key));
        proof {
            assert(plan_view(plan@) =~= seq![plan@[0]@, plan@[1]@]);
            assert(self.list.keys() =~= old_keys.update(ix as int, rec.spec_key()));
            assert forall|i: int| 0 <= i < self.col_mgr@.len()
                implies (#[trigger] self.col_mgr@[i]).wf()
                && self.col_mgr@[i].path@ == self.list.keys()[i] by {
                if i != ix {
                    assert(self.col_mgr@[i] == old(self).col_mgr@[i]);
                }
            }
        }
        Ok(plan)
    }

    /// The size of a feed. The managers keep names only, so each feed that
    /// they know has the size 0.
    pub fn size(&self, feed: &str) -> (res: Result<usize, Error>)
        requires
            self.wf(),
        ensures
            res is Ok <==> self.list.position(feed@) is Some,
            res is Ok ==> res->Ok_0 == 0,
            res is Err ==> res->Err_0 == Error::NotFound,
    {
        if self.contains(feed) {
            Ok(0)
        } else {
            Err(Error::NotFound)
        }
    }

    /// The managers of the columns of the feeds of a list, from the
    /// content of the files of their col lists.
    fn _load_col_mgr(list: &List<FeedRecord, String>, col_lists: &Vec<Vec<u8>>) -> (res: Result<
        Vec<ColMgr>,
        Error,
    >)
        requires
            list.wf(),
            col_lists@.len() == list.recs@.len(),
        ensures
            res is Ok <==> forall|i: int|
                0 <= i < col_lists@.len() ==> loadable::<ColRecord>((#[trigger] col_lists@[i])@),
            res is Ok ==> res->Ok_0@.len() == list.recs@.len() && forall|i: int|
                0 <= i < res->Ok_0@.len() ==> {
                    &&& (#[trigger] res->Ok_0@[i]).wf()
                    &&& res->Ok_0@[i].path@ == list.keys()[i]
                    &&& Some(res->Ok_0@[i].list.recs@) == spec_from_bytes_many::<ColRecord>(
                        col_lists@[i]@,
                    )
                },
            res is Err ==> res->Err_0 == Error::InvalidData,
    {
        let mut col_mgr: Vec<ColMgr> = Vec::new();
        let mut i: usize = 0;
        while i < list.recs.len()
            invariant
                list.wf(),
                col_lists@.len() == list.recs@.len(),
                i <= list.recs@.len(),
                col_mgr@.len() == i,
                forall|k: int|
                    0 <= k < i ==> {
                        &&& (#[trigger] col_mgr@[k]).wf()
                        &&& col_mgr@[k].path@ == list.keys()[k]
                        &&& Some(col_mgr@[k].list.recs@) == spec_from_bytes_many::<ColRecord>(
                            col_lists@[k]@,
                        )
                        &&& loadable::<ColRecord>(col_lists@[k]@)
                    },
            decreases list.recs@.len() - i,
        {
            assert(list.recs@[i as int].keyed());
            let feed = list.recs[i].key();
            let mgr = match ColMgr::new(feed.as_str(), col_lists[i].as_slice()) {
                Ok(mgr) => mgr,
                Err(e) => {
                    return Err(e);
                },
            };
            col_mgr.push(mgr);
            i = i + 1;
        }
        proof {
            assert forall|k: int| 0 <= k < col_lists@.len() implies loadable::<ColRecord>(
                (#[trigger] col_lists@[k])@,
            ) by {
                assert(col_mgr@[k].wf());
            }
        }
        Ok(col_mgr)
    }
}

} // verus!
