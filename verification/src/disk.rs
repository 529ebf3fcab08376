//! What the engine asks of the directory of a connection, and what becomes
//! of the directory.
//!
//! The engine never touches the file system. An operation that changes
//! the stored data returns a plan: the [`Action`]s that a driver carries
//! out, in their order. An operation that reads the stored data returns the
//! [`Read`]s that the driver performs. The functions [`step`] and [`run`]
//! say what a directory holds after an action and after a plan that were
//! carried out without a failure.

use vstd::prelude::*;
use vstd::string::StringExecFns;
use crate::utils::pad_to;

verus! {

/// A file of the directory of a connection.
#[derive(Debug, Clone, PartialEq, Eq, Hash)]
pub enum FileId {
    /// `feed.list`, the catalog of the feeds.
    FeedList,
    /// `{feed}/col.list`, the catalog of the columns of a feed.
    ColList(String),
    /// `{feed}/{col}.col`, the values of a column of a feed.
    Col(String, String),
}

/// What a [`FileId`] holds.
pub enum FileIdView {
    FeedList,
    ColList(Seq<char>),
    Col(Seq<char>, Seq<char>),
}

impl View for FileId {
    type V = FileIdView;

    open spec fn view(&self) -> FileIdView {
        match self {
            FileId::FeedList => FileIdView::FeedList,
            FileId::ColList(feed) => FileIdView::ColList(feed@),
            FileId::Col(feed, col) => FileIdView::Col(feed@, col@),
        }
    }
}

impl FileId {
    /// The path of the file below the directory of the connection, as the
    /// names of the directory and of the file in it.
    pub open spec fn spec_segments(&self) -> Seq<Seq<char>> {
        match self {
            FileId::FeedList => seq!["feed.list"@],
            FileId::ColList(feed) => seq![feed@, "col.list"@],
            FileId::Col(feed, col) => seq![feed@, col@ + ".col"@],
        }
    }

    /// The path of the file below the directory of the connection, as the
    /// names of the directory and of the file in it.
    pub fn segments(&self) -> (path: Vec<String>)
        ensures
            path@.map_values(|s: String| s@) == self.spec_segments(),
    {
        let mut path: Vec<String> = Vec::new();
        match self {
            FileId::FeedList => {
                path.push(String::from_str("feed.list"));
            },
            FileId::ColList(feed) => {
                path.push(feed.clone());
                path.push(String::from_str("col.list"));
            },
            FileId::Col(feed, col) => {
                path.push(feed.clone());
                path.push(col.clone().concat(".col"));
            },
        }
        assert(path@.map_values(|s: String| s@) =~= self.spec_segments());
        path
    }

    /// The same file.
    pub fn copy(&self) -> (file: FileId)
        ensures
            file@ == self@,
    {
        match self {
            FileId::FeedList => FileId::FeedList,
            FileId::ColList(feed) => FileId::ColList(feed.clone()),
            FileId::Col(feed, col) => FileId::Col(feed.clone(), col.clone()),
        }
    }
}

/// A change of the directory that the driver carries out.
#[derive(Debug, Clone, PartialEq, Eq)]
pub enum Action {
    /// Create the directory of a feed, unless it is there.
    CreateDir(String),
    /// Remove the directory of a feed with all that is in it.
    RemoveDir(String),
    /// Give the directory of a feed the name of another feed.
    RenameDir(String, String),
    /// Create a file without content, unless the file is there.
    Create(FileId),
    /// Remove a file.
    Remove(FileId),
    /// Give a file the place of another file.
    Rename(FileId, FileId),
    /// Set the length of a file in bytes: cut it, or fill it with zeros.
    Resize(FileId, u64),
    /// Write bytes into a file from an offset on, and flush.
    Write(FileId, u64, Vec<u8>),
}

/// What an [`Action`] holds.
pub enum ActionView {
    CreateDir(Seq<char>),
    RemoveDir(Seq<char>),
    RenameDir(Seq<char>, Seq<char>),
    Create(FileIdView),
    Remove(FileIdView),
    Rename(FileIdView, FileIdView),
    Resize(FileIdView, u64),
    Write(FileIdView, u64, Seq<u8>),
}

impl View for Action {
    type V = ActionView;

    open spec fn view(&self) -> ActionView {
        match self {
            Action::CreateDir(feed) => ActionView::CreateDir(feed@),
            Action::RemoveDir(feed) => ActionView::RemoveDir(feed@),
            Action::RenameDir(from, to) => ActionView::RenameDir(from@, to@),
            Action::Create(file) => ActionView::Create(file@),
            Action::Remove(file) => ActionView::Remove(file@),
            Action::Rename(from, to) => ActionView::Rename(from@, to@),
            Action::Resize(file, len) => ActionView::Resize(file@, *len),
            Action::Write(file, offset, data) => ActionView::Write(file@, *offset, data@),
        }
    }
}

/// The actions of a plan, each as what it holds.
pub open spec fn plan_view(plan: Seq<Action>) -> Seq<ActionView> {
    plan.map_values(|a: Action| a@)
}

/// A read of bytes of a file that the driver performs. Where the file ends
/// before the last byte, the driver reports `UnexpectedEof`.
#[derive(Debug, Clone, PartialEq, Eq)]
pub struct Read {
    /// The file to read.
    pub file: FileId,
    /// The offset of the first byte.
    pub offset: u64,
    /// The number of bytes.
    pub len: usize,
}

/// What a [`Read`] holds.
pub struct ReadView {
    pub file: FileIdView,
    pub offset: u64,
    pub len: usize,
}

impl View for Read {
    type V = ReadView;

    open spec fn view(&self) -> ReadView {
        ReadView { file: self.file@, offset: self.offset, len: self.len }
    }
}

/// The reads of a request, each as what it holds.
pub open spec fn reads_view(reads: Seq<Read>) -> Seq<ReadView> {
    reads.map_values(|r: Read| r@)
}

/// The files of a directory with their content.
pub type DiskView = Map<FileIdView, Seq<u8>>;

/// The content of a file, which is empty for a file that is not there.
pub open spec fn content(disk: DiskView, file: FileIdView) -> Seq<u8> {
    if disk.contains_key(file) {
        disk[file]
    } else {
        Seq::empty()
    }
}

/// The content of a file after bytes were written into it from an offset
/// on. A gap between the end of the file and the offset is filled with
/// zeros.
pub open spec fn written(old: Seq<u8>, offset: nat, data: Seq<u8>) -> Seq<u8> {
    let len = if old.len() >= offset + data.len() {
        old.len()
    } else {
        offset + data.len()
    };
    Seq::new(
        len,
        |i: int|
            if offset <= i < offset + data.len() {
                data[i - offset]
            } else if i < old.len() {
                old[i]
            } else {
                0u8
            },
    )
}

/// What a read finds in a directory, where the file reaches that far.
pub open spec fn found(disk: DiskView, read: ReadView) -> Option<Seq<u8>> {
    let bytes = content(disk, read.file);
    if read.offset + read.len <= bytes.len() {
        Some(bytes.subrange(read.offset as int, read.offset + read.len))
    } else {
        None
    }
}

/// Whether a file lies in the directory of a feed.
pub open spec fn in_feed(file: FileIdView, feed: Seq<char>) -> bool {
    match file {
        FileIdView::FeedList => false,
        FileIdView::ColList(f) => f == feed,
        FileIdView::Col(f, _) => f == feed,
    }
}

/// The file with the directory of its feed replaced.
pub open spec fn in_dir(file: FileIdView, feed: Seq<char>) -> FileIdView {
    match file {
        FileIdView::FeedList => FileIdView::FeedList,
        FileIdView::ColList(_) => FileIdView::ColList(feed),
        FileIdView::Col(_, col) => FileIdView::Col(feed, col),
    }
}

/// The directory after an action that was carried out.
pub open spec fn step(disk: DiskView, action: ActionView) -> DiskView {
    match action {
        ActionView::CreateDir(_) => disk,
        ActionView::RemoveDir(feed) => Map::new(
            |f: FileIdView| disk.contains_key(f) && !in_feed(f, feed),
            |f: FileIdView| disk[f],
        ),
        ActionView::RenameDir(from, to) => Map::new(
            |f: FileIdView|
                if in_feed(f, to) {
                    disk.contains_key(in_dir(f, from))
                } else {
                    disk.contains_key(f) && !in_feed(f, from)
                },
            |f: FileIdView|
                if in_feed(f, to) {
                    disk[in_dir(f, from)]
                } else {
                    disk[f]
                },
        ),
        ActionView::Create(file) => if disk.contains_key(file) {
            disk
        } else {
            disk.insert(file, Seq::empty())
        },
        ActionView::Remove(file) => disk.remove(file),
        ActionView::Rename(from, to) => if disk.contains_key(from) {
            disk.remove(from).insert(to, disk[from])
        } else {
            disk
        },
        ActionView::Resize(file, len) => disk.insert(file, pad_to(content(disk, file), len as nat)),
        ActionView::Write(file, offset, data) => disk.insert(
            file,
            written(content(disk, file), offset as nat, data),
        ),
    }
}

/// The directory after the actions of a plan that were carried out in their
/// order.
pub open spec fn run(disk: DiskView, plan: Seq<ActionView>) -> DiskView
    decreases plan.len(),
{
    if plan.len() == 0 {
        disk
    } else {
        step(run(disk, plan.drop_last()), plan.last())
    }
}

/// A plan that is carried out in two parts leaves what the whole plan
/// leaves.
pub proof fn lemma_run_concat(disk: DiskView, first: Seq<ActionView>, second: Seq<ActionView>)
    ensures
        run(disk, first + second) == run(run(disk, first), second),
    decreases second.len(),
{
    if second.len() == 0 {
        assert(first + second =~= first);
    } else {
        assert((first + second).drop_last() =~= first + second.drop_last());
        lemma_run_concat(disk, first, second.drop_last());
    }
}

/// A plan of one action leaves what the action leaves.
pub proof fn lemma_run_one(disk: DiskView, action: ActionView)
    ensures
        run(disk, seq![action]) == step(disk, action),
{
    let plan = seq![action];
    assert(plan.drop_last().len() == 0);
    assert(run(disk, plan.drop_last()) == disk);
    assert(plan.last() == action);
}

/// A plan of two actions leaves what the second action leaves after the
/// first.
pub proof fn lemma_run_two(disk: DiskView, a: ActionView, b: ActionView)
    ensures
        run(disk, seq![a, b]) == step(step(disk, a), b),
{
    assert(seq![a, b].drop_last() =~= seq![a]);
    lemma_run_one(disk, a);
}

/// A plan of three actions leaves what the third action leaves after the
/// first two.
pub proof fn lemma_run_three(disk: DiskView, a: ActionView, b: ActionView, c: ActionView)
    ensures
        run(disk, seq![a, b, c]) == step(step(step(disk, a), b), c),
{
    assert(seq![a, b, c].drop_last() =~= seq![a, b]);
    lemma_run_two(disk, a, b);
}

/// The bytes that were written are the bytes that are read from the place
/// where they were written.
pub proof fn lemma_read_written(old: Seq<u8>, offset: nat, data: Seq<u8>)
    ensures
        offset + data.len() <= written(old, offset, data).len(),
        written(old, offset, data).subrange(offset as int, (offset + data.len()) as int) == data,
{
    assert(written(old, offset, data).subrange(offset as int, (offset + data.len()) as int)
        =~= data);
}

/// Bytes that are written twice to the same place leave what they leave
/// when written once.
pub proof fn lemma_written_twice(old: Seq<u8>, offset: nat, data: Seq<u8>)
    ensures
        written(written(old, offset, data), offset, data) == written(old, offset, data),
{
    assert(written(written(old, offset, data), offset, data) =~= written(old, offset, data));
}

} // verus!
