//! What a directory holds when it agrees with a connection, and what plans
//! do to a directory.
//!
//! A directory agrees with a connection when the file of the feed list and
//! the files of the col lists hold the stored forms of the catalogs, and
//! each column file is there and holds as many blocks as the feed has rows.
//! Each operation of a connection that returns a plan promises that a
//! directory that agreed with the connection before the operation agrees
//! with it after the plan was carried out.

use vstd::prelude::*;
use crate::conn::{resize_plan, sizable, Conn};
use crate::conn_data::{col_read, col_units, col_update};
use crate::dataset::Dataset;
use crate::datatype::DataunitView;
use crate::disk::{
    content, found, lemma_read_written, run, step, written, ActionView, DiskView, FileIdView,
    ReadView,
};
use crate::error::Error;
use crate::items::{ColItem, FeedItem};
use crate::list::{keys_of, lemma_stored_update};
use crate::lookup::{find, lemma_find_some};
use crate::series::{
    fixed, keeps_all, lemma_series_len, lemma_series_round_trip, lemma_try_map_ok, series_bytes,
    try_map,
};
use crate::utils::{pad_to, spec_to_bytes_many, Pod};

verus! {

/// Whether a directory holds the stored form of the col list of the feed at
/// a position.
pub open spec fn col_list_agrees(
    feeds: Seq<FeedItem>,
    cols: Seq<Seq<ColItem>>,
    disk: DiskView,
    i: int,
) -> bool {
    content(disk, FileIdView::ColList(feeds[i].spec_name())) == spec_to_bytes_many(cols[i])
}

/// Whether the file of a column of a feed is there and holds one block for
/// each row of the feed.
pub open spec fn col_file_agrees(
    feeds: Seq<FeedItem>,
    cols: Seq<Seq<ColItem>>,
    disk: DiskView,
    i: int,
    j: int,
) -> bool {
    let file = FileIdView::Col(feeds[i].spec_name(), cols[i][j].spec_name());
    disk.contains_key(file) && disk[file].len() == feeds[i].size * cols[i][j].datatype.spec_size()
}

/// Whether a directory holds the stored forms of the catalogs: of the feeds
/// and, for each feed, of its columns.
pub open spec fn catalogs_agree(feeds: Seq<FeedItem>, cols: Seq<Seq<ColItem>>, disk: DiskView)
    -> bool {
    &&& content(disk, FileIdView::FeedList) == spec_to_bytes_many(feeds)
    &&& forall|i: int| 0 <= i < feeds.len() ==> #[trigger] col_list_agrees(feeds, cols, disk, i)
}

/// Whether each column file of each feed is there and holds one block for
/// each row of the feed.
pub open spec fn sizes_agree(feeds: Seq<FeedItem>, cols: Seq<Seq<ColItem>>, disk: DiskView)
    -> bool {
    forall|i: int, j: int|
        0 <= i < feeds.len() && 0 <= j < cols[i].len() ==> #[trigger] col_file_agrees(
            feeds,
            cols,
            disk,
            i,
            j,
        )
}

/// Whether a directory agrees with catalogs.
pub open spec fn agrees(feeds: Seq<FeedItem>, cols: Seq<Seq<ColItem>>, disk: DiskView) -> bool {
    catalogs_agree(feeds, cols, disk) && sizes_agree(feeds, cols, disk)
}

/// Whether the names of the feeds are all different and, in each feed, the
/// names of the columns are all different.
pub open spec fn distinct(feeds: Seq<FeedItem>, cols: Seq<Seq<ColItem>>) -> bool {
    &&& cols.len() == feeds.len()
    &&& keys_of(feeds).no_duplicates()
    &&& forall|i: int| 0 <= i < cols.len() ==> (#[trigger] keys_of(cols[i])).no_duplicates()
}

/// Whether a file is the same in two directories: there in both with one
/// content, or in none.
pub open spec fn same_file(a: DiskView, b: DiskView, file: FileIdView) -> bool {
    a.contains_key(file) == b.contains_key(file) && (a.contains_key(file) ==> a[file] == b[file])
}

/// Whether an action sets the length of a file or writes into a file.
pub open spec fn simple(action: ActionView) -> bool {
    action is Resize || action is Write
}

/// The file that a simple action is about.
pub open spec fn target(action: ActionView) -> FileIdView {
    match action {
        ActionView::Resize(file, _) => file,
        ActionView::Write(file, _, _) => file,
        _ => FileIdView::FeedList,
    }
}

/// The content of the file of a simple action after the action.
pub open spec fn effect(action: ActionView, old: Seq<u8>) -> Seq<u8> {
    match action {
        ActionView::Resize(_, len) => pad_to(old, len as nat),
        ActionView::Write(_, offset, data) => written(old, offset as nat, data),
        _ => old,
    }
}

/// Whether a plan is made of simple actions, each about a file of its own.
pub open spec fn simple_plan(plan: Seq<ActionView>) -> bool {
    &&& forall|k: int| 0 <= k < plan.len() ==> simple(#[trigger] plan[k])
    &&& forall|k: int, l: int|
        0 <= k < plan.len() && 0 <= l < plan.len() && k != l ==> target(#[trigger] plan[k])
            != target(#[trigger] plan[l])
}

/// A plan of simple actions, each about a file of its own, leaves each of
/// those files with the effect of its action and each other file as it was.
pub proof fn lemma_run_simple(disk: DiskView, plan: Seq<ActionView>)
    requires
        simple_plan(plan),
    ensures
        forall|k: int|
            0 <= k < plan.len() ==> run(disk, plan).contains_key(target(#[trigger] plan[k])) && run(
                disk,
                plan,
            )[target(plan[k])] == effect(plan[k], content(disk, target(plan[k]))),
        forall|file: FileIdView|
            (forall|k: int| 0 <= k < plan.len() ==> target(#[trigger] plan[k]) != file)
                ==> #[trigger] same_file(run(disk, plan), disk, file),
    decreases plan.len(),
{
    if plan.len() > 0 {
        let front = plan.drop_last();
        let last = plan.last();
        assert(simple_plan(front)) by {
            assert forall|k: int| 0 <= k < front.len() implies simple(#[trigger] front[k]) by {
                assert(front[k] == plan[k]);
            }
            assert forall|k: int, l: int|
                0 <= k < front.len() && 0 <= l < front.len() && k != l implies target(
                #[trigger] front[k],
            ) != target(#[trigger] front[l]) by {
                assert(front[k] == plan[k] && front[l] == plan[l]);
            }
        }
        lemma_run_simple(disk, front);
        let before = run(disk, front);
        let after = run(disk, plan);
        assert(after == step(before, last));
        assert(simple(plan[plan.len() - 1]));
        assert forall|k: int| 0 <= k < front.len() implies target(#[trigger] front[k]) != target(
            last,
        ) by {
            assert(front[k] == plan[k]);
            assert(target(plan[k]) != target(plan[plan.len() - 1]));
        }
        assert(same_file(before, disk, target(last)));
        assert forall|k: int| 0 <= k < plan.len() implies after.contains_key(
            target(#[trigger] plan[k]),
        ) && after[target(plan[k])] == effect(plan[k], content(disk, target(plan[k]))) by {
            if k < front.len() {
                assert(front[k] == plan[k]);
                assert(target(front[k]) != target(last));
            }
        }
        assert forall|file: FileIdView|
            (forall|k: int| 0 <= k < plan.len() ==> target(#[trigger] plan[k])
                != file) implies #[trigger] same_file(after, disk, file) by {
            assert(target(plan[plan.len() - 1]) != file);
            assert forall|k: int| 0 <= k < front.len() implies target(#[trigger] front[k])
                != file by {
                assert(front[k] == plan[k]);
            }
            assert(same_file(before, disk, file));
        }
    }
}

/// A plan of simple actions, each about a file of its own, that is carried
/// out twice leaves what it leaves when it is carried out once.
pub proof fn lemma_simple_plan_idempotent(disk: DiskView, plan: Seq<ActionView>)
    requires
        simple_plan(plan),
    ensures
        run(run(disk, plan), plan) == run(disk, plan),
{
    let once = run(disk, plan);
    let twice = run(once, plan);
    lemma_run_simple(disk, plan);
    lemma_run_simple(once, plan);
    assert forall|file: FileIdView| #[trigger] same_file(twice, once, file) by {
        if exists|k: int| 0 <= k < plan.len() && target(#[trigger] plan[k]) == file {
            let k = choose|k: int| 0 <= k < plan.len() && target(#[trigger] plan[k]) == file;
            let old = content(disk, file);
            assert(once[file] == effect(plan[k], old));
            assert(twice[file] == effect(plan[k], once[file]));
            match plan[k] {
                ActionView::Resize(_, len) => {
                    assert(pad_to(pad_to(old, len as nat), len as nat) =~= pad_to(old, len as nat));
                },
                ActionView::Write(_, offset, data) => {
                    crate::disk::lemma_written_twice(old, offset as nat, data);
                },
                _ => {},
            }
        } else {
            assert(same_file(once, disk, file));
            assert(same_file(twice, once, file));
        }
    }
    assert forall|file: FileIdView| twice.dom().contains(file) == once.dom().contains(file) by {
        assert(same_file(twice, once, file));
    }
    assert(twice.dom() =~= once.dom());
    assert forall|file: FileIdView| twice.dom().contains(file) implies #[trigger] twice[file]
        == once[file] by {
        assert(same_file(twice, once, file));
    }
    assert(twice =~= once);
}

impl Conn {
    /// The columns of each feed, in the order of the feeds.
    pub open spec fn all_cols(&self) -> Seq<Seq<ColItem>> {
        Seq::new(self.col_lists@.len(), |i: int| self.cols(i))
    }

    /// Whether a feed has the `n` rows from the row `ix` on, or there are
    /// no such rows to have.
    pub open spec fn has_rows(&self, feed: Seq<char>, ix: nat, n: nat) -> bool {
        n == 0 || (self.feed_at(feed) is Some && ix + n <= self.feeds()[self.feed_at(feed)->0].size)
    }

    /// Whether a directory agrees with the connection.
    pub open spec fn agrees(&self, disk: DiskView) -> bool {
        agrees(self.feeds(), self.all_cols(), disk)
    }

    /// In a connection the names of the feeds are all different and so
    /// are, in each feed, the names of the columns.
    pub proof fn lemma_distinct(&self)
        requires
            self.wf(),
        ensures
            distinct(self.feeds(), self.all_cols()),
            self.feeds().len() * 264 <= u64::MAX,
    {
        assert forall|i: int| 0 <= i < self.all_cols().len() implies (#[trigger] keys_of(
            self.all_cols()[i],
        )).no_duplicates() by {
            assert(self.col_lists@[i].wf());
        }
    }
}

/// The file of the feed list holds the catalog of the feeds after the
/// record of a feed was overwritten in place.
pub proof fn lemma_feed_record_written(feeds: Seq<FeedItem>, i: int, item: FeedItem)
    requires
        0 <= i < feeds.len(),
        feeds.len() * 264 <= u64::MAX,
    ensures
        0 <= i * 264 <= u64::MAX,
        spec_to_bytes_many(feeds.update(i, item)) == written(
            spec_to_bytes_many(feeds),
            ((i * 264) as u64) as nat,
            item.spec_encode(),
        ),
{
    lemma_stored_update(feeds, i, item);
}

/// A change of the size of a feed keeps a directory in agreement: each
/// column file of the feed holds one block for each row of the new size.
pub proof fn lemma_size_set_agrees(
    feeds: Seq<FeedItem>,
    cols: Seq<Seq<ColItem>>,
    i: int,
    size: usize,
    disk: DiskView,
)
    requires
        distinct(feeds, cols),
        feeds.len() * 264 <= u64::MAX,
        0 <= i < feeds.len(),
        sizable(cols[i], size as nat),
        agrees(feeds, cols, disk),
    ensures
        agrees(
            feeds.update(i, FeedItem { name: feeds[i].name, size }),
            cols,
            run(
                disk,
                resize_plan(feeds[i].spec_name(), cols[i], size as nat) + seq![
                    ActionView::Write(
                        FileIdView::FeedList,
                        (i * 264) as u64,
                        (FeedItem { name: feeds[i].name, size }).spec_encode(),
                    ),
                ],
            ),
        ),
{
    let item = FeedItem { name: feeds[i].name, size };
    let feed = feeds[i].spec_name();
    let after_feeds = feeds.update(i, item);
    let resizes = resize_plan(feed, cols[i], size as nat);
    let write = ActionView::Write(FileIdView::FeedList, (i * 264) as u64, item.spec_encode());
    let plan = resizes + seq![write];
    let n = cols[i].len() as int;
    lemma_feed_record_written(feeds, i, item);
    assert(plan.len() == n + 1);
    assert(plan[n] == write);
    assert forall|k: int| 0 <= k < n implies #[trigger] plan[k] == ActionView::Resize(
        FileIdView::Col(feed, cols[i][k].spec_name()),
        (size * cols[i][k].datatype.spec_size()) as u64,
    ) by {
        assert(plan[k] == resizes[k]);
    }
    assert(simple_plan(plan)) by {
        assert forall|k: int, l: int|
            0 <= k < plan.len() && 0 <= l < plan.len() && k != l implies target(
            #[trigger] plan[k],
        ) != target(#[trigger] plan[l]) by {
            if k < n && l < n {
                assert(keys_of(cols[i])[k] != keys_of(cols[i])[l]);
            }
        }
    }
    lemma_run_simple(disk, plan);
    let after = run(disk, plan);
    assert(after[target(plan[n])] == effect(plan[n], content(disk, target(plan[n]))));
    assert(catalogs_agree(after_feeds, cols, after)) by {
        assert forall|f: int| 0 <= f < after_feeds.len() implies #[trigger] col_list_agrees(
            after_feeds,
            cols,
            after,
            f,
        ) by {
            let file = FileIdView::ColList(feeds[f].spec_name());
            assert(col_list_agrees(feeds, cols, disk, f));
            assert(after_feeds[f].spec_name() == feeds[f].spec_name());
            assert forall|k: int| 0 <= k < plan.len() implies target(#[trigger] plan[k])
                != file by {}
            assert(same_file(after, disk, file));
        }
    }
    assert(sizes_agree(after_feeds, cols, after)) by {
        assert forall|f: int, j: int|
            0 <= f < after_feeds.len() && 0 <= j < cols[f].len() implies #[trigger] col_file_agrees(
            after_feeds,
            cols,
            after,
            f,
            j,
        ) by {
            let file = FileIdView::Col(feeds[f].spec_name(), cols[f][j].spec_name());
            assert(col_file_agrees(feeds, cols, disk, f, j));
            assert(after_feeds[f].spec_name() == feeds[f].spec_name());
            if f == i {
                assert(target(plan[j]) == file);
                assert(after[file] == effect(plan[j], content(disk, file)));
                assert(size * cols[i][j].datatype.spec_size() <= u64::MAX);
            } else {
                assert(keys_of(feeds)[f] != keys_of(feeds)[i]);
                assert forall|k: int| 0 <= k < plan.len() implies target(#[trigger] plan[k])
                    != file by {}
                assert(same_file(after, disk, file));
            }
        }
    }
}

/// Whether a plan writes `n` rows from the row `ix` on into files of
/// columns of a feed, each file once.
pub open spec fn is_update(
    feed: Seq<char>,
    cols: Seq<ColItem>,
    ix: nat,
    n: nat,
    plan: Seq<ActionView>,
) -> bool {
    &&& simple_plan(plan)
    &&& forall|k: int|
        0 <= k < plan.len() ==> exists|j: int|
            #![trigger cols[j]]
            0 <= j < cols.len() && is_col_write(feed, cols[j], ix, n, #[trigger] plan[k])
}

/// Whether an action writes `n` rows from the row `ix` on into the file of
/// a column of a feed.
pub open spec fn is_col_write(
    feed: Seq<char>,
    col: ColItem,
    ix: nat,
    n: nat,
    action: ActionView,
) -> bool {
    &&& action matches ActionView::Write(file, offset, data)
    &&& file == FileIdView::Col(feed, col.spec_name())
    &&& offset == ix * col.datatype.spec_size()
    &&& data.len() == n * col.datatype.spec_size()
}

/// What an update of one column writes is `n` rows from the row `ix` on.
pub proof fn lemma_col_update_is_write(
    feed: Seq<char>,
    cols: Seq<ColItem>,
    ix: nat,
    ds: Dataset,
    name: Seq<char>,
)
    requires
        ds.even(),
        col_update(feed, cols, ix, ds.spec_size(), ds.units_of(name), name) is Ok,
    ensures
        find(keys_of(cols), name) is Some,
        0 <= find(keys_of(cols), name)->0 < cols.len(),
        cols[find(keys_of(cols), name)->0].spec_name() == name,
        is_col_write(
            feed,
            cols[find(keys_of(cols), name)->0],
            ix,
            ds.spec_size(),
            col_update(feed, cols, ix, ds.spec_size(), ds.units_of(name), name)->Ok_0,
        ),
{
    lemma_find_some(keys_of(cols), name);
    let j = find(keys_of(cols), name)->0;
    let datatype = cols[j].datatype;
    match ds.units_of(name) {
        Some(units) => {
            lemma_find_some(ds.names(), name);
            let c = find(ds.names(), name)->0;
            assert(ds.cols@[c].units@.len() == ds.cols@[0].units@.len());
            assert(units.len() == ds.spec_size());
            if fixed(datatype) {
                lemma_series_len(datatype, units);
            } else {
                assert(ds.spec_size() * 0 == 0) by (nonlinear_arith);
            }
        },
        None => {},
    }
}

/// The plan of an update of columns that are named once each writes `n`
/// rows from the row `ix` on into the files of those columns.
pub proof fn lemma_data_update_is_update(
    conn: Conn,
    feed: Seq<char>,
    ix: nat,
    ds: Dataset,
    names: Seq<Seq<char>>,
)
    requires
        conn.wf(),
        names.no_duplicates(),
        ds.spec_size() > 0,
        conn.spec_data_update(feed, ix, ds, names) is Ok,
    ensures
        conn.feed_at(feed) is Some,
        is_update(
            feed,
            conn.cols(conn.feed_at(feed)->0),
            ix,
            ds.spec_size(),
            conn.spec_data_update(feed, ix, ds, names)->Ok_0,
        ),
{
    let i = conn.feed_at(feed)->0;
    let cols = conn.cols(i);
    let n = ds.spec_size();
    let step = |name: Seq<char>| col_update(feed, cols, ix, n, ds.units_of(name), name);
    let plan = try_map(names, step)->Ok_0;
    lemma_try_map_ok(names, step);
    assert forall|k: int| 0 <= k < plan.len() implies simple(#[trigger] plan[k]) && target(plan[k])
        == FileIdView::Col(feed, names[k]) && exists|j: int|
        #![trigger cols[j]]
        0 <= j < cols.len() && is_col_write(feed, cols[j], ix, n, plan[k]) by {
        assert(step(names[k]) == Ok::<ActionView, Error>(plan[k]));
        lemma_col_update_is_write(feed, cols, ix, ds, names[k]);
        let j = find(keys_of(cols), names[k])->0;
        assert(is_col_write(feed, cols[j], ix, n, plan[k]));
    }
    assert forall|k: int, l: int|
        0 <= k < plan.len() && 0 <= l < plan.len() && k != l implies target(#[trigger] plan[k])
        != target(#[trigger] plan[l]) by {
        assert(names[k] != names[l]);
    }
}

/// An update of rows that a feed has keeps a directory in agreement.
pub proof fn lemma_update_agrees(
    feeds: Seq<FeedItem>,
    cols: Seq<Seq<ColItem>>,
    i: int,
    ix: nat,
    n: nat,
    plan: Seq<ActionView>,
    disk: DiskView,
)
    requires
        distinct(feeds, cols),
        0 <= i < feeds.len(),
        is_update(feeds[i].spec_name(), cols[i], ix, n, plan),
        ix + n <= feeds[i].size,
        agrees(feeds, cols, disk),
    ensures
        agrees(feeds, cols, run(disk, plan)),
{
    let feed = feeds[i].spec_name();
    lemma_run_simple(disk, plan);
    let after = run(disk, plan);
    assert forall|k: int| 0 <= k < plan.len() implies target(#[trigger] plan[k]) is Col && target(
        plan[k],
    )->Col_0 == feed by {
        let j = choose|j: int|
            #![trigger cols[i][j]]
            0 <= j < cols[i].len() && is_col_write(feed, cols[i][j], ix, n, plan[k]);
        assert(is_col_write(feed, cols[i][j], ix, n, plan[k]));
    }
    assert(same_file(after, disk, FileIdView::FeedList));
    assert(catalogs_agree(feeds, cols, after)) by {
        assert forall|f: int| 0 <= f < feeds.len() implies #[trigger] col_list_agrees(
            feeds,
            cols,
            after,
            f,
        ) by {
            assert(col_list_agrees(feeds, cols, disk, f));
            assert(same_file(after, disk, FileIdView::ColList(feeds[f].spec_name())));
        }
    }
    assert(sizes_agree(feeds, cols, after)) by {
        assert forall|f: int, c: int|
            0 <= f < feeds.len() && 0 <= c < cols[f].len() implies #[trigger] col_file_agrees(
            feeds,
            cols,
            after,
            f,
            c,
        ) by {
            let file = FileIdView::Col(feeds[f].spec_name(), cols[f][c].spec_name());
            assert(col_file_agrees(feeds, cols, disk, f, c));
            if exists|k: int| 0 <= k < plan.len() && target(#[trigger] plan[k]) == file {
                let k = choose|k: int| 0 <= k < plan.len() && target(#[trigger] plan[k]) == file;
                let j = choose|j: int|
                    #![trigger cols[i][j]]
                    0 <= j < cols[i].len() && is_col_write(feed, cols[i][j], ix, n, plan[k]);
                assert(is_col_write(feed, cols[i][j], ix, n, plan[k]));
                assert(feeds[f].spec_name() == feed);
                assert(keys_of(feeds)[f] == keys_of(feeds)[i]);
                assert(f == i);
                assert(keys_of(cols[i])[j] == keys_of(cols[i])[c]);
                assert(j == c);
                let w = cols[i][c].datatype.spec_size();
                assert(ix * w + n * w <= feeds[i].size * w) by (nonlinear_arith)
                    requires
                        ix + n <= feeds[i].size,
                        w >= 0,
                ;
                assert(after[file] == effect(plan[k], content(disk, file)));
            } else {
                assert(same_file(after, disk, file));
            }
        }
    }
}

/// The plan of an update of columns that are named once each leaves, when
/// it is carried out twice, what it leaves when it is carried out once, and
/// it keeps a directory in agreement where the feed has the rows that it
/// writes.
pub proof fn lemma_data_update_laws(
    conn: Conn,
    feed: Seq<char>,
    ix: nat,
    ds: Dataset,
    names: Seq<Seq<char>>,
    disk: DiskView,
)
    requires
        conn.wf(),
        names.no_duplicates(),
        conn.spec_data_update(feed, ix, ds, names) is Ok,
    ensures
        run(
            run(disk, conn.spec_data_update(feed, ix, ds, names)->Ok_0),
            conn.spec_data_update(feed, ix, ds, names)->Ok_0,
        ) == run(disk, conn.spec_data_update(feed, ix, ds, names)->Ok_0),
        conn.agrees(disk) && conn.has_rows(feed, ix, ds.spec_size()) ==> conn.agrees(
            run(disk, conn.spec_data_update(feed, ix, ds, names)->Ok_0),
        ),
{
    let plan = conn.spec_data_update(feed, ix, ds, names)->Ok_0;
    if ds.spec_size() == 0 {
        assert(plan.len() == 0);
        assert(simple_plan(plan));
        lemma_simple_plan_idempotent(disk, plan);
    } else {
        lemma_data_update_is_update(conn, feed, ix, ds, names);
        lemma_simple_plan_idempotent(disk, plan);
        let i = conn.feed_at(feed)->0;
        lemma_find_some(conn.feed_list.keys(), feed);
        conn.lemma_distinct();
        assert(conn.all_cols()[i] == conn.cols(i));
        if conn.agrees(disk) && conn.has_rows(feed, ix, ds.spec_size()) {
            lemma_update_agrees(conn.feeds(), conn.all_cols(), i, ix, ds.spec_size(), plan, disk);
        }
    }
}

/// What is patched is what is read: after the plan of a patch of a feed
/// was carried out, the read of the same rows of a column of the dataset
/// finds the stored form of the series of that column, and where the column
/// keeps the units of the series, the units that are read are the units of
/// the series.
pub proof fn lemma_patch_then_get(
    conn: Conn,
    feed: Seq<char>,
    ix: nat,
    ds: Dataset,
    disk: DiskView,
    k: int,
)
    requires
        conn.wf(),
        ds.wf(),
        ds.spec_size() > 0,
        conn.spec_data_update(feed, ix, ds, ds.names()) is Ok,
        conn.spec_data_get(feed, ix, ds.spec_size(), ds.names()) is Ok,
        0 <= k < ds.names().len(),
    ensures
        ({
            let cols = conn.cols(conn.feed_at(feed)->0);
            let name = ds.names()[k];
            let datatype = cols[find(keys_of(cols), name)->0].datatype;
            let units = ds.units_of(name)->0;
            let plan = conn.spec_data_update(feed, ix, ds, ds.names())->Ok_0;
            let read = conn.spec_data_get(feed, ix, ds.spec_size(), ds.names())->Ok_0[k];
            &&& ds.units_of(name) is Some
            &&& fixed(datatype) ==> found(run(disk, plan), read) == Some(
                series_bytes(datatype, units),
            )
            &&& fixed(datatype) && datatype.spec_size() > 0 && keeps_all(datatype, units)
                ==> col_units(cols, ds.spec_size(), name, found(run(disk, plan), read)->0)
                == Ok::<Seq<DataunitView>, Error>(units)
        }),
{
    let i = conn.feed_at(feed)->0;
    let cols = conn.cols(i);
    let n = ds.spec_size();
    let names = ds.names();
    let name = names[k];
    let write = |name: Seq<char>| col_update(feed, cols, ix, n, ds.units_of(name), name);
    let get = |name: Seq<char>| col_read(feed, cols, ix, n, name);
    let plan = try_map(names, write)->Ok_0;
    let reads = try_map(names, get)->Ok_0;
    lemma_try_map_ok(names, write);
    lemma_try_map_ok(names, get);
    lemma_data_update_is_update(conn, feed, ix, ds, names);
    lemma_run_simple(disk, plan);
    assert(write(names[k]) == Ok::<ActionView, Error>(plan[k]));
    assert(get(names[k]) == Ok::<ReadView, Error>(reads[k]));
    lemma_find_some(keys_of(cols), name);
    let j = find(keys_of(cols), name)->0;
    let datatype = cols[j].datatype;
    crate::lookup::lemma_find_at(names, name, k);
    let units = ds.units_of(name)->0;
    assert(ds.cols@[k].units@.len() == ds.cols@[0].units@.len());
    assert(units.len() == n);
    if fixed(datatype) {
        lemma_series_len(datatype, units);
        let file = FileIdView::Col(feed, name);
        let old = content(disk, file);
        let data = series_bytes(datatype, units);
        assert(target(plan[k]) == file);
        assert(run(disk, plan)[file] == effect(plan[k], old));
        lemma_read_written(old, ix * datatype.spec_size(), data);
        if datatype.spec_size() > 0 && keeps_all(datatype, units) {
            lemma_series_round_trip(datatype, units);
        }
    }
}

} // verus!
