//! The changes of the catalogs keep a directory in agreement with a
//! connection.

use vstd::prelude::*;
use crate::conn::feed_open_plan;
use crate::disk::{
    content, lemma_run_concat, lemma_run_one, lemma_run_three, lemma_run_two, run, step,
    ActionView, DiskView, FileIdView,
};
use crate::items::{ColItem, FeedItem};
use crate::laws::{
    agrees, catalogs_agree, col_file_agrees, col_list_agrees, distinct, same_file, sizes_agree,
};
use crate::list::{
    keys_of, lemma_stored_drop_last, lemma_stored_push, lemma_stored_update, remove_plan,
};
use crate::utils::{spec_to_bytes_many, Pod};

verus! {

/// A new column keeps a directory in agreement: its record goes after the
/// records of the col list, and its file is created with one block for each
/// row of the feed.
pub proof fn lemma_col_add_agrees(
    feeds: Seq<FeedItem>,
    cols: Seq<Seq<ColItem>>,
    i: int,
    item: ColItem,
    disk: DiskView,
)
    requires
        distinct(feeds, cols),
        0 <= i < feeds.len(),
        forall|j: int| 0 <= j < cols[i].len() ==> (#[trigger] cols[i][j]).spec_name()
            != item.spec_name(),
        (cols[i].len() + 1) * 272 <= u64::MAX,
        feeds[i].size * item.datatype.spec_size() <= u64::MAX,
        agrees(feeds, cols, disk),
    ensures
        agrees(
            feeds,
            cols.update(i, cols[i].push(item)),
            run(
                disk,
                seq![
                    ActionView::Write(
                        FileIdView::ColList(feeds[i].spec_name()),
                        (cols[i].len() * 272) as u64,
                        item.spec_encode(),
                    ),
                    ActionView::Create(FileIdView::Col(feeds[i].spec_name(), item.spec_name())),
                    ActionView::Resize(
                        FileIdView::Col(feeds[i].spec_name(), item.spec_name()),
                        (feeds[i].size * item.datatype.spec_size()) as u64,
                    ),
                ],
            ),
        ),
{
    let feed = feeds[i].spec_name();
    let list = FileIdView::ColList(feed);
    let file = FileIdView::Col(feed, item.spec_name());
    let n = cols[i].len();
    let a = ActionView::Write(list, (n * 272) as u64, item.spec_encode());
    let b = ActionView::Create(file);
    let c = ActionView::Resize(file, (feeds[i].size * item.datatype.spec_size()) as u64);
    lemma_run_three(disk, a, b, c);
    let d1 = step(disk, a);
    let d2 = step(d1, b);
    let d3 = step(d2, c);
    let after = cols.update(i, cols[i].push(item));
    lemma_stored_push(cols[i], item);
    assert(n * 272 <= (n + 1) * 272);
    assert(catalogs_agree(feeds, after, d3)) by {
        assert forall|f: int| 0 <= f < feeds.len() implies #[trigger] col_list_agrees(
            feeds,
            after,
            d3,
            f,
        ) by {
            assert(col_list_agrees(feeds, cols, disk, f));
            if f != i {
                assert(keys_of(feeds)[f] != keys_of(feeds)[i]);
            }
        }
    }
    assert(sizes_agree(feeds, after, d3)) by {
        assert forall|f: int, j: int|
            0 <= f < feeds.len() && 0 <= j < after[f].len() implies #[trigger] col_file_agrees(
            feeds,
            after,
            d3,
            f,
            j,
        ) by {
            if f == i && j == n {
            } else {
                assert(col_file_agrees(feeds, cols, disk, f, j));
                if f != i {
                    assert(keys_of(feeds)[f] != keys_of(feeds)[i]);
                } else {
                    assert(cols[i][j].spec_name() != item.spec_name());
                }
            }
        }
    }
}

/// A new name of a column keeps a directory in agreement: its record is
/// overwritten in place and its file is given the new name.
pub proof fn lemma_col_rename_agrees(
    feeds: Seq<FeedItem>,
    cols: Seq<Seq<ColItem>>,
    i: int,
    ix: int,
    item: ColItem,
    disk: DiskView,
)
    requires
        distinct(feeds, cols),
        0 <= i < feeds.len(),
        0 <= ix < cols[i].len(),
        item.datatype == cols[i][ix].datatype,
        forall|j: int| 0 <= j < cols[i].len() && j != ix ==> (#[trigger] cols[i][j]).spec_name()
            != item.spec_name(),
        cols[i].len() * 272 <= u64::MAX,
        agrees(feeds, cols, disk),
    ensures
        agrees(
            feeds,
            cols.update(i, cols[i].update(ix, item)),
            run(
                disk,
                seq![
                    ActionView::Write(
                        FileIdView::ColList(feeds[i].spec_name()),
                        (ix * 272) as u64,
                        item.spec_encode(),
                    ),
                    ActionView::Rename(
                        FileIdView::Col(feeds[i].spec_name(), cols[i][ix].spec_name()),
                        FileIdView::Col(feeds[i].spec_name(), item.spec_name()),
                    ),
                ],
            ),
        ),
{
    let feed = feeds[i].spec_name();
    let list = FileIdView::ColList(feed);
    let from = FileIdView::Col(feed, cols[i][ix].spec_name());
    let to = FileIdView::Col(feed, item.spec_name());
    let a = ActionView::Write(list, (ix * 272) as u64, item.spec_encode());
    let b = ActionView::Rename(from, to);
    lemma_run_two(disk, a, b);
    let d1 = step(disk, a);
    let d2 = step(d1, b);
    let after = cols.update(i, cols[i].update(ix, item));
    lemma_stored_update(cols[i], ix, item);
    assert(ix * 272 <= cols[i].len() * 272);
    assert(col_file_agrees(feeds, cols, disk, i, ix));
    assert(catalogs_agree(feeds, after, d2)) by {
        assert forall|f: int| 0 <= f < feeds.len() implies #[trigger] col_list_agrees(
            feeds,
            after,
            d2,
            f,
        ) by {
            assert(col_list_agrees(feeds, cols, disk, f));
            if f != i {
                assert(keys_of(feeds)[f] != keys_of(feeds)[i]);
            }
        }
    }
    assert(sizes_agree(feeds, after, d2)) by {
        assert forall|f: int, j: int|
            0 <= f < feeds.len() && 0 <= j < after[f].len() implies #[trigger] col_file_agrees(
            feeds,
            after,
            d2,
            f,
            j,
        ) by {
            assert(col_file_agrees(feeds, cols, disk, f, j));
            if f != i {
                assert(keys_of(feeds)[f] != keys_of(feeds)[i]);
            } else if j != ix {
                assert(cols[i][j].spec_name() != item.spec_name());
                assert(keys_of(cols[i])[j] != keys_of(cols[i])[ix]);
            }
        }
    }
}

/// The plan that takes a record out of a file of records leaves the stored
/// form of the records that are left, and each other file as it was.
pub proof fn lemma_run_remove_plan<T: Pod>(
    disk: DiskView,
    file: FileIdView,
    recs: Seq<T>,
    ix: int,
)
    requires
        0 <= ix < recs.len(),
        recs.len() * T::spec_width() <= u64::MAX,
        content(disk, file) == spec_to_bytes_many(recs),
    ensures
        content(
            run(disk, remove_plan(file, T::spec_width(), ix, recs.len() - 1,
                recs.last().spec_encode())),
            file,
        ) == spec_to_bytes_many(recs.update(ix, recs.last()).drop_last()),
        forall|other: FileIdView|
            other != file ==> #[trigger] same_file(
                run(
                    disk,
                    remove_plan(file, T::spec_width(), ix, recs.len() - 1,
                        recs.last().spec_encode()),
                ),
                disk,
                other,
            ),
{
    let w = T::spec_width();
    let last = recs.len() - 1;
    let cut = ActionView::Resize(file, (last * w) as u64);
    let put = ActionView::Write(file, (ix * w) as u64, recs.last().spec_encode());
    assert(0 <= ix * w <= last * w <= recs.len() * w) by (nonlinear_arith)
        requires
            0 <= ix <= last,
            last == recs.len() - 1,
            w >= 0,
    ;
    lemma_stored_update(recs, ix, recs.last());
    lemma_stored_drop_last(recs.update(ix, recs.last()));
    if ix == last {
        assert(recs.update(ix, recs.last()) =~= recs);
        lemma_run_one(disk, cut);
    } else {
        lemma_run_two(disk, put, cut);
    }
}

/// The removal of a column keeps a directory in agreement.
pub proof fn lemma_col_remove_agrees(
    feeds: Seq<FeedItem>,
    cols: Seq<Seq<ColItem>>,
    i: int,
    ix: int,
    disk: DiskView,
)
    requires
        distinct(feeds, cols),
        0 <= i < feeds.len(),
        0 <= ix < cols[i].len(),
        cols[i].len() * 272 <= u64::MAX,
        agrees(feeds, cols, disk),
    ensures
        agrees(
            feeds,
            cols.update(i, cols[i].update(ix, cols[i].last()).drop_last()),
            run(
                disk,
                remove_plan(
                    FileIdView::ColList(feeds[i].spec_name()),
                    272,
                    ix,
                    cols[i].len() - 1,
                    cols[i].last().spec_encode(),
                ) + seq![
                    ActionView::Remove(
                        FileIdView::Col(feeds[i].spec_name(), cols[i][ix].spec_name()),
                    ),
                ],
            ),
        ),
{
    let feed = feeds[i].spec_name();
    let list = FileIdView::ColList(feed);
    let gone = FileIdView::Col(feed, cols[i][ix].spec_name());
    let last = cols[i].len() - 1;
    let first = remove_plan(list, 272, ix, last, cols[i].last().spec_encode());
    let remove = ActionView::Remove(gone);
    assert(col_list_agrees(feeds, cols, disk, i));
    lemma_run_remove_plan::<ColItem>(disk, list, cols[i], ix);
    lemma_run_concat(disk, first, seq![remove]);
    let d1 = run(disk, first);
    lemma_run_one(d1, remove);
    let d2 = step(d1, remove);
    let left = cols[i].update(ix, cols[i].last()).drop_last();
    let after = cols.update(i, left);
    assert(catalogs_agree(feeds, after, d2)) by {
        assert(same_file(d1, disk, FileIdView::FeedList));
        assert forall|f: int| 0 <= f < feeds.len() implies #[trigger] col_list_agrees(
            feeds,
            after,
            d2,
            f,
        ) by {
            assert(col_list_agrees(feeds, cols, disk, f));
            if f != i {
                assert(keys_of(feeds)[f] != keys_of(feeds)[i]);
                assert(same_file(d1, disk, FileIdView::ColList(feeds[f].spec_name())));
            }
        }
    }
    assert(sizes_agree(feeds, after, d2)) by {
        assert forall|f: int, j: int|
            0 <= f < feeds.len() && 0 <= j < after[f].len() implies #[trigger] col_file_agrees(
            feeds,
            after,
            d2,
            f,
            j,
        ) by {
            if f != i {
                assert(col_file_agrees(feeds, cols, disk, f, j));
                assert(keys_of(feeds)[f] != keys_of(feeds)[i]);
                assert(same_file(
                    d1,
                    disk,
                    FileIdView::Col(feeds[f].spec_name(), cols[f][j].spec_name()),
                ));
            } else {
                let was = if j == ix {
                    last
                } else {
                    j
                };
                assert(left[j] == cols[i][was]);
                assert(col_file_agrees(feeds, cols, disk, i, was));
                assert(keys_of(cols[i])[was] != keys_of(cols[i])[ix]);
                assert(same_file(
                    d1,
                    disk,
                    FileIdView::Col(feeds[i].spec_name(), cols[i][was].spec_name()),
                ));
            }
        }
    }
}

/// The removal of a feed keeps a directory in agreement.
pub proof fn lemma_feed_remove_agrees(
    feeds: Seq<FeedItem>,
    cols: Seq<Seq<ColItem>>,
    ix: int,
    disk: DiskView,
)
    requires
        distinct(feeds, cols),
        0 <= ix < feeds.len(),
        feeds.len() * 264 <= u64::MAX,
        agrees(feeds, cols, disk),
    ensures
        agrees(
            feeds.update(ix, feeds.last()).drop_last(),
            cols.update(ix, cols.last()).drop_last(),
            run(
                disk,
                remove_plan(
                    FileIdView::FeedList,
                    264,
                    ix,
                    feeds.len() - 1,
                    feeds.last().spec_encode(),
                ) + seq![ActionView::RemoveDir(feeds[ix].spec_name())],
            ),
        ),
{
    let gone = feeds[ix].spec_name();
    let last = feeds.len() - 1;
    let first = remove_plan(FileIdView::FeedList, 264, ix, last, feeds.last().spec_encode());
    let remove = ActionView::RemoveDir(gone);
    lemma_run_remove_plan::<FeedItem>(disk, FileIdView::FeedList, feeds, ix);
    lemma_run_concat(disk, first, seq![remove]);
    let d1 = run(disk, first);
    lemma_run_one(d1, remove);
    let d2 = step(d1, remove);
    let left = feeds.update(ix, feeds.last()).drop_last();
    let after = cols.update(ix, cols.last()).drop_last();
    assert forall|f: int| 0 <= f < left.len() implies {
        let was = if f == ix {
            last
        } else {
            f
        };
        &&& #[trigger] left[f] == feeds[was]
        &&& after[f] == cols[was]
        &&& feeds[was].spec_name() != gone
    } by {
        let was = if f == ix {
            last
        } else {
            f
        };
        assert(keys_of(feeds)[was] != keys_of(feeds)[ix]);
    }
    assert(catalogs_agree(left, after, d2)) by {
        assert forall|f: int| 0 <= f < left.len() implies #[trigger] col_list_agrees(
            left,
            after,
            d2,
            f,
        ) by {
            let was = if f == ix {
                last
            } else {
                f
            };
            assert(left[f] == feeds[was]);
            assert(col_list_agrees(feeds, cols, disk, was));
            assert(same_file(d1, disk, FileIdView::ColList(feeds[was].spec_name())));
        }
    }
    assert(sizes_agree(left, after, d2)) by {
        assert forall|f: int, j: int|
            0 <= f < left.len() && 0 <= j < after[f].len() implies #[trigger] col_file_agrees(
            left,
            after,
            d2,
            f,
            j,
        ) by {
            let was = if f == ix {
                last
            } else {
                f
            };
            assert(left[f] == feeds[was]);
            assert(col_file_agrees(feeds, cols, disk, was, j));
            assert(same_file(
                d1,
                disk,
                FileIdView::Col(feeds[was].spec_name(), cols[was][j].spec_name()),
            ));
        }
    }
}

/// A new name of a feed keeps a directory in agreement: its record is
/// overwritten in place and its directory is given the new name.
pub proof fn lemma_feed_rename_agrees(
    feeds: Seq<FeedItem>,
    cols: Seq<Seq<ColItem>>,
    ix: int,
    item: FeedItem,
    disk: DiskView,
)
    requires
        distinct(feeds, cols),
        0 <= ix < feeds.len(),
        item.size == feeds[ix].size,
        forall|f: int| 0 <= f < feeds.len() && f != ix ==> (#[trigger] feeds[f]).spec_name()
            != item.spec_name(),
        feeds.len() * 264 <= u64::MAX,
        agrees(feeds, cols, disk),
    ensures
        agrees(
            feeds.update(ix, item),
            cols,
            run(
                disk,
                seq![
                    ActionView::Write(FileIdView::FeedList, (ix * 264) as u64, item.spec_encode()),
                    ActionView::RenameDir(feeds[ix].spec_name(), item.spec_name()),
                ],
            ),
        ),
{
    let from = feeds[ix].spec_name();
    let to = item.spec_name();
    let a = ActionView::Write(FileIdView::FeedList, (ix * 264) as u64, item.spec_encode());
    let b = ActionView::RenameDir(from, to);
    lemma_run_two(disk, a, b);
    let d1 = step(disk, a);
    let d2 = step(d1, b);
    let after = feeds.update(ix, item);
    lemma_stored_update(feeds, ix, item);
    assert(ix * 264 <= feeds.len() * 264);
    assert(catalogs_agree(after, cols, d2)) by {
        assert forall|f: int| 0 <= f < after.len() implies #[trigger] col_list_agrees(
            after,
            cols,
            d2,
            f,
        ) by {
            assert(col_list_agrees(feeds, cols, disk, f));
            if f != ix {
                assert(keys_of(feeds)[f] != keys_of(feeds)[ix]);
                assert(feeds[f].spec_name() != item.spec_name());
            }
        }
    }
    assert(sizes_agree(after, cols, d2)) by {
        assert forall|f: int, j: int|
            0 <= f < after.len() && 0 <= j < cols[f].len() implies #[trigger] col_file_agrees(
            after,
            cols,
            d2,
            f,
            j,
        ) by {
            assert(col_file_agrees(feeds, cols, disk, f, j));
            if f != ix {
                assert(keys_of(feeds)[f] != keys_of(feeds)[ix]);
                assert(feeds[f].spec_name() != item.spec_name());
            }
        }
    }
}

/// Whether each action of a plan creates a file unless it is there.
pub open spec fn creates_only(plan: Seq<ActionView>) -> bool {
    forall|k: int| 0 <= k < plan.len() ==> (#[trigger] plan[k]) is Create
}

/// A plan that only creates files leaves each file that was there as it
/// was, and each file with the content that it had.
pub proof fn lemma_run_creates(disk: DiskView, plan: Seq<ActionView>)
    requires
        creates_only(plan),
    ensures
        forall|file: FileIdView| #[trigger]
            content(run(disk, plan), file) == content(disk, file),
        forall|file: FileIdView| #[trigger]
            disk.contains_key(file) ==> run(disk, plan).contains_key(file) && run(disk, plan)[file]
                == disk[file],
        forall|k: int|
            0 <= k < plan.len() ==> run(disk, plan).contains_key((#[trigger] plan[k])->Create_0),
    decreases plan.len(),
{
    if plan.len() > 0 {
        assert(creates_only(plan.drop_last())) by {
            assert forall|k: int| 0 <= k < plan.drop_last().len() implies (
            #[trigger] plan.drop_last()[k]) is Create by {
                assert(plan.drop_last()[k] == plan[k]);
            }
        }
        lemma_run_creates(disk, plan.drop_last());
        assert(plan[plan.len() - 1] is Create);
        let before = run(disk, plan.drop_last());
        assert forall|file: FileIdView| #[trigger]
            content(run(disk, plan), file) == content(disk, file) by {
            assert(content(before, file) == content(disk, file));
        }
        assert forall|k: int| 0 <= k < plan.len() implies run(disk, plan).contains_key(
            (#[trigger] plan[k])->Create_0,
        ) by {
            if k < plan.len() - 1 {
                assert(plan.drop_last()[k] == plan[k]);
                assert(before.contains_key(plan[k]->Create_0));
            }
        }
    }
}

/// A plan that only creates files keeps a directory in agreement.
pub proof fn lemma_creates_agree(
    feeds: Seq<FeedItem>,
    cols: Seq<Seq<ColItem>>,
    plan: Seq<ActionView>,
    disk: DiskView,
)
    requires
        creates_only(plan),
        agrees(feeds, cols, disk),
    ensures
        agrees(feeds, cols, run(disk, plan)),
{
    lemma_run_creates(disk, plan);
    let after = run(disk, plan);
    assert(content(after, FileIdView::FeedList) == content(disk, FileIdView::FeedList));
    assert forall|f: int| 0 <= f < feeds.len() implies #[trigger] col_list_agrees(
        feeds,
        cols,
        after,
        f,
    ) by {
        assert(col_list_agrees(feeds, cols, disk, f));
        let file = FileIdView::ColList(feeds[f].spec_name());
        assert(content(after, file) == content(disk, file));
    }
    assert forall|f: int, j: int|
        0 <= f < feeds.len() && 0 <= j < cols[f].len() implies #[trigger] col_file_agrees(
        feeds,
        cols,
        after,
        f,
        j,
    ) by {
        assert(col_file_agrees(feeds, cols, disk, f, j));
        let file = FileIdView::Col(feeds[f].spec_name(), cols[f][j].spec_name());
        assert(disk.contains_key(file));
    }
}

/// A new feed keeps a directory in agreement, where the directory holds
/// the col list that the feed begins with and a file without content, or
/// no file, for each of its columns.
pub proof fn lemma_feed_add_agrees(
    feeds: Seq<FeedItem>,
    cols: Seq<Seq<ColItem>>,
    item: FeedItem,
    known: Seq<ColItem>,
    disk: DiskView,
)
    requires
        distinct(feeds, cols),
        forall|f: int| 0 <= f < feeds.len() ==> (#[trigger] feeds[f]).spec_name()
            != item.spec_name(),
        (feeds.len() + 1) * 264 <= u64::MAX,
        item.size == 0,
        content(disk, FileIdView::ColList(item.spec_name())) == spec_to_bytes_many(known),
        forall|j: int|
            0 <= j < known.len() ==> content(
                disk,
                FileIdView::Col(item.spec_name(), (#[trigger] known[j]).spec_name()),
            ).len() == 0,
        agrees(feeds, cols, disk),
    ensures
        agrees(
            feeds.push(item),
            cols.push(known),
            run(
                disk,
                seq![
                    ActionView::CreateDir(item.spec_name()),
                    ActionView::Write(
                        FileIdView::FeedList,
                        (feeds.len() * 264) as u64,
                        item.spec_encode(),
                    ),
                ] + feed_open_plan(item.spec_name(), known),
            ),
        ),
{
    let feed = item.spec_name();
    let a = ActionView::CreateDir(feed);
    let b = ActionView::Write(FileIdView::FeedList, (feeds.len() * 264) as u64, item.spec_encode());
    let opens = feed_open_plan(feed, known);
    lemma_run_concat(disk, seq![a, b], opens);
    lemma_run_two(disk, a, b);
    let d2 = step(step(disk, a), b);
    assert(creates_only(opens));
    lemma_run_creates(d2, opens);
    let d3 = run(d2, opens);
    let after = feeds.push(item);
    let after_cols = cols.push(known);
    lemma_stored_push(feeds, item);
    assert(feeds.len() * 264 <= (feeds.len() + 1) * 264);
    assert(content(d3, FileIdView::FeedList) == content(d2, FileIdView::FeedList));
    assert(catalogs_agree(after, after_cols, d3)) by {
        assert forall|f: int| 0 <= f < after.len() implies #[trigger] col_list_agrees(
            after,
            after_cols,
            d3,
            f,
        ) by {
            let file = FileIdView::ColList(after[f].spec_name());
            assert(content(d3, file) == content(d2, file));
            if f < feeds.len() {
                assert(col_list_agrees(feeds, cols, disk, f));
            }
        }
    }
    assert(sizes_agree(after, after_cols, d3)) by {
        assert forall|f: int, j: int|
            0 <= f < after.len() && 0 <= j < after_cols[f].len() implies #[trigger] col_file_agrees(
            after,
            after_cols,
            d3,
            f,
            j,
        ) by {
            let file = FileIdView::Col(after[f].spec_name(), after_cols[f][j].spec_name());
            assert(content(d3, file) == content(d2, file));
            if f < feeds.len() {
                assert(col_file_agrees(feeds, cols, disk, f, j));
                assert(d2.contains_key(file));
            } else {
                assert(opens[j + 1] == ActionView::Create(file));
                assert(d3.contains_key(opens[j + 1]->Create_0));
                assert(content(disk, FileIdView::Col(feed, known[j].spec_name())).len() == 0);
                assert(0 * known[j].datatype.spec_size() == 0) by (nonlinear_arith);
            }
        }
    }
}

} // verus!
