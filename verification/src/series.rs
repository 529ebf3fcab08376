//! The stored form of a series of units: the blocks of the units of a
//! column, one after the other.

use vstd::prelude::*;
use vstd::slice::slice_subrange;
use crate::dataset::units_view;
use crate::datatype::{lemma_keeps_round_trip, Datatype, Dataunit, DataunitView};
use crate::error::Error;
use crate::utils::chunk;

verus! {

/// Each step of a sequence, where each step succeeds, and else the first
/// failure.
pub open spec fn try_map<A, B>(items: Seq<A>, f: spec_fn(A) -> Result<B, Error>) -> Result<
    Seq<B>,
    Error,
>
    decreases items.len(),
{
    if items.len() == 0 {
        Ok(Seq::empty())
    } else {
        match try_map(items.drop_last(), f) {
            Err(e) => Err(e),
            Ok(done) => match f(items.last()) {
                Err(e) => Err(e),
                Ok(b) => Ok(done.push(b)),
            },
        }
    }
}

/// A failure among the first steps is the failure of the whole.
pub proof fn lemma_try_map_failure<A, B>(
    items: Seq<A>,
    f: spec_fn(A) -> Result<B, Error>,
    k: int,
)
    requires
        0 <= k <= items.len(),
        try_map(items.take(k), f) is Err,
    ensures
        try_map(items, f) == try_map(items.take(k), f),
    decreases items.len() - k,
{
    if k < items.len() {
        assert(items.drop_last().take(k) =~= items.take(k));
        lemma_try_map_failure(items.drop_last(), f, k);
    } else {
        assert(items.take(k) =~= items);
    }
}

/// The steps that succeeded are as many as the items, and each is the step
/// of its item.
pub proof fn lemma_try_map_ok<A, B>(items: Seq<A>, f: spec_fn(A) -> Result<B, Error>)
    requires
        try_map(items, f) is Ok,
    ensures
        try_map(items, f)->Ok_0.len() == items.len(),
        forall|k: int| 0 <= k < items.len() ==> f(#[trigger] items[k]) == Ok::<B, Error>(
            try_map(items, f)->Ok_0[k],
        ),
    decreases items.len(),
{
    if items.len() > 0 {
        lemma_try_map_ok(items.drop_last(), f);
        assert forall|k: int| 0 <= k < items.len() implies f(#[trigger] items[k]) == Ok::<
            B,
            Error,
        >(try_map(items, f)->Ok_0[k]) by {
            if k < items.len() - 1 {
                assert(items.drop_last()[k] == items[k]);
            }
        }
    }
}

/// Whether a column of a datatype stores each unit of a series.
pub open spec fn storable(datatype: Datatype, units: Seq<DataunitView>) -> bool {
    forall|k: int|
        0 <= k < units.len() ==> datatype.accepts(#[trigger] units[k]) && !datatype.undecodable(
            units[k],
        )
}

/// The stored form of a series of units in a column of a datatype.
pub open spec fn series_bytes(datatype: Datatype, units: Seq<DataunitView>) -> Seq<u8>
    decreases units.len(),
{
    if units.len() == 0 {
        Seq::empty()
    } else {
        series_bytes(datatype, units.drop_last()) + datatype.spec_to_bytes(units.last())->0
    }
}

/// The units that the first `count` blocks of a column of a datatype stand
/// for.
pub open spec fn series_units(datatype: Datatype, block: Seq<u8>, count: nat) -> Seq<
    DataunitView,
> {
    Seq::new(count, |k: int| datatype.spec_from_bytes(chunk(block, datatype.spec_size(), k)))
}

/// Whether the binary form of a datatype has a width of its own.
pub open spec fn fixed(datatype: Datatype) -> bool {
    !(datatype is Blob) && !(datatype is Text)
}

/// The stored form of a series in a column of a fixed width has one block
/// for each unit.
pub proof fn lemma_series_len(datatype: Datatype, units: Seq<DataunitView>)
    requires
        storable(datatype, units),
        fixed(datatype),
    ensures
        series_bytes(datatype, units).len() == units.len() * datatype.spec_size(),
    decreases units.len(),
{
    if units.len() > 0 {
        assert(storable(datatype, units.drop_last())) by {
            assert forall|k: int| 0 <= k < units.drop_last().len() implies datatype.accepts(
                #[trigger] units.drop_last()[k],
            ) && !datatype.undecodable(units.drop_last()[k]) by {
                assert(units.drop_last()[k] == units[k]);
            }
        }
        lemma_series_len(datatype, units.drop_last());
        lemma_unit_len(datatype, units.last());
        assert((units.len() - 1) * datatype.spec_size() + datatype.spec_size() == units.len()
            * datatype.spec_size()) by (nonlinear_arith);
    }
}

/// The stored form of a unit in a column of a fixed width is one block.
pub proof fn lemma_unit_len(datatype: Datatype, unit: DataunitView)
    requires
        datatype.accepts(unit),
        fixed(datatype),
    ensures
        datatype.spec_to_bytes(unit) is Some,
        datatype.spec_to_bytes(unit)->0.len() == datatype.spec_size(),
{
}

/// Whether a column of a datatype keeps each unit of a series: see
/// [`Datatype::keeps`].
pub open spec fn keeps_all(datatype: Datatype, units: Seq<DataunitView>) -> bool {
    forall|k: int| 0 <= k < units.len() ==> datatype.keeps(#[trigger] units[k])
}

/// A series of units that a column keeps is a series that the column
/// stores.
pub proof fn lemma_kept_is_storable(datatype: Datatype, units: Seq<DataunitView>)
    requires
        keeps_all(datatype, units),
    ensures
        storable(datatype, units),
{
    assert forall|k: int| 0 <= k < units.len() implies datatype.accepts(#[trigger] units[k])
        && !datatype.undecodable(units[k]) by {
        lemma_keeps_round_trip(datatype, units[k]);
    }
}

/// The `k`-th block of the stored form of a series in a column of a fixed
/// width is the stored form of the `k`-th unit.
pub proof fn lemma_series_chunk(datatype: Datatype, units: Seq<DataunitView>, k: int)
    requires
        storable(datatype, units),
        fixed(datatype),
        0 <= k < units.len(),
    ensures
        chunk(series_bytes(datatype, units), datatype.spec_size(), k) == datatype.spec_to_bytes(
            units[k],
        )->0,
    decreases units.len(),
{
    let w = datatype.spec_size();
    let front = series_bytes(datatype, units.drop_last());
    let back = datatype.spec_to_bytes(units.last())->0;
    assert(storable(datatype, units.drop_last())) by {
        assert forall|m: int| 0 <= m < units.drop_last().len() implies datatype.accepts(
            #[trigger] units.drop_last()[m],
        ) && !datatype.undecodable(units.drop_last()[m]) by {
            assert(units.drop_last()[m] == units[m]);
        }
    }
    lemma_series_len(datatype, units.drop_last());
    lemma_unit_len(datatype, units.last());
    if k == units.len() - 1 {
        assert(chunk(front + back, w, k) =~= back);
    } else {
        lemma_series_chunk(datatype, units.drop_last(), k);
        assert(k * w + w <= (units.len() - 1) * w) by (nonlinear_arith)
            requires
                0 <= k < units.len() - 1,
                w >= 0,
        ;
        assert(chunk(front + back, w, k) =~= chunk(front, w, k));
    }
}

/// A series of units that a column of a fixed width keeps comes back
/// unchanged when it is written and read.
pub proof fn lemma_series_round_trip(datatype: Datatype, units: Seq<DataunitView>)
    requires
        keeps_all(datatype, units),
        fixed(datatype),
    ensures
        storable(datatype, units),
        series_units(datatype, series_bytes(datatype, units), units.len()) == units,
{
    lemma_kept_is_storable(datatype, units);
    let block = series_bytes(datatype, units);
    assert forall|k: int| 0 <= k < units.len() implies datatype.spec_from_bytes(
        chunk(block, datatype.spec_size(), k),
    ) == units[k] by {
        lemma_series_chunk(datatype, units, k);
        lemma_keeps_round_trip(datatype, units[k]);
    }
    assert(series_units(datatype, block, units.len()) =~= units);
}

/// Convert a series of units into the bytes of a column of a datatype. A
/// series with a unit that the datatype does not store is refused.
pub fn encode_series(datatype: &Datatype, units: &Vec<Dataunit>) -> (res: Result<Vec<u8>, Error>)
    ensures
        res is Ok <==> storable(*datatype, units_view(units@)),
        res is Ok ==> res->Ok_0@ == series_bytes(*datatype, units_view(units@)),
        res is Ok && fixed(*datatype) ==> res->Ok_0@.len() == units@.len()
            * datatype.spec_size(),
        res is Err ==> res->Err_0 == Error::InvalidData,
{
    let ghost all = units_view(units@);
    let mut block: Vec<u8> = Vec::new();
    let mut k: usize = 0;
    while k < units.len()
        invariant
            k <= units@.len(),
            all == units_view(units@),
            storable(*datatype, all.take(k as int)),
            block@ == series_bytes(*datatype, all.take(k as int)),
        decreases units@.len() - k,
    {
        match datatype.try_to_bytes(&units[k]) {
            Ok(mut piece) => {
                block.append(&mut piece);
            },
            Err(e) => {
                assert(all[k as int] == units@[k as int]@);
                return Err(e);
            },
        }
        proof {
            assert(all[k as int] == units@[k as int]@);
            assert(all.take(k + 1).drop_last() =~= all.take(k as int));
            assert(all.take(k + 1).last() == all[k as int]);
            assert forall|m: int| 0 <= m < k + 1 implies datatype.accepts(
                #[trigger] all.take(k + 1)[m],
            ) && !datatype.undecodable(all.take(k + 1)[m]) by {
                if m < k {
                    assert(all.take(k as int)[m] == all.take(k + 1)[m]);
                }
            }
        }
        k = k + 1;
    }
    proof {
        assert(all.take(units@.len() as int) =~= all);
        if fixed(*datatype) {
            lemma_series_len(*datatype, all);
        }
    }
    Ok(block)
}

/// Convert the bytes of whole blocks of a column of a datatype into a
/// series of units. A datatype without a width of its own is refused, and
/// so are bytes that are no whole blocks.
pub fn decode_series(datatype: &Datatype, block: &[u8]) -> (res: Result<Vec<Dataunit>, Error>)
    ensures
        res is Ok <==> datatype.spec_size() > 0 && block@.len() % datatype.spec_size() == 0,
        res is Ok ==> units_view(res->Ok_0@) == series_units(
            *datatype,
            block@,
            block@.len() / datatype.spec_size(),
        ),
        res is Err ==> res->Err_0 == Error::InvalidData,
{
    let width = datatype.size();
    if width == 0 || block.len() % width != 0 {
        return Err(Error::InvalidData);
    }
    let count = block.len() / width;
    let mut units: Vec<Dataunit> = Vec::new();
    let mut k: usize = 0;
    while k < count
        invariant
            width == datatype.spec_size(),
            width > 0,
            count == block@.len() / (width as nat),
            block@.len() <= usize::MAX,
            k <= count,
            units@.len() == k,
            forall|m: int|
                0 <= m < k ==> (#[trigger] units@[m])@ == datatype.spec_from_bytes(
                    chunk(block@, width as nat, m),
                ),
        decreases count - k,
    {
        assert(0 <= k * width && k * width + width <= block@.len()) by (nonlinear_arith)
            requires
                0 <= k < count,
                count == block@.len() / (width as nat),
                width > 0,
        ;
        let piece = slice_subrange(block, k * width, k * width + width);
        units.push(datatype.from_bytes(piece));
        k = k + 1;
    }
    assert(units_view(units@) =~= series_units(*datatype, block@, count as nat));
    Ok(units)
}

} // verus!
