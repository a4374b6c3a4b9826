//! Time grids over a timestamp column and the glyph strips drawn from them.

use vstd::prelude::*;
use crate::io::columns::Column;
use crate::io::dataframe::{DataFrame, DataFrameGroupView, Frame, MaterializedDataFrame};
use crate::io::select::as_ints;
use crate::text::string_from_chars;
use crate::io::value::{ColumnValue, Datum, Timestamp, MAX_SECS};

verus! {

/// Some cell holds an instant.
pub open spec fn has_instant(cells: Seq<Datum>) -> bool {
    exists|i: int| 0 <= i < cells.len() && #[trigger] cells[i] is Instant
}

/// `n` is the instant of some cell.
pub open spec fn is_instant_of(cells: Seq<Datum>, n: int) -> bool {
    exists|i: int|
        0 <= i < cells.len() && (#[trigger] cells[i] matches Datum::Instant(t) && t.instant() == n)
}

/// `n` is the earliest instant among the cells.
pub open spec fn is_earliest(cells: Seq<Datum>, n: int) -> bool {
    &&& is_instant_of(cells, n)
    &&& forall|i: int|
        0 <= i < cells.len() ==> (#[trigger] cells[i] matches Datum::Instant(t) ==> n <= t.instant())
}

/// `n` is the latest instant among the cells.
pub open spec fn is_latest(cells: Seq<Datum>, n: int) -> bool {
    &&& is_instant_of(cells, n)
    &&& forall|i: int|
        0 <= i < cells.len() ==> (#[trigger] cells[i] matches Datum::Instant(t) ==> t.instant() <= n)
}

/// The earliest instant among the cells.
pub open spec fn earliest(cells: Seq<Datum>) -> int {
    choose|n: int| is_earliest(cells, n)
}

/// The latest instant among the cells.
pub open spec fn latest(cells: Seq<Datum>) -> int {
    choose|n: int| is_latest(cells, n)
}

/// Grid point `k` of `resolution` points from `lo` to `hi`: `k` whole steps
/// after `lo`, a step being the span divided by `resolution - 1`, rounded
/// down to the nanosecond.
pub open spec fn grid_instant(lo: int, hi: int, resolution: int, k: int) -> int {
    lo + k * ((hi - lo) / (resolution - 1))
}

/// The grid over the instants of a column: nothing where the column holds
/// no instant, else `resolution` equally spaced instants that start at the
/// earliest.
pub open spec fn grid_of(cells: Seq<Datum>, resolution: int) -> Seq<int> {
    if has_instant(cells) {
        Seq::new(
            resolution as nat,
            |k: int| grid_instant(earliest(cells), latest(cells), resolution, k),
        )
    } else {
        Seq::empty()
    }
}

/// The instants of a list of timestamps.
pub open spec fn instants(grid: Seq<Timestamp>) -> Seq<int> {
    Seq::new(grid.len(), |k: int| grid[k].instant())
}

/// The bin of an instant: the last grid point that is not after it, or the
/// first bin where every grid point is after it.
pub open spec fn bin_of(grid: Seq<int>, instant: int) -> int
    decreases grid.len(),
{
    if grid.len() == 0 {
        0
    } else if grid.last() <= instant {
        grid.len() - 1
    } else {
        bin_of(grid.drop_last(), instant)
    }
}

/// The bin of an instant is a position of the grid (or 0), its grid point
/// is not after the instant unless every grid point is, and every later
/// grid point is after the instant.
pub proof fn lemma_bin_of(grid: Seq<int>, instant: int)
    ensures
        0 <= bin_of(grid, instant),
        grid.len() > 0 ==> bin_of(grid, instant) < grid.len(),
        forall|k: int| bin_of(grid, instant) < k < grid.len() ==> instant < #[trigger] grid[k],
        (exists|k: int| 0 <= k < grid.len() && #[trigger] grid[k] <= instant) ==> grid[bin_of(
            grid,
            instant,
        )] <= instant,
        (forall|k: int| 0 <= k < grid.len() ==> instant < #[trigger] grid[k]) ==> bin_of(
            grid,
            instant,
        ) == 0,
    decreases grid.len(),
{
    if grid.len() > 0 && !(grid.last() <= instant) {
        let rest = grid.drop_last();
        lemma_bin_of(rest, instant);
        assert forall|k: int| bin_of(grid, instant) < k < grid.len() implies instant
            < #[trigger] grid[k] by {
            if k < rest.len() {
                assert(rest[k] == grid[k]);
            }
        }
        if exists|k: int| 0 <= k < grid.len() && #[trigger] grid[k] <= instant {
            let k = choose|k: int| 0 <= k < grid.len() && #[trigger] grid[k] <= instant;
            assert(rest[k] <= instant);
        }
        if forall|k: int| 0 <= k < grid.len() ==> instant < #[trigger] grid[k] {
            assert forall|k: int| 0 <= k < rest.len() implies instant < #[trigger] rest[k] by {
                assert(rest[k] == grid[k]);
            }
        }
    }
}

/// The bin of `ts` in `grid`: see [`bin_of`].
pub fn bin_index(grid: &Vec<Timestamp>, ts: &Timestamp) -> (bin: usize)
    ensures
        bin == bin_of(instants(grid@), ts.instant()),
        grid.len() > 0 ==> bin < grid.len(),
        grid.len() == 0 ==> bin == 0,
{
    let mut k: usize = grid.len();
    proof {
        assert(instants(grid@).take(k as int) =~= instants(grid@));
    }
    while k > 0
        invariant
            k <= grid.len(),
            bin_of(instants(grid@), ts.instant()) == bin_of(
                instants(grid@).take(k as int),
                ts.instant(),
            ),
        decreases k,
    {
        let ghost front = instants(grid@).take(k as int);
        assert(front.last() == grid[k - 1].instant());
        if grid[k - 1].le(ts) {
            return k - 1;
        }
        assert(front.drop_last() =~= instants(grid@).take(k - 1));
        k -= 1;
    }
    0
}


/// Every instant among the cells is valid.
pub open spec fn all_valid(cells: Seq<Datum>) -> bool {
    forall|i: int| 0 <= i < cells.len() ==> (#[trigger] cells[i] matches Datum::Instant(t) ==> t.wf())
}

/// The earliest and the latest timestamp of a column, where it holds one.
fn time_span(time_column: &Column) -> (span: Option<(Timestamp, Timestamp)>)
    ensures
        span is Some == has_instant(time_column.values.deep_view()),
        span matches Some((lo, hi)) ==> lo.wf() && hi.wf() && lo.instant() <= hi.instant()
            && lo.instant() == earliest(time_column.values.deep_view()) && hi.instant() == latest(
            time_column.values.deep_view(),
        ) && is_earliest(time_column.values.deep_view(), lo.instant()) && is_latest(
            time_column.values.deep_view(),
            hi.instant(),
        ),
        all_valid(time_column.values.deep_view()),
{
    let ghost cells = time_column.values.deep_view();
    let mut span: Option<(Timestamp, Timestamp)> = None;
    let mut i: usize = 0;
    while i < time_column.values.len()
        invariant
            i <= time_column.values.len(),
            cells == time_column.values.deep_view(),
            span is Some == has_instant(cells.take(i as int)),
            all_valid(cells.take(i as int)),
            span matches Some((lo, hi)) ==> lo.wf() && hi.wf() && is_earliest(
                cells.take(i as int),
                lo.instant(),
            ) && is_latest(cells.take(i as int), hi.instant()),
        decreases time_column.values.len() - i,
    {
        let ghost seen = cells.take(i as int);
        let ghost next = cells.take(i + 1);
        assert(next.drop_last() =~= seen);
        assert(next[i as int] == time_column.values[i as int]@);
        assert forall|j: int| 0 <= j < seen.len() implies seen[j] == #[trigger] next[j] by {}
        match &time_column.values[i] {
            ColumnValue::DateTime(ts) => {
                let ts = *ts;
                let ghost here = ts.instant();
                proof {
                    use_type_invariant(&ts);
                }
                assert(next[i as int] is Instant);
                assert(is_instant_of(next, here));
                span = match span {
                    Some((lo, hi)) => {
                        let ghost low = lo.instant();
                        let ghost high = hi.instant();
                        assert(is_instant_of(next, low)) by {
                            let j = choose|j: int|
                                0 <= j < seen.len() && (#[trigger] seen[j] matches Datum::Instant(t)
                                    && t.instant() == low);
                            assert(next[j] == seen[j]);
                        }
                        assert(is_instant_of(next, high)) by {
                            let j = choose|j: int|
                                0 <= j < seen.len() && (#[trigger] seen[j] matches Datum::Instant(t)
                                    && t.instant() == high);
                            assert(next[j] == seen[j]);
                        }
                        let new_lo = if ts.le(&lo) {
                            ts
                        } else {
                            lo
                        };
                        let new_hi = if hi.le(&ts) {
                            ts
                        } else {
                            hi
                        };
                        assert forall|j: int| 0 <= j < next.len() implies (#[trigger] next[j] matches Datum::Instant(
                            t,
                        ) ==> new_lo.instant() <= t.instant() && t.instant() <= new_hi.instant()) by {
                            if j < i {
                                assert(seen[j] == next[j]);
                            }
                        }
                        Some((new_lo, new_hi))
                    },
                    None => {
                        assert forall|j: int| 0 <= j < next.len() implies (#[trigger] next[j] matches Datum::Instant(
                            t,
                        ) ==> here <= t.instant() && t.instant() <= here) by {
                            if j < i {
                                assert(seen[j] == next[j]);
                                assert(!(seen[j] is Instant));
                            }
                        }
                        Some((ts, ts))
                    },
                };
            },
            _ => {
                assert(!(next[i as int] is Instant));
                assert(has_instant(next) == has_instant(seen)) by {
                    if has_instant(next) {
                        let j = choose|j: int| 0 <= j < next.len() && #[trigger] next[j] is Instant;
                        assert(seen[j] is Instant);
                    }
                    if has_instant(seen) {
                        let j = choose|j: int| 0 <= j < seen.len() && #[trigger] seen[j] is Instant;
                        assert(next[j] is Instant);
                    }
                }
                if let Some((lo, hi)) = span {
                    let ghost low = lo.instant();
                    let ghost high = hi.instant();
                    assert(is_instant_of(next, low)) by {
                        let j = choose|j: int|
                            0 <= j < seen.len() && (#[trigger] seen[j] matches Datum::Instant(t)
                                && t.instant() == low);
                        assert(next[j] == seen[j]);
                    }
                    assert(is_instant_of(next, high)) by {
                        let j = choose|j: int|
                            0 <= j < seen.len() && (#[trigger] seen[j] matches Datum::Instant(t)
                                && t.instant() == high);
                        assert(next[j] == seen[j]);
                    }
                    assert forall|j: int| 0 <= j < next.len() implies (#[trigger] next[j] matches Datum::Instant(
                        t,
                    ) ==> low <= t.instant() && t.instant() <= high) by {
                        if j < i {
                            assert(seen[j] == next[j]);
                        }
                    }
                }
            },
        }
        i += 1;
    }
    assert(cells.take(i as int) =~= cells);
    proof {
        if let Some((lo, hi)) = span {
            assert(is_earliest(cells, lo.instant()));
            assert(is_latest(cells, hi.instant()));
            let e = earliest(cells);
            let l = latest(cells);
            assert(is_earliest(cells, e));
            assert(is_latest(cells, l));
            let je = choose|j: int|
                0 <= j < cells.len() && (#[trigger] cells[j] matches Datum::Instant(t) && t.instant()
                    == e);
            let jl = choose|j: int|
                0 <= j < cells.len() && (#[trigger] cells[j] matches Datum::Instant(t) && t.instant()
                    == l);
            let jlo = choose|j: int|
                0 <= j < cells.len() && (#[trigger] cells[j] matches Datum::Instant(t) && t.instant()
                    == lo.instant());
            let jhi = choose|j: int|
                0 <= j < cells.len() && (#[trigger] cells[j] matches Datum::Instant(t) && t.instant()
                    == hi.instant());
            assert(cells[je] is Instant);
            assert(cells[jl] is Instant);
            assert(cells[jlo] is Instant);
            assert(cells[jhi] is Instant);
        }
    }
    span
}


/// The grid over the timestamps of a column: nothing where it holds none,
/// else `resolution` equally spaced instants from the earliest on, the last
/// of them not after the latest.
pub fn create_timeline_grid(time_column: &Column, resolution: u16) -> (grid: Vec<Timestamp>)
    requires
        resolution >= 2,
    ensures
        instants(grid@) == grid_of(time_column.values.deep_view(), resolution as int),
        has_instant(time_column.values.deep_view()) ==> grid.len() == resolution,
        !has_instant(time_column.values.deep_view()) ==> grid.len() == 0,
        forall|i: int, k: int|
            0 <= i < time_column.values.len() && 0 <= k < grid.len() && earliest(
                time_column.values.deep_view(),
            ) == latest(time_column.values.deep_view()) ==> (
            #[trigger] time_column.values.deep_view()[i] matches Datum::Instant(t) ==> t
                == #[trigger] grid[k]),
{
    let ghost cells = time_column.values.deep_view();
    let mut grid: Vec<Timestamp> = Vec::new();
    match time_span(time_column) {
        None => {
            assert(instants(grid@) =~= grid_of(cells, resolution as int));
        },
        Some((lo, hi)) => {
            let steps: u128 = (resolution - 1) as u128;
            let span: u128 = lo.nanos_until(&hi);
            let delta: u128 = span / steps;
            let ghost low = lo.instant();
            let ghost high = hi.instant();
            assert(delta * steps <= span) by (nonlinear_arith)
                requires
                    delta == span / steps,
                    steps > 0,
                    span >= 0,
            ;
            proof {
                hi.lemma_wf();
            }
            let mut offset: u128 = 0;
            let mut k: u16 = 0;
            while k < resolution
                invariant
                    k <= resolution,
                    resolution >= 2,
                    steps == resolution - 1,
                    low == lo.instant(),
                    high == hi.instant(),
                    span == high - low,
                    delta == span / steps,
                    delta * steps <= span,
                    hi.wf(),
                    high <= MAX_SECS * 1_000_000_000 + 999_999_999,
                    k < resolution ==> offset == k * delta,
                    grid.len() == k,
                    forall|j: int| 0 <= j < k ==> (#[trigger] grid[j]).wf(),
                    forall|j: int|
                        0 <= j < k ==> (#[trigger] grid[j]).instant() == grid_instant(
                            low,
                            high,
                            resolution as int,
                            j,
                        ),
                decreases resolution - k,
            {
                assert(k * delta <= steps * delta) by (nonlinear_arith)
                    requires
                        0 <= k <= steps,
                        delta >= 0,
                ;
                assert(delta * steps == steps * delta) by (nonlinear_arith);
                match lo.checked_add_nanos(offset) {
                    Some(point) => {
                        grid.push(point);
                    },
                    None => {
                        grid = unreached();
                    },
                }
                if k + 1 < resolution {
                    assert((k + 1) * delta == k * delta + delta) by (nonlinear_arith);
                    assert((k + 1) * delta <= steps * delta) by (nonlinear_arith)
                        requires
                            0 <= k + 1 <= steps,
                            delta >= 0,
                    ;
                    offset = offset + delta;
                }
                k += 1;
            }
            assert(instants(grid@) =~= grid_of(cells, resolution as int));
            assert forall|i: int, k: int|
                0 <= i < cells.len() && 0 <= k < grid.len() && earliest(cells) == latest(
                    cells,
                ) implies (#[trigger] cells[i] matches Datum::Instant(t) ==> t == #[trigger] grid[k]) by {
                if let Datum::Instant(t) = cells[i] {
                    assert(is_earliest(cells, low));
                    assert(is_latest(cells, high));
                    assert(0int / (resolution - 1) as int == 0) by (nonlinear_arith)
                        requires
                            resolution >= 2,
                    ;
                    assert(k * 0 == 0) by (nonlinear_arith);
                    assert(grid[k].instant() == low);
                    Timestamp::lemma_instant(t, grid[k]);
                }
            }
        },
    }
    grid
}

/// Over a column whose instants are all the same, every grid point is that
/// instant.
pub proof fn lemma_grid_constant(cells: Seq<Datum>, resolution: int)
    requires
        resolution >= 2,
        has_instant(cells),
        earliest(cells) == latest(cells),
    ensures
        grid_of(cells, resolution).len() == resolution,
        forall|k: int|
            0 <= k < resolution ==> #[trigger] grid_of(cells, resolution)[k] == earliest(cells),
{
    assert(0int / (resolution - 1) == 0) by (nonlinear_arith)
        requires
            resolution >= 2,
    ;
    assert forall|k: int| 0 <= k < resolution implies #[trigger] grid_of(cells, resolution)[k]
        == earliest(cells) by {
        assert(k * 0 == 0) by (nonlinear_arith);
    }
}


/// Some row of `members` holds, in `cells`, an instant whose bin is `slot`.
pub open spec fn occupied(cells: Seq<Datum>, members: Seq<int>, grid: Seq<int>, slot: int) -> bool {
    exists|m: int|
        0 <= m < members.len() && (cells[#[trigger] members[m]] matches Datum::Instant(t)
            && bin_of(grid, t.instant()) == slot)
}

/// The fill level of the run of `sub` slots from `base` on: one more than
/// the position in the run of its last occupied slot, 0 where none is
/// occupied.
pub open spec fn fill_level(
    cells: Seq<Datum>,
    members: Seq<int>,
    grid: Seq<int>,
    base: int,
    sub: nat,
) -> nat
    decreases sub,
{
    if sub == 0 {
        0
    } else if occupied(cells, members, grid, base + sub - 1) {
        sub
    } else {
        fill_level(cells, members, grid, base, (sub - 1) as nat)
    }
}

/// The glyph of a fill level: blank, then the left blocks from one eighth
/// to seven eighths, then the full block for every level from eight on.
pub open spec fn glyph(level: nat) -> char {
    if level == 0 {
        ' '
    } else if level == 1 {
        '▏'
    } else if level == 2 {
        '▎'
    } else if level == 3 {
        '▍'
    } else if level == 4 {
        '▌'
    } else if level == 5 {
        '▋'
    } else if level == 6 {
        '▊'
    } else if level == 7 {
        '▉'
    } else {
        '█'
    }
}

/// The fill level of glyph `c`, which stands for the `sub` slots from
/// `c * sub` on.
pub open spec fn glyph_level(cells: Seq<Datum>, members: Seq<int>, grid: Seq<int>, c: int, sub: nat) -> nat {
    fill_level(cells, members, grid, c * sub, sub)
}

/// The timeline of a group: `width` glyphs, each for a run of `sub` slots.
pub open spec fn timeline_text(
    cells: Seq<Datum>,
    members: Seq<int>,
    grid: Seq<int>,
    width: nat,
    sub: nat,
) -> Seq<char> {
    Seq::new(width, |c: int| glyph(glyph_level(cells, members, grid, c, sub)))
}

/// The plain timeline of a group: `width` slots, a full block where the
/// slot is occupied and a blank where it is not.
pub open spec fn block_text(cells: Seq<Datum>, members: Seq<int>, grid: Seq<int>, width: nat) -> Seq<
    char,
> {
    Seq::new(
        width,
        |c: int|
            if occupied(cells, members, grid, c) {
                '█'
            } else {
                ' '
            },
    )
}

/// No slot is occupied where the rows hold no instant.
pub proof fn lemma_unoccupied(cells: Seq<Datum>, members: Seq<int>, grid: Seq<int>, slot: int)
    requires
        forall|m: int| 0 <= m < members.len() ==> !(cells[#[trigger] members[m]] is Instant),
    ensures
        !occupied(cells, members, grid, slot),
{
}

/// A run without an occupied slot has fill level 0.
pub proof fn lemma_fill_level_blank(
    cells: Seq<Datum>,
    members: Seq<int>,
    grid: Seq<int>,
    base: int,
    sub: nat,
)
    requires
        forall|s: int| base <= s < base + sub ==> !occupied(cells, members, grid, s),
    ensures
        fill_level(cells, members, grid, base, sub) == 0,
    decreases sub,
{
    if sub > 0 {
        lemma_fill_level_blank(cells, members, grid, base, (sub - 1) as nat);
    }
}

/// Where the rows of a group hold no instant, both timelines are blank
/// over their whole width.
pub proof fn lemma_timeline_blank(
    cells: Seq<Datum>,
    members: Seq<int>,
    grid: Seq<int>,
    width: nat,
    sub: nat,
)
    requires
        forall|m: int| 0 <= m < members.len() ==> !(cells[#[trigger] members[m]] is Instant),
    ensures
        timeline_text(cells, members, grid, width, sub) == Seq::new(width, |c: int| ' '),
        block_text(cells, members, grid, width) == Seq::new(width, |c: int| ' '),
{
    assert forall|c: int| 0 <= c < width implies #[trigger] glyph_level(cells, members, grid, c, sub)
        == 0 by {
        lemma_fill_level_blank(cells, members, grid, c * sub, sub);
    }
    assert(timeline_text(cells, members, grid, width, sub) =~= Seq::new(width, |c: int| ' '));
    assert(block_text(cells, members, grid, width) =~= Seq::new(width, |c: int| ' '));
}

/// Over a column that holds no instant, both timelines of any of its rows
/// are blank over their whole width.
pub proof fn lemma_timeline_without_instants(
    cells: Seq<Datum>,
    members: Seq<int>,
    grid: Seq<int>,
    width: nat,
    sub: nat,
)
    requires
        !has_instant(cells),
        forall|m: int| 0 <= m < members.len() ==> 0 <= #[trigger] members[m] < cells.len(),
    ensures
        grid_of(cells, (width * sub) as int).len() == 0,
        timeline_text(cells, members, grid, width, sub) == Seq::new(width, |c: int| ' '),
        block_text(cells, members, grid, width) == Seq::new(width, |c: int| ' '),
{
    assert forall|m: int| 0 <= m < members.len() implies !(cells[#[trigger] members[m]] is Instant) by {
        assert(!(cells[members[m]] is Instant));
    }
    lemma_timeline_blank(cells, members, grid, width, sub);
}

/// Which of `count` slots the rows `members` of a column occupy.
fn mark_slots(time_column: &Column, members: &Vec<usize>, grid: &Vec<Timestamp>, count: usize) -> (slots:
    Vec<bool>)
    requires
        forall|m: int| 0 <= m < members.len() ==> (#[trigger] members[m]) < time_column.values.len(),
    ensures
        slots.len() == count,
        forall|s: int|
            0 <= s < count ==> #[trigger] slots[s] == occupied(
                time_column.values.deep_view(),
                as_ints(members@),
                instants(grid@),
                s,
            ),
{
    let ghost cells = time_column.values.deep_view();
    let ghost rows = as_ints(members@);
    let ghost points = instants(grid@);
    let mut slots: Vec<bool> = Vec::new();
    let mut s: usize = 0;
    while s < count
        invariant
            s <= count,
            slots.len() == s,
            forall|j: int| 0 <= j < s ==> !#[trigger] slots[j],
        decreases count - s,
    {
        slots.push(false);
        s += 1;
    }
    let mut m: usize = 0;
    while m < members.len()
        invariant
            m <= members.len(),
            cells == time_column.values.deep_view(),
            rows == as_ints(members@),
            points == instants(grid@),
            forall|m: int|
                0 <= m < members.len() ==> (#[trigger] members[m]) < time_column.values.len(),
            slots.len() == count,
            forall|j: int|
                0 <= j < count ==> #[trigger] slots[j] == occupied(cells, rows.take(m as int), points, j),
        decreases members.len() - m,
    {
        let ghost seen = rows.take(m as int);
        let ghost next = rows.take(m + 1);
        let ghost before = slots@;
        let row = members[m];
        assert(next[m as int] == row);
        assert(cells[row as int] == time_column.values[row as int]@);
        assert forall|j: int| 0 <= j < seen.len() implies seen[j] == #[trigger] next[j] by {}
        let ghost hit: Option<int> = None;
        match &time_column.values[row] {
            ColumnValue::DateTime(ts) => {
                let bin = bin_index(grid, ts);
                proof {
                    hit = Some(bin as int);
                }
                if bin < count {
                    slots.set(bin, true);
                }
            },
            _ => {},
        }
        assert forall|j: int| 0 <= j < count implies #[trigger] slots[j] == occupied(
            cells,
            next,
            points,
            j,
        ) by {
            if occupied(cells, next, points, j) {
                let w = choose|w: int|
                    0 <= w < next.len() && (cells[#[trigger] next[w]] matches Datum::Instant(t)
                        && bin_of(points, t.instant()) == j);
                if w < m {
                    assert(seen[w] == next[w]);
                    assert(occupied(cells, seen, points, j));
                } else {
                    assert(hit == Some(j));
                }
            }
            if occupied(cells, seen, points, j) {
                let w = choose|w: int|
                    0 <= w < seen.len() && (cells[#[trigger] seen[w]] matches Datum::Instant(t)
                        && bin_of(points, t.instant()) == j);
                assert(next[w] == seen[w]);
                assert(occupied(cells, next, points, j));
            }
            if hit == Some(j) {
                assert(cells[next[m as int]] is Instant);
                assert(occupied(cells, next, points, j));
            }
        }
        m += 1;
    }
    assert(rows.take(m as int) =~= rows);
    slots
}

/// The glyph of a fill level: see [`glyph`].
pub fn glyph_for(level: usize) -> (c: char)
    ensures
        c == glyph(level as nat),
{
    match level {
        0 => ' ',
        1 => '▏',
        2 => '▎',
        3 => '▍',
        4 => '▌',
        5 => '▋',
        6 => '▊',
        7 => '▉',
        _ => '█',
    }
}

/// The timeline of the rows `members` of a column over a grid: `width_chars`
/// glyphs, each standing for `sub_slots_per_char` slots and showing how far
/// into them the last occupied slot lies.
pub fn render_group_timeline(
    time_column: &Column,
    members: &Vec<usize>,
    grid: &Vec<Timestamp>,
    width_chars: usize,
    sub_slots_per_char: usize,
) -> (text: String)
    requires
        forall|m: int| 0 <= m < members.len() ==> (#[trigger] members[m]) < time_column.values.len(),
        width_chars * sub_slots_per_char <= usize::MAX,
    ensures
        text@ == timeline_text(
            time_column.values.deep_view(),
            as_ints(members@),
            instants(grid@),
            width_chars as nat,
            sub_slots_per_char as nat,
        ),
{
    let ghost cells = time_column.values.deep_view();
    let ghost rows = as_ints(members@);
    let ghost points = instants(grid@);
    let count = width_chars * sub_slots_per_char;
    let slots = mark_slots(time_column, members, grid, count);
    let mut chars: Vec<char> = Vec::new();
    let mut base: usize = 0;
    let mut c: usize = 0;
    while c < width_chars
        invariant
            c <= width_chars,
            count == width_chars * sub_slots_per_char,
            base == c * sub_slots_per_char,
            slots.len() == count,
            forall|s: int| 0 <= s < count ==> #[trigger] slots[s] == occupied(cells, rows, points, s),
            chars.len() == c,
            forall|j: int|
                0 <= j < c ==> #[trigger] chars[j] == glyph(
                    glyph_level(cells, rows, points, j, sub_slots_per_char as nat),
                ),
        decreases width_chars - c,
    {
        assert((c + 1) * sub_slots_per_char <= width_chars * sub_slots_per_char) by (nonlinear_arith)
            requires
                c + 1 <= width_chars,
        ;
        assert((c + 1) * sub_slots_per_char == c * sub_slots_per_char + sub_slots_per_char)
            by (nonlinear_arith);
        let mut level: usize = sub_slots_per_char;
        while level > 0 && !slots[base + level - 1]
            invariant
                level <= sub_slots_per_char,
                base + sub_slots_per_char <= count,
                slots.len() == count,
                forall|s: int|
                    0 <= s < count ==> #[trigger] slots[s] == occupied(cells, rows, points, s),
                fill_level(cells, rows, points, base as int, sub_slots_per_char as nat)
                    == fill_level(cells, rows, points, base as int, level as nat),
            decreases level,
        {
            level -= 1;
        }
        chars.push(glyph_for(level));
        base = base + sub_slots_per_char;
        c += 1;
    }
    let text = string_from_chars(&chars);
    assert(text@ =~= timeline_text(
        cells,
        rows,
        points,
        width_chars as nat,
        sub_slots_per_char as nat,
    ));
    text
}

/// The plain timeline of the rows `members` of a column over a grid:
/// `width` slots, a full block where a row falls into the slot.
pub fn render_group_blocks(
    time_column: &Column,
    members: &Vec<usize>,
    grid: &Vec<Timestamp>,
    width: usize,
) -> (text: String)
    requires
        forall|m: int| 0 <= m < members.len() ==> (#[trigger] members[m]) < time_column.values.len(),
    ensures
        text@ == block_text(
            time_column.values.deep_view(),
            as_ints(members@),
            instants(grid@),
            width as nat,
        ),
{
    let slots = mark_slots(time_column, members, grid, width);
    let mut chars: Vec<char> = Vec::new();
    let mut c: usize = 0;
    while c < width
        invariant
            c <= width,
            slots.len() == width,
            chars.len() == c,
            forall|j: int|
                0 <= j < c ==> #[trigger] chars[j] == (if slots[j] {
                    '█'
                } else {
                    ' '
                }),
        decreases width - c,
    {
        chars.push(
            if slots[c] {
                '█'
            } else {
                ' '
            },
        );
        c += 1;
    }
    let text = string_from_chars(&chars);
    assert(text@ =~= block_text(
        time_column.values.deep_view(),
        as_ints(members@),
        instants(grid@),
        width as nat,
    ));
    text
}


/// Slots that one glyph of a group's timeline stands for.
pub const SLOTS_PER_UNIT: u16 = 8;

/// The timeline of the rows `members` of a frame over its column `column`:
/// empty where the frame has no such column, else `width` glyphs over a
/// grid of `width * sub` points.
pub open spec fn group_timeline(
    frame: Frame,
    members: Seq<int>,
    column: Seq<char>,
    width: nat,
    sub: nat,
) -> Seq<char> {
    if frame.has_column(column) {
        let cells = frame.cells[frame.column_index(column)];
        timeline_text(cells, members, grid_of(cells, (width * sub) as int), width, sub)
    } else {
        Seq::empty()
    }
}

/// The plain timeline of the rows `members` of a frame over its column
/// `column`: empty where the frame has no such column, else `width` slots
/// over a grid of as many points.
pub open spec fn group_blocks(frame: Frame, members: Seq<int>, column: Seq<char>, width: nat) -> Seq<
    char,
> {
    if frame.has_column(column) {
        let cells = frame.cells[frame.column_index(column)];
        block_text(cells, members, grid_of(cells, width as int), width)
    } else {
        Seq::empty()
    }
}

impl<'a> DataFrameGroupView<'a> {
    /// The timeline of group `index` over the column called `time`:
    /// `resolution` glyphs of eight slots each.
    pub fn timeline(&self, index: usize, resolution: u16) -> (text: String)
        requires
            DataFrame::wf(self),
            index < self.groups().len(),
            1 <= resolution,
            resolution * SLOTS_PER_UNIT <= u16::MAX,
        ensures
            text@ == group_timeline(
                self.source()@,
                self.groups()[index as int],
                "time"@,
                resolution as nat,
                SLOTS_PER_UNIT as nat,
            ),
    {
        let time_column = match self.source_frame().column("time") {
            None => {
                return String::new();
            },
            Some(c) => c,
        };
        let slot_count: u16 = resolution * SLOTS_PER_UNIT;
        let grid = create_timeline_grid(time_column, slot_count);
        let members = self.group_indices(index);
        render_group_timeline(
            time_column,
            members,
            &grid,
            resolution as usize,
            SLOTS_PER_UNIT as usize,
        )
    }
}

/// The plain timeline of every group of `df` over the column called
/// `column_name` of its store, `resolution` slots wide; empty strings where
/// the store has no such column.
pub fn create_timeline_column<'a>(
    source_df: &MaterializedDataFrame,
    df: &DataFrameGroupView<'a>,
    column_name: &str,
    resolution: u16,
) -> (texts: Vec<String>)
    requires
        DataFrame::wf(df),
        df.source() == *source_df,
        resolution >= 2,
    ensures
        texts.len() == df.groups().len(),
        forall|g: int|
            0 <= g < texts.len() ==> (#[trigger] texts[g])@ == group_blocks(
                source_df@,
                df.groups()[g],
                column_name@,
                resolution as nat,
            ),
{
    let count = df.len();
    let mut texts: Vec<String> = Vec::new();
    match source_df.column(column_name) {
        None => {
            let mut g: usize = 0;
            while g < count
                invariant
                    g <= count,
                    texts.len() == g,
                    forall|j: int| 0 <= j < g ==> (#[trigger] texts[j])@ == Seq::<char>::empty(),
                decreases count - g,
            {
                texts.push(String::new());
                g += 1;
            }
        },
        Some(time_column) => {
            let grid = create_timeline_grid(time_column, resolution);
            let mut g: usize = 0;
            while g < count
                invariant
                    g <= count,
                    count == df.groups().len(),
                    DataFrame::wf(df),
                    df.source() == *source_df,
                    source_df@.has_column(column_name@),
                    time_column.values.deep_view() == source_df@.cells[source_df@.column_index(
                        column_name@,
                    )],
                    time_column.values.len() == source_df@.height(),
                    instants(grid@) == grid_of(time_column.values.deep_view(), resolution as int),
                    texts.len() == g,
                    forall|j: int|
                        0 <= j < g ==> (#[trigger] texts[j])@ == group_blocks(
                            source_df@,
                            df.groups()[j],
                            column_name@,
                            resolution as nat,
                        ),
                decreases count - g,
            {
                let members = df.group_indices(g);
                texts.push(render_group_blocks(time_column, members, &grid, resolution as usize));
                g += 1;
            }
        },
    }
    texts
}

} // verus!
