//! The mask RLE encoder: converts a row-major grid of optional mask ids
//! into fixed-size, bit-packed run-length entries appended to a
//! zero-initialized buffer of hard capacity 5 bytes x 52 entries x height.
//! Runs never span row boundaries and a pixel without an id never produces
//! an entry.

use vstd::prelude::*;
use crate::errors::EncodeError;
use crate::fields::{entry_to_bytes, spec_entry_bytes, spec_entry_id, spec_entry_start_x, spec_entry_y, spec_entry_length};

verus! {

pub const BYTES_PER_ENTRY: usize = 5;

pub const AVERAGE_ENTRIES_PER_ROW: usize = 52;

/// One horizontal run of same-id pixels on a single scanline.
pub struct MaskRun {
    pub id: u16,
    pub start_x: int,
    pub y: int,
    pub length: int,
}

/// Whether the run owns column x of its scanline.
pub open spec fn run_covers(r: MaskRun, x: int) -> bool {
    r.start_x <= x < r.start_x + r.length
}

/// The five wire bytes of one run.
pub open spec fn spec_run_bytes(r: MaskRun) -> Seq<u8> {
    spec_entry_bytes(r.id, r.length as u16, r.start_x as u16, r.y as u16)
}

/// The runs of one row, leftmost first: maximal stretches of pixels sharing
/// one id, broken by a differing id or by a pixel without an id.
pub open spec fn row_runs(row: Seq<Option<u16>>, y: int) -> Seq<MaskRun>
    decreases row.len(),
{
    if row.len() == 0 {
        Seq::empty()
    } else {
        let prev = row_runs(row.drop_last(), y);
        match row.last() {
            None => prev,
            Some(id) => {
                if row.len() >= 2 && row[row.len() - 2] == Some(id) {
                    prev.update(
                        prev.len() - 1,
                        (MaskRun {
                            id,
                            start_x: prev.last().start_x,
                            y,
                            length: prev.last().length + 1,
                        }),
                    )
                } else {
                    prev.push((MaskRun { id, start_x: row.len() - 1, y, length: 1 }))
                }
            },
        }
    }
}

/// Row y of a row-major grid.
pub open spec fn spec_grid_row(grid: Seq<Option<u16>>, width: int, y: int) -> Seq<Option<u16>> {
    grid.subrange(y * width, y * width + width)
}

/// All runs of the rows before row y, top row first.
pub open spec fn grid_runs_up_to(grid: Seq<Option<u16>>, width: int, y: int) -> Seq<MaskRun>
    decreases y,
{
    if y <= 0 {
        Seq::empty()
    } else {
        grid_runs_up_to(grid, width, y - 1) + row_runs(spec_grid_row(grid, width, y - 1), y - 1)
    }
}

/// All runs of the grid, in the order the encoder emits them.
pub open spec fn spec_grid_runs(grid: Seq<Option<u16>>, width: int, height: int) -> Seq<MaskRun> {
    grid_runs_up_to(grid, width, height)
}

/// The wire bytes of a sequence of runs, in order.
pub open spec fn spec_runs_bytes(runs: Seq<MaskRun>) -> Seq<u8>
    decreases runs.len(),
{
    if runs.len() == 0 {
        Seq::empty()
    } else {
        spec_runs_bytes(runs.drop_last()) + spec_run_bytes(runs.last())
    }
}

/// n zero bytes.
pub open spec fn spec_zero_block(n: int) -> Seq<u8> {
    Seq::new(n as nat, |i: int| 0u8)
}

/// The whole mask block: the packed entries followed by the zero fill up to
/// the fixed capacity.
pub open spec fn spec_mask_block(grid: Seq<Option<u16>>, width: int, height: int) -> Seq<u8> {
    let runs = spec_grid_runs(grid, width, height);
    spec_runs_bytes(runs) + spec_zero_block(5 * (52 * height - runs.len()))
}

/// Every id the grid holds fits in 10 bits.
pub open spec fn spec_ids_in_range(grid: Seq<Option<u16>>) -> bool {
    forall|i: int|
        0 <= i < grid.len() ==> match #[trigger] grid[i] {
            Some(id) => id < 1024,
            None => true,
        }
}

pub proof fn lemma_runs_bytes_push(runs: Seq<MaskRun>, r: MaskRun)
    ensures
        spec_runs_bytes(runs.push(r)) == spec_runs_bytes(runs) + spec_run_bytes(r),
{
    assert(runs.push(r).drop_last() =~= runs);
    assert(runs.push(r).last() == r);
}

pub proof fn lemma_runs_bytes_len(runs: Seq<MaskRun>)
    ensures
        spec_runs_bytes(runs).len() == 5 * runs.len(),
    decreases runs.len(),
{
    if runs.len() > 0 {
        lemma_runs_bytes_len(runs.drop_last());
    }
}

/// Taking a prefix of a row never increases the number of runs.
pub proof fn lemma_row_runs_count_monotone(row: Seq<Option<u16>>, x: int, y: int)
    requires
        0 <= x <= row.len(),
    ensures
        row_runs(row, y).len() >= row_runs(row.take(x), y).len(),
    decreases row.len() - x,
{
    if x == row.len() {
        assert(row.take(x) =~= row);
    } else {
        lemma_row_runs_count_monotone(row, x + 1, y);
        assert(row.take(x + 1).drop_last() =~= row.take(x));
        assert(row.take(x + 1).last() == row[x]);
    }
}

/// The runs of a full grid contain the runs of every prefix of rows.
pub proof fn lemma_grid_runs_prefix_count(grid: Seq<Option<u16>>, width: int, y: int, height: int)
    requires
        0 <= y < height,
    ensures
        grid_runs_up_to(grid, width, height).len() >= grid_runs_up_to(grid, width, y).len()
            + row_runs(spec_grid_row(grid, width, y), y).len(),
    decreases height,
{
    if y < height - 1 {
        lemma_grid_runs_prefix_count(grid, width, y, height - 1);
    }
}

/// Well-formedness of one run against its row: it stays inside the row,
/// is at least one pixel long, carries the row number, and covers only
/// pixels holding its id.
pub open spec fn spec_run_wf(r: MaskRun, row: Seq<Option<u16>>, y: int) -> bool {
    &&& r.y == y
    &&& 1 <= r.length
    &&& 0 <= r.start_x
    &&& r.start_x + r.length <= row.len()
    &&& forall|x: int| r.start_x <= x < r.start_x + r.length ==> #[trigger] row[x] == Some(r.id)
}

/// Every run of a row is well-formed; when the row ends on an id, its
/// last run reaches the row's end.
pub proof fn lemma_row_runs_wf(row: Seq<Option<u16>>, y: int)
    ensures
        forall|j: int|
            0 <= j < row_runs(row, y).len() ==> spec_run_wf(
                #[trigger] row_runs(row, y)[j],
                row,
                y,
            ),
        row.len() > 0 && row.last() is Some ==> {
            let rs = row_runs(row, y);
            &&& rs.len() > 0
            &&& rs.last().start_x + rs.last().length == row.len()
            &&& row.last() == Some(rs.last().id)
        },
    decreases row.len(),
{
    if row.len() > 0 {
        let prefix = row.drop_last();
        lemma_row_runs_wf(prefix, y);
        let prev = row_runs(prefix, y);
        let rs = row_runs(row, y);
        match row.last() {
            None => {
                assert(rs == prev);
                assert forall|j: int| 0 <= j < rs.len() implies spec_run_wf(rs[j], row, y) by {
                    assert(spec_run_wf(prev[j], prefix, y));
                    let r = rs[j];
                    assert forall|x: int|
                        r.start_x <= x < r.start_x + r.length implies #[trigger] row[x] == Some(
                        r.id,
                    ) by {
                        assert(prefix[x] == Some(r.id));
                    };
                };
            },
            Some(id) => {
                if row.len() >= 2 && row[row.len() - 2] == Some(id) {
                    assert(prefix.last() == Some(id));
                    let last0 = prev.last();
                    assert(spec_run_wf(prev[prev.len() - 1], prefix, y));
                    let last1 = MaskRun {
                        id,
                        start_x: last0.start_x,
                        y,
                        length: last0.length + 1,
                    };
                    assert(rs == prev.update(prev.len() - 1, last1));
                    assert forall|j: int| 0 <= j < rs.len() implies spec_run_wf(rs[j], row, y) by {
                        assert(spec_run_wf(prev[j], prefix, y));
                        let r = rs[j];
                        if j < prev.len() - 1 {
                            assert(r == prev[j]);
                            assert forall|x: int|
                                r.start_x <= x < r.start_x + r.length implies #[trigger] row[x]
                                == Some(r.id) by {
                                assert(prefix[x] == Some(r.id));
                            };
                        } else {
                            assert(r == last1);
                            assert forall|x: int|
                                r.start_x <= x < r.start_x + r.length implies #[trigger] row[x]
                                == Some(r.id) by {
                                if x < row.len() - 1 {
                                    assert(prefix[x] == Some(last0.id));
                                }
                            };
                        }
                    };
                } else {
                    let fresh = MaskRun { id, start_x: row.len() - 1, y, length: 1 };
                    assert(rs == prev.push(fresh));
                    assert(rs[rs.len() - 1] == fresh);
                    assert forall|j: int| 0 <= j < rs.len() implies spec_run_wf(rs[j], row, y) by {
                        let r = rs[j];
                        if j < prev.len() {
                            assert(r == prev[j]);
                            assert(spec_run_wf(prev[j], prefix, y));
                            assert forall|x: int|
                                r.start_x <= x < r.start_x + r.length implies #[trigger] row[x]
                                == Some(r.id) by {
                                assert(prefix[x] == Some(r.id));
                            };
                        } else {
                            assert(r == fresh);
                            assert(row[row.len() - 1] == Some(id));
                        }
                    };
                }
            },
        }
    }
}

/// Every pixel of the row that holds an id is covered by one of its runs.
pub proof fn lemma_row_runs_cover(row: Seq<Option<u16>>, y: int)
    ensures
        forall|x: int|
            #![trigger row[x]]
            0 <= x < row.len() && row[x] is Some ==> exists|j: int|
                0 <= j < row_runs(row, y).len() && run_covers(#[trigger] row_runs(row, y)[j], x),
    decreases row.len(),
{
    if row.len() > 0 {
        let prefix = row.drop_last();
        lemma_row_runs_cover(prefix, y);
        lemma_row_runs_wf(prefix, y);
        let prev = row_runs(prefix, y);
        let rs = row_runs(row, y);
        assert forall|x: int|
            0 <= x < row.len() && #[trigger] row[x] is Some implies exists|j: int|
            0 <= j < rs.len() && run_covers(#[trigger] rs[j], x) by {
            match row.last() {
                None => {
                    assert(x < row.len() - 1);
                    assert(prefix[x] is Some);
                    let j0 = choose|j: int| 0 <= j < prev.len() && run_covers(#[trigger] prev[j], x);
                    assert(run_covers(rs[j0], x));
                },
                Some(id) => {
                    if row.len() >= 2 && row[row.len() - 2] == Some(id) {
                        let last0 = prev.last();
                        assert(prefix.last() is Some);
                        assert(spec_run_wf(prev[prev.len() - 1], prefix, y));
                        if x == row.len() - 1 {
                            assert(run_covers(rs[rs.len() - 1], x));
                        } else {
                            assert(prefix[x] is Some);
                            let j0 = choose|j: int|
                                0 <= j < prev.len() && run_covers(#[trigger] prev[j], x);
                            if j0 == prev.len() - 1 {
                                assert(run_covers(rs[rs.len() - 1], x));
                            } else {
                                assert(rs[j0] == prev[j0]);
                                assert(run_covers(rs[j0], x));
                            }
                        }
                    } else {
                        if x == row.len() - 1 {
                            assert(run_covers(rs[rs.len() - 1], x));
                        } else {
                            assert(prefix[x] is Some);
                            let j0 = choose|j: int|
                                0 <= j < prev.len() && run_covers(#[trigger] prev[j], x);
                            assert(rs[j0] == prev[j0]);
                            assert(run_covers(rs[j0], x));
                        }
                    }
                },
            }
        };
    }
}

/// The id owning column x of row y under these runs, if any run covers it.
pub open spec fn spec_cell_value(runs: Seq<MaskRun>, x: int, y: int) -> Option<u16> {
    if exists|j: int| 0 <= j < runs.len() && runs[j].y == y && run_covers(#[trigger] runs[j], x) {
        Some(
            runs[choose|j: int|
                0 <= j < runs.len() && runs[j].y == y && run_covers(#[trigger] runs[j], x)].id,
        )
    } else {
        None
    }
}

/// The grid a consumer paints back from a sequence of runs.
pub open spec fn spec_rasterized(runs: Seq<MaskRun>, width: int, height: int) -> Seq<Option<u16>> {
    Seq::new((width * height) as nat, |i: int| spec_cell_value(runs, i % width, i / width))
}

/// Runs of the first n rows stay inside the grid: row number below n, run
/// inside the row, and every covered pixel holds the run's id.
pub proof fn lemma_grid_runs_wf(grid: Seq<Option<u16>>, width: int, n: int)
    requires
        width >= 0,
        n >= 0,
        grid.len() >= width * n,
    ensures
        forall|j: int|
            #![trigger grid_runs_up_to(grid, width, n)[j]]
            0 <= j < grid_runs_up_to(grid, width, n).len() ==> {
                let r = grid_runs_up_to(grid, width, n)[j];
                &&& 0 <= r.y < n
                &&& 1 <= r.length
                &&& 0 <= r.start_x
                &&& r.start_x + r.length <= width
                &&& forall|x: int|
                    r.start_x <= x < r.start_x + r.length ==> #[trigger] grid[r.y * width + x]
                        == Some(r.id)
            },
    decreases n,
{
    if n > 0 {
        assert(width * (n - 1) <= width * n && 0 <= (n - 1) * width && (n - 1) * width + width
            <= grid.len()) by (nonlinear_arith)
            requires
                width >= 0,
                n >= 1,
                grid.len() >= width * n,
        ;
        lemma_grid_runs_wf(grid, width, n - 1);
        let row = spec_grid_row(grid, width, n - 1);
        lemma_row_runs_wf(row, n - 1);
        let prev = grid_runs_up_to(grid, width, n - 1);
        let rr = row_runs(row, n - 1);
        let all = grid_runs_up_to(grid, width, n);
        assert(row.len() == width);
        assert forall|j: int| 0 <= j < all.len() implies {
            let r = #[trigger] all[j];
            &&& 0 <= r.y < n
            &&& 1 <= r.length
            &&& 0 <= r.start_x
            &&& r.start_x + r.length <= width
            &&& forall|x: int|
                r.start_x <= x < r.start_x + r.length ==> #[trigger] grid[r.y * width + x] == Some(
                    r.id,
                )
        } by {
            if j < prev.len() {
                assert(all[j] == prev[j]);
            } else {
                let r = all[j];
                assert(r == rr[j - prev.len()]);
                assert(spec_run_wf(rr[j - prev.len()], row, n - 1));
                assert forall|x: int|
                    r.start_x <= x < r.start_x + r.length implies #[trigger] grid[r.y * width + x]
                    == Some(r.id) by {
                    assert(row[x] == Some(r.id));
                    assert(row[x] == grid[(n - 1) * width + x]);
                };
            }
        };
    }
}

/// Every pixel of the first n rows that holds an id is covered by a run of
/// its own row.
pub proof fn lemma_grid_runs_cover(grid: Seq<Option<u16>>, width: int, n: int)
    requires
        width >= 0,
        n >= 0,
        grid.len() >= width * n,
    ensures
        forall|x: int, y: int|
            #![trigger grid[y * width + x]]
            0 <= x < width && 0 <= y < n && grid[y * width + x] is Some ==> exists|j: int|
                0 <= j < grid_runs_up_to(grid, width, n).len() && grid_runs_up_to(
                    grid,
                    width,
                    n,
                )[j].y == y && run_covers(#[trigger] grid_runs_up_to(grid, width, n)[j], x),
    decreases n,
{
    if n > 0 {
        assert(width * (n - 1) <= width * n && 0 <= (n - 1) * width && (n - 1) * width + width
            <= grid.len()) by (nonlinear_arith)
            requires
                width >= 0,
                n >= 1,
                grid.len() >= width * n,
        ;
        lemma_grid_runs_cover(grid, width, n - 1);
        let row = spec_grid_row(grid, width, n - 1);
        lemma_row_runs_cover(row, n - 1);
        lemma_row_runs_wf(row, n - 1);
        let prev = grid_runs_up_to(grid, width, n - 1);
        let rr = row_runs(row, n - 1);
        let all = grid_runs_up_to(grid, width, n);
        assert(row.len() == width);
        assert forall|x: int, y: int|
            0 <= x < width && 0 <= y < n && #[trigger] grid[y * width + x] is Some implies exists|
            j: int,
        | 0 <= j < all.len() && all[j].y == y && run_covers(#[trigger] all[j], x) by {
            if y < n - 1 {
                let j0 = choose|j: int|
                    0 <= j < prev.len() && prev[j].y == y && run_covers(#[trigger] prev[j], x);
                assert(all[j0] == prev[j0]);
                assert(all[j0].y == y && run_covers(all[j0], x));
            } else {
                assert(row[x] == grid[(n - 1) * width + x]);
                assert(row[x] is Some);
                let j0 = choose|j: int| 0 <= j < rr.len() && run_covers(#[trigger] rr[j], x);
                assert(spec_run_wf(rr[j0], row, n - 1));
                assert(all[prev.len() + j0] == rr[j0]);
                assert(all[prev.len() + j0].y == y && run_covers(all[prev.len() + j0], x));
            }
        };
    }
}

/// Re-rasterizing the encoder's runs onto a width x height grid reproduces
/// the original mask-id grid exactly.
pub proof fn lemma_mask_round_trip(grid: Seq<Option<u16>>, width: int, height: int)
    requires
        width >= 0,
        height >= 0,
        grid.len() == width * height,
    ensures
        spec_rasterized(spec_grid_runs(grid, width, height), width, height) == grid,
{
    lemma_grid_runs_wf(grid, width, height);
    lemma_grid_runs_cover(grid, width, height);
    let all = spec_grid_runs(grid, width, height);
    let img = spec_rasterized(all, width, height);
    assert forall|i: int| 0 <= i < grid.len() implies img[i] == grid[i] by {
        assert(width >= 1 && height >= 1) by (nonlinear_arith)
            requires
                width >= 0,
                height >= 0,
                0 <= i < width * height,
        ;
        let x = i % width;
        let y = i / width;
        vstd::arithmetic::div_mod::lemma_fundamental_div_mod(i, width);
        vstd::arithmetic::div_mod::lemma_mod_bound(i, width);
        assert(width * y + x == i);
        assert(0 <= y && y < height && y * width + x == i) by (nonlinear_arith)
            requires
                width * y + x == i,
                0 <= x < width,
                0 <= i < width * height,
        ;
        assert(img[i] == spec_cell_value(all, x, y));
        if grid[i] is Some {
            assert(grid[y * width + x] is Some);
            let jc = choose|j: int|
                0 <= j < all.len() && all[j].y == y && run_covers(#[trigger] all[j], x);
            assert(0 <= jc < all.len() && all[jc].y == y && run_covers(all[jc], x));
            assert(grid[all[jc].y * width + x] == Some(all[jc].id));
            assert(spec_cell_value(all, x, y) == Some(all[jc].id));
        } else {
            assert forall|j: int| 0 <= j < all.len() && all[j].y == y implies !run_covers(
                #[trigger] all[j],
                x,
            ) by {
                if run_covers(all[j], x) {
                    assert(grid[all[j].y * width + x] == Some(all[j].id));
                }
            };
            assert(spec_cell_value(all, x, y) is None);
        }
    };
    assert(img =~= grid);
}

/// The runs a consumer reads back from a stream: every 5-byte group in
/// order, unpacked as id, start x, y and length, keeping those with a
/// nonzero length.
pub open spec fn spec_parsed_runs(bytes: Seq<u8>) -> Seq<MaskRun>
    decreases bytes.len(),
{
    if bytes.len() < 5 {
        Seq::empty()
    } else {
        let entry = bytes.subrange(0, 5);
        let rest = spec_parsed_runs(bytes.skip(5));
        if spec_entry_length(entry) > 0 {
            seq![
                (MaskRun {
                    id: spec_entry_id(entry),
                    start_x: spec_entry_start_x(entry) as int,
                    y: spec_entry_y(entry) as int,
                    length: spec_entry_length(entry) as int,
                }),
            ] + rest
        } else {
            rest
        }
    }
}

proof fn lemma_parsed_zero_block(n: int)
    requires
        n >= 0,
    ensures
        spec_parsed_runs(spec_zero_block(n)) == Seq::<MaskRun>::empty(),
    decreases n,
{
    if n >= 5 {
        let zeros = spec_zero_block(n);
        assert(zeros.subrange(0, 5) =~= seq![0u8, 0u8, 0u8, 0u8, 0u8]);
        assert((((0u8 as u16) >> 6) | ((0u8 as u16) << 2)) == 0) by (bit_vector);
        assert(spec_entry_length(zeros.subrange(0, 5)) == 0);
        assert(zeros.skip(5) =~= spec_zero_block(n - 5));
        lemma_parsed_zero_block(n - 5);
        assert(spec_parsed_runs(zeros) == spec_parsed_runs(zeros.skip(5)));
    } else {
        assert(spec_zero_block(n).len() < 5);
        assert(spec_parsed_runs(spec_zero_block(n)) == Seq::<MaskRun>::empty());
    }
}

proof fn lemma_runs_bytes_first(runs: Seq<MaskRun>)
    requires
        runs.len() > 0,
    ensures
        spec_runs_bytes(runs) == spec_run_bytes(runs.first()) + spec_runs_bytes(runs.drop_first()),
    decreases runs.len(),
{
    if runs.len() == 1 {
        assert(runs.drop_last().len() == 0);
        assert(runs.drop_first().len() == 0);
        assert(spec_runs_bytes(runs.drop_last()) == Seq::<u8>::empty());
        assert(spec_runs_bytes(runs.drop_first()) == Seq::<u8>::empty());
        assert(runs.last() == runs.first());
        assert(spec_runs_bytes(runs) =~= spec_run_bytes(runs.first()) + spec_runs_bytes(
            runs.drop_first(),
        ));
    } else {
        lemma_runs_bytes_first(runs.drop_last());
        assert(runs.drop_last().first() == runs.first());
        assert(runs.drop_last().drop_first() =~= runs.drop_first().drop_last());
        assert(runs.drop_first().last() == runs.last());
        assert(runs.drop_first().len() > 0);
        assert(spec_runs_bytes(runs) == spec_runs_bytes(runs.drop_last()) + spec_run_bytes(
            runs.last(),
        ));
        assert(spec_runs_bytes(runs.drop_first()) == spec_runs_bytes(runs.drop_first().drop_last())
            + spec_run_bytes(runs.drop_first().last()));
        assert(spec_runs_bytes(runs) =~= spec_run_bytes(runs.first()) + spec_runs_bytes(
            runs.drop_first(),
        ));
    }
}

/// Whether every field of every run fits its 10-bit wire field, with a
/// length of at least one pixel.
pub open spec fn spec_runs_encodable(runs: Seq<MaskRun>) -> bool {
    forall|j: int|
        0 <= j < runs.len() ==> {
            let r = #[trigger] runs[j];
            &&& r.id < 1024
            &&& 0 <= r.start_x < 1024
            &&& 1 <= r.length < 1024
            &&& 0 <= r.y < 1024
        }
}

proof fn lemma_parsed_runs_bytes(runs: Seq<MaskRun>, pad: int)
    requires
        pad >= 0,
        spec_runs_encodable(runs),
    ensures
        spec_parsed_runs(spec_runs_bytes(runs) + spec_zero_block(pad)) == runs,
    decreases runs.len(),
{
    if runs.len() == 0 {
        lemma_parsed_zero_block(pad);
        assert(spec_runs_bytes(runs) + spec_zero_block(pad) =~= spec_zero_block(pad));
    } else {
        let r0 = runs.first();
        lemma_runs_bytes_first(runs);
        lemma_runs_bytes_len(runs.drop_first());
        let bytes = spec_runs_bytes(runs) + spec_zero_block(pad);
        assert(bytes.len() >= 5);
        assert(bytes.subrange(0, 5) =~= spec_run_bytes(r0));
        crate::fields::lemma_entry_round_trip(
            r0.id,
            r0.length as u16,
            r0.start_x as u16,
            r0.y as u16,
        );
        assert(spec_entry_length(bytes.subrange(0, 5)) == r0.length as u16);
        assert(spec_entry_length(bytes.subrange(0, 5)) > 0);
        assert(bytes.skip(5) =~= spec_runs_bytes(runs.drop_first()) + spec_zero_block(pad));
        lemma_parsed_runs_bytes(runs.drop_first(), pad);
        assert(spec_parsed_runs(bytes) =~= runs);
    }
}

/// Scanning the whole encoded stream, unpacking each entry's four 10-bit
/// fields and re-rasterizing them onto a width x height grid reproduces
/// the original mask-id grid exactly, whenever the total run count is
/// within the capacity of 52 runs per row.
pub proof fn lemma_stream_round_trip(grid: Seq<Option<u16>>, width: int, height: int)
    requires
        0 <= width < 1024,
        0 <= height < 1024,
        grid.len() == width * height,
        spec_ids_in_range(grid),
        spec_grid_runs(grid, width, height).len() <= 52 * height,
    ensures
        spec_rasterized(spec_parsed_runs(spec_mask_block(grid, width, height)), width, height)
            == grid,
{
    lemma_grid_runs_wf(grid, width, height);
    let runs = spec_grid_runs(grid, width, height);
    assert forall|j: int| 0 <= j < runs.len() implies {
        let r = #[trigger] runs[j];
        &&& r.id < 1024
        &&& 0 <= r.start_x < 1024
        &&& 1 <= r.length < 1024
        &&& 0 <= r.y < 1024
    } by {
        let r = runs[j];
        assert(0 <= r.y * width + r.start_x < grid.len() && r.y * width + r.start_x < grid.len())
            by (nonlinear_arith)
            requires
                0 <= r.y < height,
                0 <= r.start_x,
                r.start_x + r.length <= width,
                1 <= r.length,
                grid.len() == width * height,
        ;
        assert(grid[r.y * width + r.start_x] == Some(r.id));
    };
    lemma_parsed_runs_bytes(runs, 5 * (52 * height - runs.len()));
    lemma_mask_round_trip(grid, width, height);
}

proof fn lemma_uniform_row_runs(row: Seq<Option<u16>>, y: int, id: u16)
    requires
        row.len() >= 1,
        forall|x: int| 0 <= x < row.len() ==> #[trigger] row[x] == Some(id),
    ensures
        row_runs(row, y) =~= seq![
            (MaskRun { id, start_x: 0, y, length: row.len() as int }),
        ],
    decreases row.len(),
{
    if row.len() == 1 {
        assert(row[0] == Some(id));
        assert(row.last() == Some(id));
        assert(row.drop_last().len() == 0);
        assert(row_runs(row.drop_last(), y) == Seq::<MaskRun>::empty());
        assert(row_runs(row, y) == Seq::<MaskRun>::empty().push(
            (MaskRun { id, start_x: 0, y, length: 1 }),
        ));
        assert(row_runs(row, y) =~= seq![(MaskRun { id, start_x: 0, y, length: 1 })]);
    } else {
        lemma_uniform_row_runs(row.drop_last(), y, id);
        assert(row[row.len() - 1] == Some(id));
        assert(row[row.len() - 2] == Some(id));
        let prev = row_runs(row.drop_last(), y);
        assert(prev.len() == 1);
        assert(prev.last() == (MaskRun { id, start_x: 0, y, length: row.len() - 1 }));
        assert(row_runs(row, y) =~= seq![
            (MaskRun { id, start_x: 0, y, length: row.len() as int }),
        ]);
    }
}

proof fn lemma_uniform_grid_runs_up_to(grid: Seq<Option<u16>>, width: int, n: int, id: u16)
    requires
        width >= 1,
        n >= 0,
        grid.len() >= width * n,
        forall|i: int| 0 <= i < grid.len() ==> #[trigger] grid[i] == Some(id),
    ensures
        grid_runs_up_to(grid, width, n).len() == n,
    decreases n,
{
    if n > 0 {
        assert(width * (n - 1) <= width * n && 0 <= (n - 1) * width && (n - 1) * width + width
            <= grid.len()) by (nonlinear_arith)
            requires
                width >= 1,
                n >= 1,
                grid.len() >= width * n,
        ;
        lemma_uniform_grid_runs_up_to(grid, width, n - 1, id);
        let row = spec_grid_row(grid, width, n - 1);
        assert(row.len() == width);
        assert forall|x: int| 0 <= x < row.len() implies #[trigger] row[x] == Some(id) by {
            assert(row[x] == grid[(n - 1) * width + x]);
        };
        lemma_uniform_row_runs(row, n - 1, id);
    }
}

/// A full-grid mask using one id everywhere yields exactly `height` RLE
/// entries: one full-width run per row.
pub proof fn lemma_uniform_grid_run_count(grid: Seq<Option<u16>>, width: int, height: int, id: u16)
    requires
        width >= 1,
        height >= 0,
        grid.len() == width * height,
        forall|i: int| 0 <= i < grid.len() ==> #[trigger] grid[i] == Some(id),
    ensures
        spec_grid_runs(grid, width, height).len() == height,
{
    lemma_uniform_grid_runs_up_to(grid, width, height, id);
}

proof fn lemma_alternating_row_runs(row: Seq<Option<u16>>, y: int)
    requires
        forall|x: int| 0 <= x < row.len() ==> #[trigger] row[x] is Some,
        forall|x: int| 1 <= x < row.len() ==> #[trigger] row[x] != row[x - 1],
    ensures
        row_runs(row, y).len() == row.len(),
    decreases row.len(),
{
    if row.len() > 0 {
        lemma_alternating_row_runs(row.drop_last(), y);
        assert(row[row.len() - 1] is Some);
        if row.len() >= 2 {
            assert(row[row.len() - 1] != row[row.len() - 2]);
        }
    }
}

proof fn lemma_alternating_grid_runs_up_to(grid: Seq<Option<u16>>, width: int, n: int)
    requires
        width >= 0,
        n >= 0,
        grid.len() >= width * n,
        forall|i: int| 0 <= i < grid.len() ==> #[trigger] grid[i] is Some,
        forall|y: int, x: int|
            0 <= y && 1 <= x < width && (y * width + x) < grid.len() ==> #[trigger] grid[y * width
                + x] != grid[y * width + x - 1],
    ensures
        grid_runs_up_to(grid, width, n).len() == width * n,
    decreases n,
{
    if n == 0 {
        assert(width * n == 0) by (nonlinear_arith)
            requires
                n == 0,
        ;
    } else {
        assert(width * (n - 1) <= width * n && 0 <= (n - 1) * width && (n - 1) * width + width
            <= grid.len() && width * (n - 1) + width == width * n) by (nonlinear_arith)
            requires
                width >= 0,
                n >= 1,
                grid.len() >= width * n,
        ;
        lemma_alternating_grid_runs_up_to(grid, width, n - 1);
        let row = spec_grid_row(grid, width, n - 1);
        assert(row.len() == width);
        assert forall|x: int| 0 <= x < row.len() implies #[trigger] row[x] is Some by {
            assert(row[x] == grid[(n - 1) * width + x]);
        };
        assert forall|x: int| 1 <= x < row.len() implies #[trigger] row[x] != row[x - 1] by {
            assert(row[x] == grid[(n - 1) * width + x]);
            assert(row[x - 1] == grid[(n - 1) * width + x - 1]);
            assert(grid[(n - 1) * width + x] != grid[(n - 1) * width + x - 1]);
        };
        lemma_alternating_row_runs(row, n - 1);
    }
}

/// A mask whose pixels all carry ids, each differing from its left
/// neighbour, yields one RLE entry per pixel; when that exceeds the
/// capacity of 52 runs per row, the encoder fails (see `build_mask_map`).
pub proof fn lemma_alternating_grid_run_count(grid: Seq<Option<u16>>, width: int, height: int)
    requires
        width >= 0,
        height >= 0,
        grid.len() == width * height,
        forall|i: int| 0 <= i < grid.len() ==> #[trigger] grid[i] is Some,
        forall|y: int, x: int|
            0 <= y && 1 <= x < width && (y * width + x) < grid.len() ==> #[trigger] grid[y * width
                + x] != grid[y * width + x - 1],
    ensures
        spec_grid_runs(grid, width, height).len() == width * height,
{
    lemma_alternating_grid_runs_up_to(grid, width, height);
}

/// Packs one entry into the stream at `byte_index`, or fails when the entry
/// would not fit, naming the overflow; never truncates silently.
pub fn insert_mask_entry_bytes(
    output: &mut Vec<u8>,
    byte_index: &mut usize,
    id: u16,
    length: usize,
    start_x: usize,
    y: usize,
) -> (r: Result<(), EncodeError>)
    requires
        id < 1024,
        length < 1024,
        start_x < 1024,
        y < 1024,
        *old(byte_index) + 5 <= usize::MAX,
    ensures
        match r {
            Ok(()) => {
                &&& *old(byte_index) + 5 <= old(output)@.len()
                &&& *final(byte_index) == *old(byte_index) + 5
                &&& final(output)@ =~= (old(output)@.take(*old(byte_index) as int)
                    + spec_entry_bytes(id, length as u16, start_x as u16, y as u16)
                    + old(output)@.skip(*old(byte_index) as int + 5))
                &&& final(output)@.len() == old(output)@.len()
            },
            Err(e) => {
                &&& *old(byte_index) + 5 > old(output)@.len()
                &&& final(output)@ == old(output)@
                &&& *final(byte_index) == *old(byte_index)
                &&& e == (EncodeError::MaskCapacityExceeded {
                    attempted: (*old(byte_index) + 5) as usize,
                    capacity: old(output)@.len() as usize,
                })
            },
        },
{
    if *byte_index + BYTES_PER_ENTRY > output.len() {
        return Err(
            EncodeError::MaskCapacityExceeded {
                attempted: *byte_index + BYTES_PER_ENTRY,
                capacity: output.len(),
            },
        );
    }

    let bytes = entry_to_bytes(id, length, start_x, y);
    let base = *byte_index;
    let mut k: usize = 0;
    while k < 5
        invariant
            k <= 5,
            base == *old(byte_index),
            base + 5 <= usize::MAX,
            base + 5 <= output@.len(),
            output@.len() == old(output)@.len(),
            bytes@ == spec_entry_bytes(id, length as u16, start_x as u16, y as u16),
            bytes@.len() == 5,
            forall|i: int| 0 <= i < base ==> output@[i] == old(output)@[i],
            forall|i: int| base <= i < base + k ==> output@[i] == bytes@[i - base],
            forall|i: int| base + k <= i < output@.len() ==> output@[i] == old(output)@[i],
        decreases 5 - k,
    {
        output[base + k] = bytes[k];
        k = k + 1;
    }
    *byte_index = base + 5;
    proof {
        assert(output@ =~= (old(output)@.take(base as int)
            + spec_entry_bytes(id, length as u16, start_x as u16, y as u16)
            + old(output)@.skip(base as int + 5)));
    }
    Ok(())
}

/// Run-length encodes the grid, left to right within each row, into the
/// fixed-capacity zero-initialized stream: exactly the runs of
/// `spec_grid_runs`, in order, followed by zero fill. Fails with a capacity
/// error, naming the overflow, the moment one more entry would not fit.
pub fn build_mask_map(pixels_to_mask_id: &Vec<Option<u16>>, width: usize, height: usize) -> (r:
    Result<Vec<u8>, EncodeError>)
    requires
        width < 1024,
        height < 1024,
        pixels_to_mask_id@.len() == width * height,
        spec_ids_in_range(pixels_to_mask_id@),
    ensures
        match r {
            Ok(out) => {
                &&& spec_grid_runs(pixels_to_mask_id@, width as int, height as int).len() <= 52 * (
                height as int)
                &&& out@ == spec_mask_block(pixels_to_mask_id@, width as int, height as int)
                &&& out@.len() == 5 * (52 * (height as int))
            },
            Err(e) => {
                &&& spec_grid_runs(pixels_to_mask_id@, width as int, height as int).len() > 52 * (
                height as int)
                &&& e == (EncodeError::MaskCapacityExceeded {
                    attempted: ((5 * (52 * (height as int)) + 5) as usize),
                    capacity: ((5 * (52 * (height as int))) as usize),
                })
            },
        },
{
    let entry_capacity: usize = AVERAGE_ENTRIES_PER_ROW * height;
    let total: usize = BYTES_PER_ENTRY * entry_capacity;
    proof {
        assert(total <= 265980);
    }
    let mut output: Vec<u8> = Vec::new();
    let mut fill: usize = 0;
    while fill < total
        invariant
            fill <= total,
            output@.len() == fill,
            forall|i: int| 0 <= i < output@.len() ==> output@[i] == 0,
        decreases total - fill,
    {
        output.push(0);
        fill = fill + 1;
    }

    let mut byte_index: usize = 0;
    let ghost grid = pixels_to_mask_id@;
    let ghost w = width as int;

    let mut y: usize = 0;
    while y < height
        invariant
            y <= height,
            width < 1024,
            height < 1024,
            grid == pixels_to_mask_id@,
            w == width as int,
            grid.len() == width * height,
            spec_ids_in_range(grid),
            total == 5 * (52 * (height as int)),
            total <= 265980,
            output@.len() == total,
            byte_index == 5 * grid_runs_up_to(grid, w, y as int).len(),
            byte_index <= total,
            output@.take(byte_index as int) == spec_runs_bytes(grid_runs_up_to(grid, w, y as int)),
            forall|i: int| byte_index <= i < output@.len() ==> output@[i] == 0,
        decreases height - y,
    {
        proof {
            assert((y as int) * w + w <= grid.len() && (y as int) * w >= 0) by (nonlinear_arith)
                requires
                    grid.len() == w * (height as int),
                    0 <= (y as int) < (height as int),
                    w >= 0,
            ;
        }
        let ghost row = spec_grid_row(grid, w, y as int);
        let ghost prev_runs = grid_runs_up_to(grid, w, y as int);
        let ghost mut written = Seq::<MaskRun>::empty();

        let mut current_id: Option<u16> = None;
        let mut start_x: usize = 0;
        let mut length: usize = 0;

        let mut x: usize = 0;
        while x < width
            invariant
                x <= width,
                y < height,
                width < 1024,
                height < 1024,
                grid == pixels_to_mask_id@,
                w == width as int,
                grid.len() == width * height,
                spec_ids_in_range(grid),
                total == 5 * (52 * (height as int)),
                total <= 265980,
                output@.len() == total,
                row == spec_grid_row(grid, w, y as int),
                row.len() == w,
                (y as int) * w + w <= grid.len(),
                (y as int) * w >= 0,
                prev_runs == grid_runs_up_to(grid, w, y as int),
                byte_index == 5 * (prev_runs.len() + written.len()),
                byte_index <= total,
                output@.take(byte_index as int) == spec_runs_bytes(prev_runs + written),
                forall|i: int| byte_index <= i < output@.len() ==> output@[i] == 0,
                match current_id {
                    None => written == row_runs(row.take(x as int), y as int) && (x == 0 || row[x
                        as int - 1] is None),
                    Some(cid) => {
                        &&& cid < 1024
                        &&& row_runs(row.take(x as int), y as int) == written.push(
                            (MaskRun {
                                id: cid,
                                start_x: start_x as int,
                                y: y as int,
                                length: length as int,
                            }),
                        )
                        &&& start_x + length == x
                        &&& 1 <= length
                        &&& start_x < width
                        &&& 1 <= x
                        &&& row[x as int - 1] == Some(cid)
                    },
                },
            decreases width - x,
        {
            proof {
                assert((y as int) * w + (x as int) < grid.len() && (y as int) * w <= 1023 * 1023)
                    by (nonlinear_arith)
                    requires
                        grid.len() == w * (height as int),
                        0 <= (y as int) < (height as int),
                        0 <= (x as int) < w,
                        (y as int) < 1024,
                        w < 1024,
                ;
                assert(row[x as int] == grid[(y as int) * w + (x as int)]);
                assert(row.take(x as int + 1).drop_last() =~= row.take(x as int));
                assert(row.take(x as int + 1).last() == row[x as int]);
            }
            let pixel = pixels_to_mask_id[y * width + x];
            match pixel {
                Some(id) => {
                    match current_id {
                        Some(stored_id) => {
                            if stored_id == id {
                                // The run goes on.
                                proof {
                                    let run = MaskRun {
                                        id: stored_id,
                                        start_x: start_x as int,
                                        y: y as int,
                                        length: length as int,
                                    };
                                    let run2 = MaskRun {
                                        id: stored_id,
                                        start_x: start_x as int,
                                        y: y as int,
                                        length: length as int + 1,
                                    };
                                    assert(written.push(run).update(
                                        written.len() as int,
                                        run2,
                                    ) =~= written.push(run2));
                                    assert(row_runs(row.take(x as int + 1), y as int)
                                        == written.push(run2));
                                }
                                length = length + 1;
                            } else {
                                // A new segment: flush the old one, start anew.
                                let ghost run = MaskRun {
                                    id: stored_id,
                                    start_x: start_x as int,
                                    y: y as int,
                                    length: length as int,
                                };
                                match insert_mask_entry_bytes(
                                    &mut output,
                                    &mut byte_index,
                                    stored_id,
                                    length,
                                    start_x,
                                    y,
                                ) {
                                    Ok(()) => {},
                                    Err(e) => {
                                        proof {
                                            lemma_row_runs_count_monotone(row, x as int, y as int);
                                            lemma_grid_runs_prefix_count(
                                                grid,
                                                w,
                                                y as int,
                                                height as int,
                                            );
                                        }
                                        return Err(e);
                                    },
                                }
                                proof {
                                    lemma_runs_bytes_push(prev_runs + written, run);
                                    assert((prev_runs + written).push(run) =~= prev_runs
                                        + written.push(run));
                                    written = written.push(run);
                                    assert(output@.take(byte_index as int) =~= spec_runs_bytes(
                                        prev_runs + written,
                                    ));
                                }
                                current_id = Some(id);
                                start_x = x;
                                length = 1;
                            }
                        },
                        None => {
                            // Begin a run.
                            current_id = Some(id);
                            start_x = x;
                            length = 1;
                        },
                    }
                },
                None => {
                    // No id: close any open run; the pixel itself emits nothing.
                    match current_id {
                        Some(stored_id) => {
                            let ghost run = MaskRun {
                                id: stored_id,
                                start_x: start_x as int,
                                y: y as int,
                                length: length as int,
                            };
                            match insert_mask_entry_bytes(
                                &mut output,
                                &mut byte_index,
                                stored_id,
                                length,
                                start_x,
                                y,
                            ) {
                                Ok(()) => {},
                                Err(e) => {
                                    proof {
                                        lemma_row_runs_count_monotone(row, x as int, y as int);
                                        lemma_grid_runs_prefix_count(
                                            grid,
                                            w,
                                            y as int,
                                            height as int,
                                        );
                                    }
                                    return Err(e);
                                },
                            }
                            proof {
                                lemma_runs_bytes_push(prev_runs + written, run);
                                assert((prev_runs + written).push(run) =~= prev_runs + written.push(
                                    run,
                                ));
                                written = written.push(run);
                                assert(output@.take(byte_index as int) =~= spec_runs_bytes(
                                    prev_runs + written,
                                ));
                            }
                            current_id = None;
                        },
                        None => {},
                    }
                },
            }
            x = x + 1;
        }

        // An open run at the end of the row is force-flushed.
        proof {
            assert(row.take(width as int) =~= row);
        }
        match current_id {
            Some(stored_id) => {
                let ghost run = MaskRun {
                    id: stored_id,
                    start_x: start_x as int,
                    y: y as int,
                    length: length as int,
                };
                match insert_mask_entry_bytes(
                    &mut output,
                    &mut byte_index,
                    stored_id,
                    length,
                    start_x,
                    y,
                ) {
                    Ok(()) => {},
                    Err(e) => {
                        proof {
                            lemma_grid_runs_prefix_count(grid, w, y as int, height as int);
                        }
                        return Err(e);
                    },
                }
                proof {
                    lemma_runs_bytes_push(prev_runs + written, run);
                    assert((prev_runs + written).push(run) =~= prev_runs + written.push(run));
                    written = written.push(run);
                    assert(output@.take(byte_index as int) =~= spec_runs_bytes(
                        prev_runs + written,
                    ));
                }
            },
            None => {},
        }
        proof {
            assert(grid_runs_up_to(grid, w, y as int + 1) == prev_runs + row_runs(
                row,
                y as int,
            ));
            assert(written == row_runs(row, y as int));
        }
        y = y + 1;
    }

    proof {
        let runs = spec_grid_runs(grid, w, height as int);
        lemma_runs_bytes_len(runs);
        assert(output@ =~= spec_mask_block(grid, w, height as int));
    }
    Ok(output)
}

} // verus!
