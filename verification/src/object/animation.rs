use rand::Rng;
use vstd::prelude::*;

verus! {

/// The frame after `current` in an animation of `total` frames, looping back
/// to the first after the last.
pub fn next_frame(current: u32, total: u32) -> (f: u32)
    requires
        total > 0,
    ensures
        f == (current as int + 1) % (total as int),
        f < total,
{
    ((current as u64 + 1) % (total as u64)) as u32
}

/// The column and row of `frame` in a sprite sheet `columns` frames wide,
/// frames laid out row by row.
pub fn frame_cell(frame: u32, columns: u32) -> (cell: (u32, u32))
    requires
        columns > 0,
    ensures
        cell.0 == frame % columns,
        cell.1 == frame / columns,
        cell.0 < columns,
        cell.1 * columns + cell.0 == frame,
{
    let col = frame % columns;
    let row = frame / columns;
    proof {
        vstd::arithmetic::div_mod::lemma_fundamental_div_mod(frame as int, columns as int);
        assert(row * columns + col == frame) by (nonlinear_arith)
            requires frame == columns * (frame / columns) + frame % columns, row == frame / columns, col == frame % columns;
    }
    (col, row)
}

/// Every frame of a `columns` x `rows` sheet has its cell inside the sheet.
pub proof fn lemma_frame_cell_in_sheet(frame: u32, columns: u32, rows: u32)
    requires
        columns > 0,
        frame < columns * rows,
    ensures
        frame % columns < columns,
        frame / columns < rows,
{
    assert(frame / columns < rows) by (nonlinear_arith)
        requires columns > 0, frame < columns * rows;
}


/// `rand`'s `Rng::gen_range(0..n)` on the thread-local generator: a number
/// drawn at random from `0..n` (rand panics on an empty range, so `n > 0`).
/// Which number comes out is chance; only its range is stated.
#[verifier::external_body]
fn random_below(n: u32) -> (r: u32)
    requires
        n > 0,
    ensures
        r < n,
{
    rand::thread_rng().gen_range(0..n)
}

/// The sheet cell that the first UV rectangle of a freshly placed animated
/// object shows for start frame `frame`: column `frame / rows`, row
/// `frame % rows`.
pub fn start_frame_cell(frame: u32, rows: u32) -> (cell: (u32, u32))
    requires
        rows > 0,
    ensures
        cell == (frame / rows, frame % rows),
{
    (frame / rows, frame % rows)
}

/// A random start frame for an animated object of `total_frames` frames (so
/// that copies of one object do not animate in step), with the sheet cell its
/// first UV rectangle shows.
pub fn random_start_frame(total_frames: u32, rows: u32) -> (r: (u32, (u32, u32)))
    requires
        total_frames > 0,
        rows > 0,
    ensures
        r.0 < total_frames,
        r.1 == (r.0 / rows, r.0 % rows),
{
    let frame = random_below(total_frames);
    (frame, start_frame_cell(frame, rows))
}

} // verus!
