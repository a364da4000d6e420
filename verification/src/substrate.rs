use crate::constants::{nhbd, INP_CHS, NHBD_LEN, N_WEIGHTS, OUT_CHS};
use vstd::prelude::*;

verus! {

/// The embedding of each color in the visible channels: one row per color,
/// one bit per channel.
pub open spec fn embedding_table() -> Seq<Seq<u8>> {
    seq![
        seq![0u8, 0u8, 0u8, 0u8],
        seq![1u8, 0u8, 0u8, 0u8],
        seq![0u8, 1u8, 0u8, 0u8],
        seq![0u8, 0u8, 1u8, 0u8],
        seq![0u8, 0u8, 0u8, 1u8],
        seq![1u8, 0u8, 1u8, 0u8],
        seq![1u8, 0u8, 0u8, 1u8],
        seq![0u8, 1u8, 1u8, 0u8],
        seq![0u8, 1u8, 0u8, 1u8],
        seq![0u8, 0u8, 1u8, 1u8],
    ]
}

/// The bits that `color` writes into the read only visible channels of its cell.
pub fn embedding(color: u8) -> (bits: [u8; 4])
    requires
        color < 10,
    ensures
        bits@ == embedding_table()[color as int],
{
    let bits: [u8; 4] = if color == 0 {
        [0, 0, 0, 0]
    } else if color == 1 {
        [1, 0, 0, 0]
    } else if color == 2 {
        [0, 1, 0, 0]
    } else if color == 3 {
        [0, 0, 1, 0]
    } else if color == 4 {
        [0, 0, 0, 1]
    } else if color == 5 {
        [1, 0, 1, 0]
    } else if color == 6 {
        [1, 0, 0, 1]
    } else if color == 7 {
        [0, 1, 1, 0]
    } else if color == 8 {
        [0, 1, 0, 1]
    } else {
        [0, 0, 1, 1]
    };
    assert(bits@ =~= embedding_table()[color as int]);
    bits
}

/// No two colors share an embedding, so an embedded grid determines its colors.
pub proof fn lemma_embedding_is_injective(a: u8, b: u8)
    requires
        a < 10,
        b < 10,
        embedding_table()[a as int] == embedding_table()[b as int],
    ensures
        a == b,
{
    let t = embedding_table();
    assert(t[a as int][0] == t[b as int][0]);
    assert(t[a as int][1] == t[b as int][1]);
    assert(t[a as int][2] == t[b as int][2]);
    assert(t[a as int][3] == t[b as int][3]);
}

/// The cell that tap `tap` of the neighborhood of column `x`, row `y` reads,
/// as column and row, or `None` where it lies outside the grid.
pub open spec fn neighbor_cell(x: int, y: int, tap: int, width: int, height: int) -> Option<
    (int, int),
> {
    let nx = x + nhbd(tap).0;
    let ny = y + nhbd(tap).1;
    if nx < 0 || nx >= width || ny < 0 || ny >= height {
        None
    } else {
        Some((nx, ny))
    }
}

/// The neighbor that a tap reads; taps that fall outside the grid are skipped.
pub fn neighbor(x: usize, y: usize, tap: usize, width: usize, height: usize) -> (cell: Option<
    (usize, usize),
>)
    requires
        tap < NHBD_LEN,
        x < width,
        y < height,
    ensures
        match cell {
            Some((nx, ny)) => neighbor_cell(
                x as int,
                y as int,
                tap as int,
                width as int,
                height as int,
            ) == Some((nx as int, ny as int)) && nx < width && ny < height,
            None => neighbor_cell(x as int, y as int, tap as int, width as int, height as int)
                is None,
        },
{
    if tap == 0 {
        if y == 0 {
            None
        } else {
            Some((x, y - 1))
        }
    } else if tap == 1 {
        if x == 0 {
            None
        } else {
            Some((x - 1, y))
        }
    } else if tap == 2 {
        Some((x, y))
    } else if tap == 3 {
        if x + 1 >= width {
            None
        } else {
            Some((x + 1, y))
        }
    } else {
        if y + 1 >= height {
            None
        } else {
            Some((x, y + 1))
        }
    }
}

/// Where the weight lies that takes input channel `channel` of tap `tap` to
/// output channel `out`: weights are laid out tap by tap, within a tap
/// channel by channel, within a channel output by output.
pub fn weight_index(tap: usize, channel: usize, out: usize) -> (index: usize)
    requires
        tap < NHBD_LEN,
        channel < INP_CHS,
        out < OUT_CHS,
    ensures
        index == (tap * INP_CHS + channel) * OUT_CHS + out,
        index < N_WEIGHTS,
{
    (tap * INP_CHS + channel) * OUT_CHS + out
}

} // verus!
