use vstd::prelude::*;

verus! {

/// Number of taps of the von Neumann neighborhood: the cell and its four axis neighbors.
pub const NHBD_LEN: usize = 5;

/// Index of the neighborhood center
pub const NHBD_CENTER: usize = 2;

/// Number of visible channels (RO or RW)
pub const VIS_CHS: usize = 4;

/// Number of hidden channels
pub const HID_CHS: usize = 2;

/// Identity color map
pub const I_COL_MAP: [u8; 10] = [0, 1, 2, 3, 4, 5, 6, 7, 8, 9];

/// Max inference time color permutations
pub const MAX_PERMUTATIONS: usize = 1000;

/// First read only visible channel
pub const RO_CH_START: usize = 0;

/// One past the last read only visible channel
pub const RO_CH_END: usize = 4;

/// First read/write visible channel
pub const RW_CH_START: usize = 4;

/// One past the last read/write visible channel
pub const RW_CH_END: usize = 8;

/// Number of input channels
pub const INP_CHS: usize = 10;

/// First hidden channel
pub const HID_CH_START: usize = 8;

/// One past the last hidden channel
pub const HID_CH_END: usize = 10;

/// Number of output channels: the read/write visible and the hidden ones
pub const OUT_CHS: usize = 6;

/// Input dimensions of NCA
pub const INP_DIM: usize = 50;

/// Number of weights of a rule
pub const N_WEIGHTS: usize = 300;

/// Number of biases of a rule
pub const N_BIASES: usize = 6;

/// Number of parameters of a rule: weights, then biases
pub const N_PARAMS: usize = 306;

/// Largest number of cells of a grid that the batched backend takes.
pub const GPU_MAX_CELLS: usize = 1024;

/// The offset `(dx, dy)` of each tap of the neighborhood, the center in the middle.
pub open spec fn nhbd(tap: int) -> (int, int) {
    if tap == 0 {
        (0, -1)
    } else if tap == 1 {
        (-1, 0)
    } else if tap == 2 {
        (0, 0)
    } else if tap == 3 {
        (1, 0)
    } else {
        (0, 1)
    }
}

/// How the sizes above hang together.
pub proof fn lemma_layout()
    ensures
        NHBD_CENTER == NHBD_LEN / 2,
        RO_CH_END == VIS_CHS,
        RW_CH_START == VIS_CHS,
        RW_CH_END == 2 * VIS_CHS,
        HID_CH_START == 2 * VIS_CHS,
        INP_CHS == 2 * VIS_CHS + HID_CHS,
        HID_CH_END == INP_CHS,
        OUT_CHS == VIS_CHS + HID_CHS,
        INP_DIM == NHBD_LEN * INP_CHS,
        N_WEIGHTS == OUT_CHS * INP_DIM,
        N_BIASES == OUT_CHS,
        N_PARAMS == N_WEIGHTS + N_BIASES,
        nhbd(NHBD_CENTER as int) == (0int, 0int),
{
}

} // verus!
