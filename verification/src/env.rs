use crate::grid::Grid;
use vstd::prelude::*;

verus! {

/// Number of places among the first `upto` at which two rows agree.
pub open spec fn row_matches(a: Seq<u8>, b: Seq<u8>, upto: int) -> int
    decreases upto,
{
    if upto <= 0 {
        0
    } else {
        row_matches(a, b, upto - 1) + (if a[upto - 1] == b[upto - 1] {
            1int
        } else {
            0int
        })
    }
}

/// Number of cells in the first `upto` rows at which two matrices of one shape agree.
pub open spec fn matches(a: Seq<Seq<u8>>, b: Seq<Seq<u8>>, upto: int) -> int
    decreases upto,
{
    if upto <= 0 {
        0
    } else {
        matches(a, b, upto - 1) + row_matches(a[upto - 1], b[upto - 1], a[upto - 1].len() as int)
    }
}

/// Two rows agree at no more places than they have.
pub proof fn lemma_row_matches_bound(a: Seq<u8>, b: Seq<u8>, upto: int)
    requires
        0 <= upto,
    ensures
        0 <= row_matches(a, b, upto) <= upto,
    decreases upto,
{
    if upto > 0 {
        lemma_row_matches_bound(a, b, upto - 1);
    }
}

/// Two matrices of width `w` agree at no more cells than the rows looked at hold.
pub proof fn lemma_matches_bound(a: Seq<Seq<u8>>, b: Seq<Seq<u8>>, upto: int, w: int)
    requires
        0 <= upto <= a.len(),
        forall|y: int| 0 <= y < a.len() ==> #[trigger] a[y].len() == w,
    ensures
        0 <= matches(a, b, upto) <= upto * w,
    decreases upto,
{
    if upto > 0 {
        lemma_matches_bound(a, b, upto - 1, w);
        assert(a[upto - 1].len() == w);
        lemma_row_matches_bound(a[upto - 1], b[upto - 1], w);
        assert((upto - 1) * w + w == upto * w) by (nonlinear_arith);
    } else {
        assert(0 * w == 0);
    }
}

/// Counts the cells at which a prediction agrees with its target.
///
/// `None` where the shapes differ, which counts as no agreement at all.
/// Otherwise the number of agreeing cells and the number of cells: their
/// quotient is the accuracy.
pub fn compute_accuracy(pred_grid: &Grid, target_grid: &Grid) -> (counts: Option<(usize, usize)>)
    requires
        pred_grid.wf(),
        target_grid.wf(),
        pred_grid@.len() * pred_grid@[0].len() <= usize::MAX,
    ensures
        counts is None <==> (pred_grid@.len() != target_grid@.len() || pred_grid@[0].len()
            != target_grid@[0].len()),
        counts is Some ==> counts->Some_0.0 == matches(
            target_grid@,
            pred_grid@,
            pred_grid@.len() as int,
        ) && counts->Some_0.1 == pred_grid@.len() * pred_grid@[0].len() && counts->Some_0.0
            <= counts->Some_0.1 && counts->Some_0.1 > 0,
{
    let height: usize = pred_grid.height();
    let width: usize = pred_grid.width();
    if height != target_grid.height() || width != target_grid.width() {
        return None;
    }
    let ghost p = pred_grid@;
    let ghost t = target_grid@;
    let target_rows = target_grid.data();
    assert(forall|y: int| 0 <= y < t.len() ==> #[trigger] t[y].len() == width);
    let mut correct: usize = 0;
    let mut yi: usize = 0;
    proof {
        assert(height * width > 0) by (nonlinear_arith)
            requires
                height > 0,
                width > 0,
        ;
    }
    while yi < height
        invariant
            yi <= height,
            pred_grid.wf(),
            target_grid.wf(),
            p == pred_grid@,
            t == target_grid@,
            height == p.len(),
            height == t.len(),
            width == p[0].len(),
            width == t[0].len(),
            forall|y: int| 0 <= y < t.len() ==> #[trigger] t[y].len() == width,
            height * width <= usize::MAX,
            correct == matches(t, p, yi as int),
        decreases height - yi,
    {
        let mut xi: usize = 0;
        let ghost row_start = correct;
        proof {
            lemma_matches_bound(t, p, yi as int, width as int);
            assert(yi * width + width <= height * width) by (nonlinear_arith)
                requires
                    yi < height,
                    width >= 0,
            ;
        }
        while xi < width
            invariant
                xi <= width,
                yi < height,
                pred_grid.wf(),
                target_grid.wf(),
                p == pred_grid@,
                t == target_grid@,
                height == p.len(),
                height == t.len(),
                width == p[0].len(),
                width == t[0].len(),
                t[yi as int].len() == width,
                row_start + width <= usize::MAX,
                correct == row_start + row_matches(t[yi as int], p[yi as int], xi as int),
            decreases width - xi,
        {
            let gt_col: u8 = *target_grid.index((yi, xi));
            let pred_col: u8 = *pred_grid.index((yi, xi));
            proof {
                lemma_row_matches_bound(t[yi as int], p[yi as int], xi as int);
            }
            if gt_col == pred_col {
                correct += 1;
            }
            xi += 1;
        }
        yi += 1;
    }
    proof {
        lemma_matches_bound(t, p, height as int, width as int);
    }
    Some((correct, height * width))
}

} // verus!
