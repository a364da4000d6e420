use crate::grid::{in_palette, is_matrix, rows_of, Grid};
use vstd::prelude::*;

verus! {

/// Quarter turn clockwise: the first row becomes the last column.
pub open spec fn rotated_cw(m: Seq<Seq<u8>>) -> Seq<Seq<u8>> {
    Seq::new(m[0].len(), |i: int| Seq::new(m.len(), |j: int| m[m.len() - 1 - j][i]))
}

/// Quarter turn counter-clockwise: the first row becomes the first column, read upwards.
pub open spec fn rotated_ccw(m: Seq<Seq<u8>>) -> Seq<Seq<u8>> {
    Seq::new(m[0].len(), |i: int| Seq::new(m.len(), |j: int| m[j][m[0].len() - 1 - i]))
}

/// Half turn.
pub open spec fn rotated_half(m: Seq<Seq<u8>>) -> Seq<Seq<u8>> {
    Seq::new(
        m.len(),
        |i: int| Seq::new(m[0].len(), |j: int| m[m.len() - 1 - i][m[0].len() - 1 - j]),
    )
}

/// Mirror image, left and right exchanged.
pub open spec fn flipped_horizontal(m: Seq<Seq<u8>>) -> Seq<Seq<u8>> {
    Seq::new(m.len(), |i: int| Seq::new(m[0].len(), |j: int| m[i][m[0].len() - 1 - j]))
}

/// Mirror image, top and bottom exchanged.
pub open spec fn flipped_vertical(m: Seq<Seq<u8>>) -> Seq<Seq<u8>> {
    Seq::new(m.len(), |i: int| Seq::new(m[0].len(), |j: int| m[m.len() - 1 - i][j]))
}

/// Reflection across the main diagonal.
pub open spec fn transposed(m: Seq<Seq<u8>>) -> Seq<Seq<u8>> {
    Seq::new(m[0].len(), |i: int| Seq::new(m.len(), |j: int| m[j][i]))
}

/// Reflection across the anti-diagonal.
pub open spec fn anti_transposed(m: Seq<Seq<u8>>) -> Seq<Seq<u8>> {
    Seq::new(
        m[0].len(),
        |i: int| Seq::new(m.len(), |j: int| m[m.len() - 1 - j][m[0].len() - 1 - i]),
    )
}

/// Every cell's color looked up in `table`.
pub open spec fn recolored(m: Seq<Seq<u8>>, table: Seq<u8>) -> Seq<Seq<u8>> {
    Seq::new(m.len(), |i: int| Seq::new(m[0].len(), |j: int| table[m[i][j] as int]))
}

/// The color table that maps each color to itself.
pub open spec fn identity_table() -> Seq<u8> {
    Seq::new(10, |c: int| c as u8)
}

/// The rigid motions of a grid.
#[derive(Clone, Copy)]
enum Motion {
    Cw,
    Ccw,
    Half,
    Horizontal,
    Vertical,
    Main,
    Anti,
}

impl Motion {
    /// Whether the motion exchanges rows and columns.
    spec fn swaps_axes(self) -> bool {
        self is Cw || self is Ccw || self is Main || self is Anti
    }

    /// Where the cell at row `i`, column `j` of the result comes from, in a
    /// source of `h` rows and `w` columns.
    spec fn source(self, h: int, w: int, i: int, j: int) -> (int, int) {
        match self {
            Motion::Cw => (h - 1 - j, i),
            Motion::Ccw => (j, w - 1 - i),
            Motion::Half => (h - 1 - i, w - 1 - j),
            Motion::Horizontal => (i, w - 1 - j),
            Motion::Vertical => (h - 1 - i, j),
            Motion::Main => (j, i),
            Motion::Anti => (h - 1 - j, w - 1 - i),
        }
    }

    spec fn moved(self, m: Seq<Seq<u8>>) -> Seq<Seq<u8>> {
        let h = m.len() as int;
        let w = m[0].len() as int;
        let oh = if self.swaps_axes() { w } else { h };
        let ow = if self.swaps_axes() { h } else { w };
        Seq::new(
            oh as nat,
            |i: int|
                Seq::new(
                    ow as nat,
                    |j: int| m[self.source(h, w, i, j).0][self.source(h, w, i, j).1],
                ),
        )
    }

    fn source_of(self, h: usize, w: usize, i: usize, j: usize) -> (at: (usize, usize))
        requires
            h > 0,
            w > 0,
            self.swaps_axes() ==> i < w && j < h,
            !self.swaps_axes() ==> i < h && j < w,
        ensures
            at.0 == self.source(h as int, w as int, i as int, j as int).0,
            at.1 == self.source(h as int, w as int, i as int, j as int).1,
            at.0 < h,
            at.1 < w,
    {
        match self {
            Motion::Cw => (h - 1 - j, i),
            Motion::Ccw => (j, w - 1 - i),
            Motion::Half => (h - 1 - i, w - 1 - j),
            Motion::Horizontal => (i, w - 1 - j),
            Motion::Vertical => (h - 1 - i, j),
            Motion::Main => (j, i),
            Motion::Anti => (h - 1 - j, w - 1 - i),
        }
    }

    /// Replaces the grid by its image under the motion.
    fn carry(self, grid: &mut Grid)
        requires
            old(grid).wf(),
        ensures
            final(grid).wf(),
            final(grid)@ == self.moved(old(grid)@),
    {
        let h: usize = grid.height();
        let w: usize = grid.width();
        let swaps: bool = match self {
            Motion::Cw | Motion::Ccw | Motion::Main | Motion::Anti => true,
            _ => false,
        };
        let oh: usize = if swaps { w } else { h };
        let ow: usize = if swaps { h } else { w };
        let ghost m = grid@;
        let ghost goal = self.moved(m);
        let mut data: Vec<Vec<u8>> = Vec::new();
        let mut i: usize = 0;
        while i < oh
            invariant
                grid.wf(),
                grid@ == m,
                goal == self.moved(m),
                h == m.len(),
                w == m[0].len(),
                swaps == self.swaps_axes(),
                oh == (if swaps { w } else { h }),
                ow == (if swaps { h } else { w }),
                i <= oh,
                data.len() == i,
                forall|ii: int| 0 <= ii < i ==> (#[trigger] data@[ii])@ == goal[ii],
                forall|ii: int, jj: int|
                    0 <= ii < i && 0 <= jj < ow ==> (#[trigger] data@[ii]@[jj]) < 10,
            decreases oh - i,
        {
            let mut row: Vec<u8> = Vec::new();
            let mut j: usize = 0;
            while j < ow
                invariant
                    grid.wf(),
                    grid@ == m,
                    goal == self.moved(m),
                    h == m.len(),
                    w == m[0].len(),
                    swaps == self.swaps_axes(),
                    oh == (if swaps { w } else { h }),
                    ow == (if swaps { h } else { w }),
                    i < oh,
                    j <= ow,
                    row.len() == j,
                    forall|jj: int| 0 <= jj < j ==> #[trigger] row@[jj] == goal[i as int][jj],
                    forall|jj: int| 0 <= jj < j ==> #[trigger] row@[jj] < 10,
                decreases ow - j,
            {
                let at = self.source_of(h, w, i, j);
                let cell: u8 = *grid.index(at);
                row.push(cell);
                j += 1;
            }
            assert(row@ =~= goal[i as int]);
            data.push(row);
            i += 1;
        }
        proof {
            assert(rows_of(data) =~= goal);
            assert(is_matrix(goal));
            assert forall|y: int, x: int|
                0 <= y < goal.len() && 0 <= x < goal[y].len() implies #[trigger] goal[y][x]
                < 10 by {
                assert(data@[y]@[x] < 10);
            }
        }
        *grid = Grid::from_vec(data);
    }
}

/// Leaves the grid as it is.
#[derive(Clone, Copy, Debug)]
pub struct Identity {}

/// Quarter turn clockwise.
#[derive(Clone, Copy, Debug)]
pub struct Rotate90CW {}

impl Rotate90CW {
    pub fn apply(&self, grid: &mut Grid)
        requires
            old(grid).wf(),
        ensures
            final(grid).wf(),
            final(grid)@ == rotated_cw(old(grid)@),
    {
        let ghost m = grid@;
        Motion::Cw.carry(grid);
        assert(Motion::Cw.moved(m) =~~= rotated_cw(m));
    }

    pub fn revert(&self, grid: &mut Grid)
        requires
            old(grid).wf(),
        ensures
            final(grid).wf(),
            final(grid)@ == rotated_ccw(old(grid)@),
    {
        let ghost m = grid@;
        Motion::Ccw.carry(grid);
        assert(Motion::Ccw.moved(m) =~~= rotated_ccw(m));
    }
}

/// Half turn.
#[derive(Clone, Copy, Debug)]
pub struct Rotate180 {}

impl Rotate180 {
    pub fn apply(&self, grid: &mut Grid)
        requires
            old(grid).wf(),
        ensures
            final(grid).wf(),
            final(grid)@ == rotated_half(old(grid)@),
    {
        let ghost m = grid@;
        Motion::Half.carry(grid);
        assert(Motion::Half.moved(m) =~~= rotated_half(m));
    }

    /// A half turn undoes itself.
    pub fn revert(&self, grid: &mut Grid)
        requires
            old(grid).wf(),
        ensures
            final(grid).wf(),
            final(grid)@ == rotated_half(old(grid)@),
    {
        self.apply(grid);
    }
}

/// Three quarter turns clockwise, which is one counter-clockwise.
#[derive(Clone, Copy, Debug)]
pub struct Rotate270CW {}

impl Rotate270CW {
    pub fn apply(&self, grid: &mut Grid)
        requires
            old(grid).wf(),
        ensures
            final(grid).wf(),
            final(grid)@ == rotated_ccw(old(grid)@),
    {
        Rotate90CW {  }.revert(grid);
    }

    pub fn revert(&self, grid: &mut Grid)
        requires
            old(grid).wf(),
        ensures
            final(grid).wf(),
            final(grid)@ == rotated_cw(old(grid)@),
    {
        Rotate90CW {  }.apply(grid);
    }
}

/// Exchanges left and right.
#[derive(Clone, Copy, Debug)]
pub struct FlipHorizontal {}

impl FlipHorizontal {
    pub fn apply(&self, grid: &mut Grid)
        requires
            old(grid).wf(),
        ensures
            final(grid).wf(),
            final(grid)@ == flipped_horizontal(old(grid)@),
    {
        let ghost m = grid@;
        Motion::Horizontal.carry(grid);
        assert(Motion::Horizontal.moved(m) =~~= flipped_horizontal(m));
    }

    /// A flip undoes itself.
    pub fn revert(&self, grid: &mut Grid)
        requires
            old(grid).wf(),
        ensures
            final(grid).wf(),
            final(grid)@ == flipped_horizontal(old(grid)@),
    {
        self.apply(grid);
    }
}

/// Exchanges top and bottom.
#[derive(Clone, Copy, Debug)]
pub struct FlipVertical {}

impl FlipVertical {
    pub fn apply(&self, grid: &mut Grid)
        requires
            old(grid).wf(),
        ensures
            final(grid).wf(),
            final(grid)@ == flipped_vertical(old(grid)@),
    {
        let ghost m = grid@;
        Motion::Vertical.carry(grid);
        assert(Motion::Vertical.moved(m) =~~= flipped_vertical(m));
    }

    /// A flip undoes itself.
    pub fn revert(&self, grid: &mut Grid)
        requires
            old(grid).wf(),
        ensures
            final(grid).wf(),
            final(grid)@ == flipped_vertical(old(grid)@),
    {
        self.apply(grid);
    }
}

/// Reflects across the main diagonal.
#[derive(Clone, Copy, Debug)]
pub struct ReflectMainDiagonal {}

impl ReflectMainDiagonal {
    pub fn apply(&self, grid: &mut Grid)
        requires
            old(grid).wf(),
        ensures
            final(grid).wf(),
            final(grid)@ == transposed(old(grid)@),
    {
        let ghost m = grid@;
        Motion::Main.carry(grid);
        assert(Motion::Main.moved(m) =~~= transposed(m));
    }

    /// A reflection undoes itself.
    pub fn revert(&self, grid: &mut Grid)
        requires
            old(grid).wf(),
        ensures
            final(grid).wf(),
            final(grid)@ == transposed(old(grid)@),
    {
        self.apply(grid);
    }
}

/// Reflects across the anti-diagonal.
#[derive(Clone, Copy, Debug)]
pub struct ReflectAntiDiagonal {}

impl ReflectAntiDiagonal {
    pub fn apply(&self, grid: &mut Grid)
        requires
            old(grid).wf(),
        ensures
            final(grid).wf(),
            final(grid)@ == anti_transposed(old(grid)@),
    {
        let ghost m = grid@;
        Motion::Anti.carry(grid);
        assert(Motion::Anti.moved(m) =~~= anti_transposed(m));
    }

    /// A reflection undoes itself.
    pub fn revert(&self, grid: &mut Grid)
        requires
            old(grid).wf(),
        ensures
            final(grid).wf(),
            final(grid)@ == anti_transposed(old(grid)@),
    {
        self.apply(grid);
    }
}

/// A recoloring and the table meant to undo it.
#[derive(Clone, Copy, Debug)]
pub struct RemapColors {
    // Color of the grid -> mapped color
    col_map: [u8; 10],
    // Mapped color -> color of the grid
    rev_col_map: [u8; 10],
}

impl RemapColors {
    /// The table applied to a grid: color of the grid to mapped color.
    pub closed spec fn forward(&self) -> Seq<u8> {
        self.col_map@
    }

    /// The table applied to undo: mapped color to color of the grid.
    pub closed spec fn backward(&self) -> Seq<u8> {
        self.rev_col_map@
    }

    /// Both tables send colors to colors.
    pub open spec fn wf(&self) -> bool {
        &&& self.forward().len() == 10
        &&& self.backward().len() == 10
        &&& forall|c: int| 0 <= c < 10 ==> #[trigger] self.forward()[c] < 10
        &&& forall|c: int| 0 <= c < 10 ==> #[trigger] self.backward()[c] < 10
    }

    /// The backward table undoes the forward table on every color.
    pub open spec fn invertible(&self) -> bool {
        forall|c: int| 0 <= c < 10 ==> self.backward()[#[trigger] self.forward()[c] as int] == c
    }

    /// Creates new color map with identity mapping
    pub fn new() -> (remap: Self)
        ensures
            remap.wf(),
            remap.invertible(),
            remap.forward() == identity_table(),
            remap.backward() == identity_table(),
    {
        let remap = RemapColors {
            col_map: [0, 1, 2, 3, 4, 5, 6, 7, 8, 9],
            rev_col_map: [0, 1, 2, 3, 4, 5, 6, 7, 8, 9],
        };
        assert(remap.col_map@ =~= identity_table());
        assert(remap.rev_col_map@ =~= identity_table());
        remap
    }

    /// A recoloring with the given tables.
    pub fn from_tables(col_map: [u8; 10], rev_col_map: [u8; 10]) -> (remap: Self)
        requires
            forall|c: int| 0 <= c < 10 ==> #[trigger] col_map@[c] < 10,
            forall|c: int| 0 <= c < 10 ==> #[trigger] rev_col_map@[c] < 10,
        ensures
            remap.wf(),
            remap.forward() == col_map@,
            remap.backward() == rev_col_map@,
    {
        RemapColors { col_map, rev_col_map }
    }

    /// The table applied to a grid.
    pub fn col_map(&self) -> (table: [u8; 10])
        ensures
            table@ == self.forward(),
    {
        self.col_map
    }

    /// The table applied to undo.
    pub fn rev_col_map(&self) -> (table: [u8; 10])
        ensures
            table@ == self.backward(),
    {
        self.rev_col_map
    }

    /// Sends color `a` to color `b`, and `b` back to `a`.
    pub fn map(&mut self, a: u8, b: u8)
        requires
            old(self).wf(),
            a < 10,
            b < 10,
        ensures
            final(self).wf(),
            final(self).forward() == old(self).forward().update(a as int, b),
            final(self).backward() == old(self).backward().update(b as int, a),
    {
        self.col_map[a as usize] = b;
        self.rev_col_map[b as usize] = a;
    }

    pub fn apply(&self, grid: &mut Grid)
        requires
            old(grid).wf(),
            self.wf(),
        ensures
            final(grid).wf(),
            final(grid)@ == recolored(old(grid)@, self.forward()),
    {
        self.remap_grid(grid, &self.col_map);
    }

    pub fn revert(&self, grid: &mut Grid)
        requires
            old(grid).wf(),
            self.wf(),
        ensures
            final(grid).wf(),
            final(grid)@ == recolored(old(grid)@, self.backward()),
    {
        self.remap_grid(grid, &self.rev_col_map);
    }

    fn remap_grid(&self, grid: &mut Grid, table: &[u8; 10])
        requires
            old(grid).wf(),
            forall|c: int| 0 <= c < 10 ==> #[trigger] table@[c] < 10,
        ensures
            final(grid).wf(),
            final(grid)@ == recolored(old(grid)@, table@),
    {
        let width: usize = grid.width();
        let height: usize = grid.height();
        let ghost m = grid@;
        let ghost goal = recolored(m, table@);
        let mut new_data: Vec<Vec<u8>> = Vec::new();
        let mut y: usize = 0;
        while y < height
            invariant
                grid.wf(),
                grid@ == m,
                goal == recolored(m, table@),
                height == m.len(),
                width == m[0].len(),
                y <= height,
                new_data.len() == y,
                forall|c: int| 0 <= c < 10 ==> #[trigger] table@[c] < 10,
                forall|yy: int| 0 <= yy < y ==> (#[trigger] new_data@[yy])@ == goal[yy],
                forall|yy: int, xx: int|
                    0 <= yy < y && 0 <= xx < width ==> (#[trigger] new_data@[yy]@[xx]) < 10,
            decreases height - y,
        {
            let mut row: Vec<u8> = Vec::new();
            let mut x: usize = 0;
            while x < width
                invariant
                    grid.wf(),
                    grid@ == m,
                    goal == recolored(m, table@),
                    height == m.len(),
                    width == m[0].len(),
                    y < height,
                    x <= width,
                    row.len() == x,
                    forall|c: int| 0 <= c < 10 ==> #[trigger] table@[c] < 10,
                    forall|xx: int| 0 <= xx < x ==> #[trigger] row@[xx] == goal[y as int][xx],
                    forall|xx: int| 0 <= xx < x ==> #[trigger] row@[xx] < 10,
                decreases width - x,
            {
                let color: u8 = *grid.index((y, x));
                let mapped: u8 = table[color as usize];
                row.push(mapped);
                x += 1;
            }
            assert(row@ =~= goal[y as int]);
            new_data.push(row);
            y += 1;
        }
        proof {
            assert(rows_of(new_data) =~= goal);
            assert(is_matrix(goal));
            assert forall|yy: int, xx: int|
                0 <= yy < goal.len() && 0 <= xx < goal[yy].len() implies #[trigger] goal[yy][xx]
                < 10 by {
                assert(new_data@[yy]@[xx] < 10);
            }
        }
        *grid = Grid::from_vec(new_data);
    }
}

impl Default for RemapColors {
    fn default() -> (remap: Self)
        ensures
            remap.wf(),
            remap.forward() == identity_table(),
            remap.backward() == identity_table(),
    {
        Self::new()
    }
}

/// One reversible step of a pipeline.
#[derive(Clone, Copy, Debug)]
pub enum Transform {
    Identity(Identity),
    Rotate90CW(Rotate90CW),
    Rotate180(Rotate180),
    Rotate270CW(Rotate270CW),
    FlipHorizontal(FlipHorizontal),
    FlipVertical(FlipVertical),
    ReflectMainDiagonal(ReflectMainDiagonal),
    ReflectAntiDiagonal(ReflectAntiDiagonal),
    RemapColors(RemapColors),
}

impl Transform {
    /// A recoloring step must hold well-formed tables; every other step is always usable.
    pub open spec fn wf(&self) -> bool {
        match self {
            Transform::RemapColors(t) => t.wf(),
            _ => true,
        }
    }

    /// Whether reverting undoes applying.
    pub open spec fn invertible(&self) -> bool {
        match self {
            Transform::RemapColors(t) => t.invertible(),
            _ => true,
        }
    }

    /// The matrix after the step is applied.
    pub open spec fn applied(&self, m: Seq<Seq<u8>>) -> Seq<Seq<u8>> {
        match self {
            Transform::Identity(_) => m,
            Transform::Rotate90CW(_) => rotated_cw(m),
            Transform::Rotate180(_) => rotated_half(m),
            Transform::Rotate270CW(_) => rotated_ccw(m),
            Transform::FlipHorizontal(_) => flipped_horizontal(m),
            Transform::FlipVertical(_) => flipped_vertical(m),
            Transform::ReflectMainDiagonal(_) => transposed(m),
            Transform::ReflectAntiDiagonal(_) => anti_transposed(m),
            Transform::RemapColors(t) => recolored(m, t.forward()),
        }
    }

    /// The matrix after the step is reverted.
    pub open spec fn reverted(&self, m: Seq<Seq<u8>>) -> Seq<Seq<u8>> {
        match self {
            Transform::Identity(_) => m,
            Transform::Rotate90CW(_) => rotated_ccw(m),
            Transform::Rotate180(_) => rotated_half(m),
            Transform::Rotate270CW(_) => rotated_cw(m),
            Transform::FlipHorizontal(_) => flipped_horizontal(m),
            Transform::FlipVertical(_) => flipped_vertical(m),
            Transform::ReflectMainDiagonal(_) => transposed(m),
            Transform::ReflectAntiDiagonal(_) => anti_transposed(m),
            Transform::RemapColors(t) => recolored(m, t.backward()),
        }
    }

    pub fn apply(&self, grid: &mut Grid)
        requires
            old(grid).wf(),
            self.wf(),
        ensures
            final(grid).wf(),
            final(grid)@ == self.applied(old(grid)@),
    {
        match self {
            Transform::Identity(_) => {},
            Transform::Rotate90CW(t) => t.apply(grid),
            Transform::Rotate180(t) => t.apply(grid),
            Transform::Rotate270CW(t) => t.apply(grid),
            Transform::FlipHorizontal(t) => t.apply(grid),
            Transform::FlipVertical(t) => t.apply(grid),
            Transform::ReflectMainDiagonal(t) => t.apply(grid),
            Transform::ReflectAntiDiagonal(t) => t.apply(grid),
            Transform::RemapColors(t) => t.apply(grid),
        }
    }

    pub fn revert(&self, grid: &mut Grid)
        requires
            old(grid).wf(),
            self.wf(),
        ensures
            final(grid).wf(),
            final(grid)@ == self.reverted(old(grid)@),
    {
        match self {
            Transform::Identity(_) => {},
            Transform::Rotate90CW(t) => t.revert(grid),
            Transform::Rotate180(t) => t.revert(grid),
            Transform::Rotate270CW(t) => t.revert(grid),
            Transform::FlipHorizontal(t) => t.revert(grid),
            Transform::FlipVertical(t) => t.revert(grid),
            Transform::ReflectMainDiagonal(t) => t.revert(grid),
            Transform::ReflectAntiDiagonal(t) => t.revert(grid),
            Transform::RemapColors(t) => t.revert(grid),
        }
    }
}

/// The matrix after `steps` are applied first to last.
pub open spec fn applied_in_order(steps: Seq<Transform>, m: Seq<Seq<u8>>) -> Seq<Seq<u8>>
    decreases steps.len(),
{
    if steps.len() == 0 {
        m
    } else {
        applied_in_order(steps.drop_first(), steps[0].applied(m))
    }
}

/// The matrix after `steps` are reverted last to first.
pub open spec fn reverted_in_order(steps: Seq<Transform>, m: Seq<Seq<u8>>) -> Seq<Seq<u8>>
    decreases steps.len(),
{
    if steps.len() == 0 {
        m
    } else {
        reverted_in_order(steps.drop_last(), steps.last().reverted(m))
    }
}

/// List of transforms that are applied in order
/// and reverted in reverse order.
#[derive(Clone, Debug)]
pub struct TransformPipeline {
    pub steps: Vec<Transform>,
}

impl TransformPipeline {
    /// Every step is usable.
    pub open spec fn wf(&self) -> bool {
        forall|i: int| 0 <= i < self.steps@.len() ==> (#[trigger] self.steps@[i]).wf()
    }

    /// Every step is undone by its revert.
    pub open spec fn invertible(&self) -> bool {
        forall|i: int| 0 <= i < self.steps@.len() ==> (#[trigger] self.steps@[i]).invertible()
    }

    pub fn apply(&self, grid: &mut Grid)
        requires
            old(grid).wf(),
            self.wf(),
        ensures
            final(grid).wf(),
            final(grid)@ == applied_in_order(self.steps@, old(grid)@),
    {
        let ghost start = grid@;
        let mut i: usize = 0;
        assert(self.steps@.skip(0) =~= self.steps@);
        while i < self.steps.len()
            invariant
                i <= self.steps.len(),
                grid.wf(),
                self.wf(),
                applied_in_order(self.steps@, start) == applied_in_order(
                    self.steps@.skip(i as int),
                    grid@,
                ),
            decreases self.steps.len() - i,
        {
            assert(self.steps@.skip(i as int).drop_first() =~= self.steps@.skip(i as int + 1));
            self.steps[i].apply(grid);
            i += 1;
        }
    }

    pub fn revert(&self, grid: &mut Grid)
        requires
            old(grid).wf(),
            self.wf(),
        ensures
            final(grid).wf(),
            final(grid)@ == reverted_in_order(self.steps@, old(grid)@),
    {
        let ghost start = grid@;
        let mut i: usize = self.steps.len();
        assert(self.steps@.take(i as int) =~= self.steps@);
        while i > 0
            invariant
                i <= self.steps.len(),
                grid.wf(),
                self.wf(),
                reverted_in_order(self.steps@, start) == reverted_in_order(
                    self.steps@.take(i as int),
                    grid@,
                ),
            decreases i,
        {
            assert(self.steps@.take(i as int).drop_last() =~= self.steps@.take(i as int - 1));
            i -= 1;
            self.steps[i].revert(grid);
        }
    }
}

impl Default for TransformPipeline {
    fn default() -> (pipeline: Self)
        ensures
            pipeline.steps@.len() == 0,
    {
        TransformPipeline { steps: Vec::new() }
    }
}

/// Applying a step to a palette matrix gives a palette matrix.
pub proof fn lemma_applied_is_matrix(t: Transform, m: Seq<Seq<u8>>)
    requires
        is_matrix(m),
        in_palette(m),
        t.wf(),
    ensures
        is_matrix(t.applied(m)),
        in_palette(t.applied(m)),
{
}

/// Reverting a step right after applying it gives back the matrix, provided a
/// recoloring step's backward table undoes its forward table.
pub proof fn lemma_revert_undoes_apply(t: Transform, m: Seq<Seq<u8>>)
    requires
        is_matrix(m),
        in_palette(m),
        t.wf(),
        t.invertible(),
    ensures
        t.reverted(t.applied(m)) == m,
{
    assert(t.reverted(t.applied(m)) =~~= m);
}

/// Applying a list of steps is applying all but the last, then the last.
pub proof fn lemma_applied_in_order_last(steps: Seq<Transform>, m: Seq<Seq<u8>>)
    requires
        steps.len() > 0,
    ensures
        applied_in_order(steps, m) == steps.last().applied(
            applied_in_order(steps.drop_last(), m),
        ),
    decreases steps.len(),
{
    reveal_with_fuel(applied_in_order, 2);
    if steps.len() == 1 {
        assert(steps.drop_first().len() == 0);
        assert(steps.drop_last().len() == 0);
    } else {
        let rest = steps.drop_first();
        lemma_applied_in_order_last(rest, steps[0].applied(m));
        assert(rest.drop_last() =~= steps.drop_last().drop_first());
        assert(rest.last() == steps.last());
        assert(steps.drop_last()[0] == steps[0]);
    }
}

/// Applying a list of usable steps to a palette matrix gives a palette matrix.
pub proof fn lemma_applied_in_order_is_matrix(steps: Seq<Transform>, m: Seq<Seq<u8>>)
    requires
        is_matrix(m),
        in_palette(m),
        forall|i: int| 0 <= i < steps.len() ==> (#[trigger] steps[i]).wf(),
    ensures
        is_matrix(applied_in_order(steps, m)),
        in_palette(applied_in_order(steps, m)),
    decreases steps.len(),
{
    if steps.len() > 0 {
        lemma_applied_is_matrix(steps[0], m);
        let rest = steps.drop_first();
        assert forall|i: int| 0 <= i < rest.len() implies (#[trigger] rest[i]).wf() by {
            assert(rest[i] == steps[i + 1]);
        }
        lemma_applied_in_order_is_matrix(rest, steps[0].applied(m));
    }
}

/// Reverting a pipeline right after applying it gives back the matrix, provided
/// every recoloring step's backward table undoes its forward table.
pub proof fn lemma_pipeline_round_trip(steps: Seq<Transform>, m: Seq<Seq<u8>>)
    requires
        is_matrix(m),
        in_palette(m),
        forall|i: int| 0 <= i < steps.len() ==> (#[trigger] steps[i]).wf(),
        forall|i: int| 0 <= i < steps.len() ==> (#[trigger] steps[i]).invertible(),
    ensures
        reverted_in_order(steps, applied_in_order(steps, m)) == m,
    decreases steps.len(),
{
    if steps.len() > 0 {
        let front = steps.drop_last();
        let mid = applied_in_order(front, m);
        assert forall|i: int| 0 <= i < front.len() implies (#[trigger] front[i]).wf() by {
            assert(front[i] == steps[i]);
        }
        assert forall|i: int| 0 <= i < front.len() implies (#[trigger] front[i]).invertible() by {
            assert(front[i] == steps[i]);
        }
        lemma_applied_in_order_last(steps, m);
        lemma_applied_in_order_is_matrix(front, m);
        lemma_revert_undoes_apply(steps.last(), mid);
        lemma_pipeline_round_trip(front, m);
    }
}

} // verus!
