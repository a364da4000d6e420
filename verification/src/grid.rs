use std::collections::hash_map::DefaultHasher;
use std::collections::HashSet;
use std::hash::Hash;
use std::hash::Hasher;
use vstd::prelude::*;
use vstd::std_specs::hash::DefaultHasherAdditionalSpecFns;

verus! {

broadcast use vstd::std_specs::hash::group_hash_axioms;

/// Number of colors a cell can take.
pub const N_COLORS: u8 = 10;

/// The rows of a nested vector, as a sequence of sequences.
pub open spec fn rows_of(data: Vec<Vec<u8>>) -> Seq<Seq<u8>> {
    data@.map_values(|row: Vec<u8>| row@)
}

/// A matrix has at least one row, at least one column, and rows of equal length.
pub open spec fn is_matrix(m: Seq<Seq<u8>>) -> bool {
    &&& m.len() > 0
    &&& m[0].len() > 0
    &&& forall|y: int| 0 <= y < m.len() ==> #[trigger] m[y].len() == m[0].len()
}

/// Every cell holds one of the ten colors.
pub open spec fn in_palette(m: Seq<Seq<u8>>) -> bool {
    forall|y: int, x: int| 0 <= y < m.len() && 0 <= x < m[y].len() ==> #[trigger] m[y][x] < 10
}

/// The color `c` occurs in a cell that comes before row `y`, column `x` in row-major order.
pub open spec fn occurs_before(m: Seq<Seq<u8>>, y: int, x: int, c: u8) -> bool {
    exists|yy: int, xx: int|
        0 <= yy < m.len() && 0 <= xx < m[yy].len() && (yy < y || (yy == y && xx < x))
            && #[trigger] m[yy][xx] == c
}

/// The colors that occur anywhere in the matrix.
pub open spec fn cell_colors(m: Seq<Seq<u8>>) -> Set<u8> {
    Set::new(|c: u8| occurs_before(m, m.len() as int, 0, c))
}

/// The writes by which the standard hasher is fed a nested vector of bytes.
pub uninterp spec fn rows_hash_feed(rows: Seq<Seq<u8>>) -> Seq<Seq<u8>>;

/// The content hash of a matrix: the default hasher, started fresh, fed the rows, finished.
pub open spec fn content_hash(rows: Seq<Seq<u8>>) -> u64 {
    DefaultHasher::spec_finish(rows_hash_feed(rows))
}

/// Feeds `data` to `hasher` through `std::hash::Hash::hash` for `Vec<Vec<u8>>`.
///
/// Trusted: the writes that arrive at the hasher depend on the content of `data`
/// alone, and are appended to what the hasher has already received.
#[verifier::external_body]
fn feed_rows(hasher: &mut DefaultHasher, data: &Vec<Vec<u8>>)
    ensures
        final(hasher)@ == old(hasher)@ + rows_hash_feed(rows_of(*data)),
{
    data.hash(hasher);
}

/// A fresh set with the same members.
fn copy_colors(colors: &HashSet<u8>) -> (copy: HashSet<u8>)
    ensures
        copy@ == colors@,
{
    let mut copy: HashSet<u8> = HashSet::new();
    let mut c: u8 = 0;
    loop
        invariant_except_break
            forall|d: u8| copy@.contains(d) <==> colors@.contains(d) && d < c,
        ensures
            forall|d: u8| copy@.contains(d) <==> colors@.contains(d),
        decreases 255 - c,
    {
        if colors.contains(&c) {
            copy.insert(c);
        }
        if c == 255 {
            break;
        }
        c += 1;
    }
    assert(copy@ =~= colors@);
    copy
}

/// A grid of colored cells, immutable once built.
#[derive(Debug)]
pub struct Grid {
    data: Vec<Vec<u8>>,
    width: usize,
    height: usize,
    colors: HashSet<u8>,
    hash: u64,
}

impl View for Grid {
    type V = Seq<Seq<u8>>;

    closed spec fn view(&self) -> Seq<Seq<u8>> {
        rows_of(self.data)
    }
}

impl Grid {
    /// The invariant every grid satisfies: a non-empty palette matrix with its
    /// cached dimensions, color set and content hash.
    pub open spec fn wf(&self) -> bool {
        &&& is_matrix(self@)
        &&& in_palette(self@)
        &&& self.caches_agree()
    }

    /// The cached dimensions, color set and content hash are those of the cells.
    pub closed spec fn caches_agree(&self) -> bool {
        &&& self.height == self@.len()
        &&& self.width == self@[0].len()
        &&& self.colors@ == cell_colors(self@)
        &&& self.hash == content_hash(self@)
    }

    /// Whether `data` can be made into a grid.
    pub fn is_valid_data(data: &Vec<Vec<u8>>) -> (ok: bool)
        ensures
            ok == (is_matrix(rows_of(*data)) && in_palette(rows_of(*data))),
    {
        let ghost m = rows_of(*data);
        if data.len() == 0 || data[0].len() == 0 {
            return false;
        }
        let width: usize = data[0].len();
        assert(m[0] == data@[0]@);
        let mut y: usize = 0;
        while y < data.len()
            invariant
                y <= data.len(),
                m == rows_of(*data),
                m.len() == data.len(),
                width == m[0].len(),
                width > 0,
                forall|yy: int| 0 <= yy < y ==> #[trigger] m[yy].len() == width,
                forall|yy: int, xx: int|
                    0 <= yy < y && 0 <= xx < m[yy].len() ==> #[trigger] m[yy][xx] < 10,
            decreases data.len() - y,
        {
            let row = &data[y];
            assert(m[y as int] == row@);
            if row.len() != width {
                return false;
            }
            let mut x: usize = 0;
            while x < width
                invariant
                    x <= width,
                    width == row.len(),
                    0 <= y < m.len(),
                    m == rows_of(*data),
                    m[y as int] == row@,
                    forall|xx: int| 0 <= xx < x ==> #[trigger] row@[xx] < 10,
                decreases width - x,
            {
                if row[x] >= N_COLORS {
                    assert(!(m[y as int][x as int] < 10));
                    assert(0 <= x < m[y as int].len());
                    assert(!in_palette(m));
                    return false;
                }
                x += 1;
            }
            y += 1;
        }
        true
    }

    /// Builds a grid from its rows.
    pub fn from_vec(data: Vec<Vec<u8>>) -> (grid: Self)
        requires
            is_matrix(rows_of(data)),
            in_palette(rows_of(data)),
        ensures
            grid.wf(),
            grid@ == rows_of(data),
    {
        let ghost m = rows_of(data);
        let height: usize = data.len();
        assert(m[0] == data@[0]@);
        let width: usize = data[0].len();
        let mut colors: HashSet<u8> = HashSet::new();
        let mut y: usize = 0;
        while y < height
            invariant
                y <= height,
                height == data.len(),
                m == rows_of(data),
                is_matrix(m),
                width == m[0].len(),
                forall|c: u8| colors@.contains(c) <==> occurs_before(m, y as int, 0, c),
            decreases height - y,
        {
            let row = &data[y];
            assert(m[y as int] == row@);
            let mut x: usize = 0;
            while x < width
                invariant
                    x <= width,
                    y < height,
                    height == m.len(),
                    is_matrix(m),
                    width == m[0].len(),
                    m[y as int] == row@,
                    forall|c: u8| colors@.contains(c) <==> occurs_before(m, y as int, x as int, c),
                decreases width - x,
            {
                let v: u8 = row[x];
                let ghost before = colors@;
                colors.insert(v);
                proof {
                    assert(m[y as int][x as int] == v);
                    assert forall|c: u8| colors@.contains(c) implies occurs_before(
                        m,
                        y as int,
                        x as int + 1,
                        c,
                    ) by {
                        if before.contains(c) {
                            let (yy, xx) = choose|yy: int, xx: int|
                                0 <= yy < m.len() && 0 <= xx < m[yy].len() && (yy < y || (yy == y
                                    && xx < x)) && #[trigger] m[yy][xx] == c;
                            assert(m[yy][xx] == c);
                        }
                    }
                    assert forall|c: u8| occurs_before(m, y as int, x as int + 1, c) implies colors@
                        .contains(c) by {
                        let (yy, xx) = choose|yy: int, xx: int|
                            0 <= yy < m.len() && 0 <= xx < m[yy].len() && (yy < y || (yy == y && xx
                                < x + 1)) && #[trigger] m[yy][xx] == c;
                        if yy == y && xx == x {
                        } else {
                            assert(m[yy][xx] == c);
                            assert(occurs_before(m, y as int, x as int, c));
                        }
                    }
                }
                x += 1;
            }
            proof {
                assert forall|c: u8| occurs_before(m, y as int, width as int, c) implies occurs_before(
                    m,
                    y as int + 1,
                    0,
                    c,
                ) by {
                    let (yy, xx) = choose|yy: int, xx: int|
                        0 <= yy < m.len() && 0 <= xx < m[yy].len() && (yy < y || (yy == y && xx
                            < width)) && #[trigger] m[yy][xx] == c;
                    assert(m[yy][xx] == c);
                }
                assert forall|c: u8| occurs_before(m, y as int + 1, 0, c) implies occurs_before(
                    m,
                    y as int,
                    width as int,
                    c,
                ) by {
                    let (yy, xx) = choose|yy: int, xx: int|
                        0 <= yy < m.len() && 0 <= xx < m[yy].len() && (yy < y + 1 || (yy == y + 1
                            && xx < 0)) && #[trigger] m[yy][xx] == c;
                    assert(m[yy][xx] == c);
                    assert(m[yy].len() == width);
                }
            }
            y += 1;
        }
        let mut hasher = DefaultHasher::new();
        feed_rows(&mut hasher, &data);
        let hash: u64 = hasher.finish();
        proof {
            assert(hasher@ =~= rows_hash_feed(m));
            assert(colors@ =~= cell_colors(m));
        }
        Self { data, width, height, colors, hash }
    }

    /// Height and width, in that order.
    pub fn shape(&self) -> (dims: (usize, usize))
        requires
            self.wf(),
        ensures
            dims.0 == self@.len(),
            dims.1 == self@[0].len(),
    {
        (self.height, self.width)
    }

    /// The content hash: equal for grids with equal cells.
    pub fn get_hash(&self) -> (hash: u64)
        requires
            self.wf(),
        ensures
            hash == content_hash(self@),
    {
        self.hash
    }

    /// Number of columns.
    pub fn width(&self) -> (width: usize)
        requires
            self.wf(),
        ensures
            width == self@[0].len(),
            width > 0,
    {
        self.width
    }

    /// Number of rows.
    pub fn height(&self) -> (height: usize)
        requires
            self.wf(),
        ensures
            height == self@.len(),
            height > 0,
    {
        self.height
    }

    /// The set of colors that occur in the grid.
    pub fn colors(&self) -> (colors: &HashSet<u8>)
        requires
            self.wf(),
        ensures
            colors@ == cell_colors(self@),
    {
        &self.colors
    }

    /// The rows of the grid.
    pub fn data(&self) -> (data: &Vec<Vec<u8>>)
        requires
            self.wf(),
        ensures
            rows_of(*data) == self@,
            is_matrix(rows_of(*data)),
            in_palette(rows_of(*data)),
    {
        &self.data
    }

    /// The cell in row `index.0`, column `index.1`.
    pub fn index(&self, index: (usize, usize)) -> (cell: &u8)
        requires
            self.wf(),
            index.0 < self@.len(),
            index.1 < self@[0].len(),
        ensures
            *cell == self@[index.0 as int][index.1 as int],
            *cell < 10,
    {
        assert(self@[index.0 as int] == self.data@[index.0 as int]@);
        assert(self@[index.0 as int].len() == self@[0].len());
        &self.data[index.0][index.1]
    }
}

impl Clone for Grid {
    fn clone(&self) -> (copy: Self)
        ensures
            self.wf() ==> copy.wf() && copy@ == self@,
    {
        let mut data: Vec<Vec<u8>> = Vec::new();
        let mut y: usize = 0;
        while y < self.data.len()
            invariant
                y <= self.data.len(),
                data.len() == y,
                forall|yy: int| 0 <= yy < y ==> (#[trigger] data@[yy])@ == self.data@[yy]@,
            decreases self.data.len() - y,
        {
            let src = &self.data[y];
            let mut row: Vec<u8> = Vec::new();
            let mut x: usize = 0;
            while x < src.len()
                invariant
                    x <= src.len(),
                    row.len() == x,
                    forall|xx: int| 0 <= xx < x ==> #[trigger] row@[xx] == src@[xx],
                decreases src.len() - x,
            {
                row.push(src[x]);
                x += 1;
            }
            assert(row@ =~= src@);
            data.push(row);
            y += 1;
        }
        assert(rows_of(data) =~= rows_of(self.data));
        Self {
            data,
            width: self.width,
            height: self.height,
            colors: copy_colors(&self.colors),
            hash: self.hash,
        }
    }
}

} // verus!
