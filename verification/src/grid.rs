//! Rectangular pixel grids stored column by column (`grid[x][y]`), and the
//! operations that the drawing tools perform on them.

use vstd::prelude::*;
use crate::color::Color;

verus! {

/// The colours of a grid as nested sequences, indexed `[x][y]`.
pub open spec fn cells(g: &Vec<Vec<Color>>) -> Seq<Seq<Color>> {
    g@.map_values(|col: Vec<Color>| col@)
}

/// `s` has exactly `w` columns, each of length `h`.
pub open spec fn is_rect(s: Seq<Seq<Color>>, w: int, h: int) -> bool {
    &&& s.len() == w
    &&& forall|i: int| 0 <= i < w ==> #[trigger] s[i].len() == h
}

/// Every cell `(i, j)` with `i < w` and `j < h` exists in `s`.
pub open spec fn covers(s: Seq<Seq<Color>>, w: int, h: int) -> bool {
    &&& w <= s.len()
    &&& forall|i: int| 0 <= i < w ==> h <= #[trigger] s[i].len()
}

/// The height of a grid as layers and tools measure it: the length of its
/// first column, or 0 when it has no columns.
pub open spec fn first_height(s: Seq<Seq<Color>>) -> int {
    if s.len() == 0 {
        0
    } else {
        s[0].len() as int
    }
}

/// A `w` by `h` grid in which every cell has colour `c`.
pub open spec fn filled(w: int, h: int, c: Color) -> Seq<Seq<Color>> {
    Seq::new(w as nat, |i: int| Seq::new(h as nat, |j: int| c))
}

/// Two grids of the same shape.
pub open spec fn same_shape(a: Seq<Seq<Color>>, b: Seq<Seq<Color>>) -> bool {
    &&& a.len() == b.len()
    &&& forall|i: int| 0 <= i < a.len() ==> #[trigger] a[i].len() == b[i].len()
}

/// The cell `(i, j)` lies in the square of side `size` whose corner is
/// `(x, y)`, and inside the `w` by `h` region.
pub open spec fn in_brush(w: int, h: int, x: int, y: int, size: int, i: int, j: int) -> bool {
    &&& 0 <= i < w
    &&& 0 <= j < h
    &&& x <= i < x + size
    &&& y <= j < y + size
}

/// Every cell of the brush square that lies inside the region exists in
/// `s`.
pub open spec fn brush_cells_exist(s: Seq<Seq<Color>>, w: int, h: int, x: int, y: int, size: int) -> bool {
    forall|i: int, j: int| #[trigger] in_brush(w, h, x, y, size, i, j) ==> i < s.len() && j < s[i].len()
}

/// `s` with every cell of the brush square set to `c`.
pub open spec fn painted(
    s: Seq<Seq<Color>>,
    w: int,
    h: int,
    x: int,
    y: int,
    size: int,
    c: Color,
) -> Seq<Seq<Color>> {
    Seq::new(
        s.len(),
        |i: int| Seq::new(s[i].len(), |j: int| if in_brush(w, h, x, y, size, i, j) { c } else { s[i][j] }),
    )
}

/// The columns of `cells(g)` are the views of the columns of `g`.
pub proof fn lemma_cells(g: &Vec<Vec<Color>>)
    ensures
        cells(g).len() == g@.len(),
        forall|i: int| #![trigger g@[i]] 0 <= i < g@.len() ==> cells(g)[i] == g@[i]@,
{
    assert forall|i: int| #![trigger g@[i]] 0 <= i < g@.len() implies cells(g)[i] == g@[i]@ by {
        lemma_cells_index(g, i);
    }
}

proof fn lemma_cells_index(g: &Vec<Vec<Color>>, i: int)
    requires
        0 <= i < g@.len(),
    ensures
        cells(g)[i] == g@[i]@,
        cells(g).len() == g@.len(),
{
}

/// A grid that covers the region has every cell of any brush square
/// clipped to it.
pub proof fn lemma_covers_brush(s: Seq<Seq<Color>>, w: int, h: int, x: int, y: int, size: int)
    requires
        covers(s, w, h),
    ensures
        brush_cells_exist(s, w, h, x, y, size),
{
    assert forall|i: int, j: int| #[trigger] in_brush(w, h, x, y, size, i, j) implies i < s.len() && j
        < s[i].len() by {
        assert(h <= s[i].len());
    }
}

/// A new `w` by `h` grid in which every cell has colour `c`.
pub fn new_grid(w: usize, h: usize, c: Color) -> (g: Vec<Vec<Color>>)
    ensures
        cells(&g) == filled(w as int, h as int, c),
{
    let mut g: Vec<Vec<Color>> = Vec::new();
    let mut i: usize = 0;
    while i < w
        invariant
            i <= w,
            g@.len() == i,
            forall|k: int| 0 <= k < i ==> #[trigger] g@[k]@ == Seq::new(h as nat, |j: int| c),
        decreases w - i,
    {
        let mut col: Vec<Color> = Vec::new();
        let mut j: usize = 0;
        while j < h
            invariant
                j <= h,
                col@ == Seq::new(j as nat, |k: int| c),
            decreases h - j,
        {
            col.push(c);
            j = j + 1;
            assert(col@ =~= Seq::new(j as nat, |k: int| c));
        }
        g.push(col);
        i = i + 1;
    }
    assert(cells(&g) =~= filled(w as int, h as int, c)) by {
        assert forall|k: int| 0 <= k < w implies #[trigger] cells(&g)[k] == filled(
            w as int,
            h as int,
            c,
        )[k] by {
            lemma_cells_index(&g, k);
        }
    }
    g
}

/// Paints the square of side `size` whose corner is `(x, y)` with `c`,
/// clipped to the `w` by `h` region; the rest of the grid is unchanged.
pub fn paint_square(g: &mut Vec<Vec<Color>>, w: usize, h: usize, x: usize, y: usize, size: usize, c: Color)
    requires
        brush_cells_exist(cells(old(g)), w as int, h as int, x as int, y as int, size as int),
    ensures
        cells(final(g)) == painted(cells(old(g)), w as int, h as int, x as int, y as int, size as int, c),
{
    let ghost s0 = cells(g);
    let mut dy: usize = 0;
    while dy < size
        invariant
            dy <= size,
            brush_cells_exist(s0, w as int, h as int, x as int, y as int, size as int),
            s0 == cells(old(g)),
            g@.len() == s0.len(),
            forall|i: int| 0 <= i < s0.len() ==> #[trigger] g@[i]@.len() == s0[i].len(),
            forall|i: int, j: int|
                0 <= i < s0.len() && 0 <= j < s0[i].len() ==> #[trigger] g@[i]@[j] == if in_brush(
                    w as int,
                    h as int,
                    x as int,
                    y as int,
                    size as int,
                    i,
                    j,
                ) && j < y + dy {
                    c
                } else {
                    s0[i][j]
                },
        decreases size - dy,
    {
        let mut dx: usize = 0;
        while dx < size
            invariant
                dx <= size,
                dy < size,
                brush_cells_exist(s0, w as int, h as int, x as int, y as int, size as int),
                s0 == cells(old(g)),
                g@.len() == s0.len(),
                forall|i: int| 0 <= i < s0.len() ==> #[trigger] g@[i]@.len() == s0[i].len(),
                forall|i: int, j: int|
                    0 <= i < s0.len() && 0 <= j < s0[i].len() ==> #[trigger] g@[i]@[j] == if in_brush(
                        w as int,
                        h as int,
                        x as int,
                        y as int,
                        size as int,
                        i,
                        j,
                    ) && (j < y + dy || (j == y + dy && i < x + dx)) {
                        c
                    } else {
                        s0[i][j]
                    },
            decreases size - dx,
        {
            let nx = x.saturating_add(dx);
            let ny = y.saturating_add(dy);
            if nx < w && ny < h {
                assert(in_brush(w as int, h as int, x as int, y as int, size as int, nx as int, ny as int));
                assert(g@[nx as int]@.len() == s0[nx as int].len());
                g[nx][ny] = c;
            }
            dx = dx + 1;
        }
        dy = dy + 1;
    }
    assert(cells(g) =~= painted(s0, w as int, h as int, x as int, y as int, size as int, c)) by {
        assert forall|i: int| 0 <= i < s0.len() implies #[trigger] cells(g)[i] =~= painted(
            s0,
            w as int,
            h as int,
            x as int,
            y as int,
            size as int,
            c,
        )[i] by {
            lemma_cells_index(g, i);
        }
    }
}

/// Painting the same square twice is the same as painting it once, and
/// the painted cells read as the colour.
pub proof fn law_paint_idempotent(
    s: Seq<Seq<Color>>,
    w: int,
    h: int,
    x: int,
    y: int,
    size: int,
    c: Color,
    i: int,
    j: int,
)
    ensures
        painted(painted(s, w, h, x, y, size, c), w, h, x, y, size, c) == painted(s, w, h, x, y, size, c),
        0 <= i < s.len() && 0 <= j < s[i].len() && in_brush(w, h, x, y, size, i, j) ==> painted(
            s,
            w,
            h,
            x,
            y,
            size,
            c,
        )[i][j] == c,
{
    let p = painted(s, w, h, x, y, size, c);
    assert forall|k: int| 0 <= k < s.len() implies #[trigger] painted(p, w, h, x, y, size, c)[k] =~= p[k] by {
    }
    assert(painted(p, w, h, x, y, size, c) =~= p);
}

} // verus!
