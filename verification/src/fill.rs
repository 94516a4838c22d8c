//! Flood fill: recolouring the 4-connected area of equal colour around a
//! starting cell, with a proof that exactly that area changes.

use vstd::prelude::*;
use crate::color::Color;
use crate::grid::{cells, covers, same_shape};

verus! {

/// `(i, j)` lies inside the `w` by `h` region.
pub open spec fn in_region(w: int, h: int, i: int, j: int) -> bool {
    0 <= i < w && 0 <= j < h
}

/// The two cells share an edge.
pub open spec fn adjacent(a: (int, int), b: (int, int)) -> bool {
    ||| a.0 == b.0 && (a.1 == b.1 + 1 || b.1 == a.1 + 1)
    ||| a.1 == b.1 && (a.0 == b.0 + 1 || b.0 == a.0 + 1)
}

/// `path` is a walk through cells of the region that all have colour `o`,
/// each step moving to an edge-adjacent cell.
pub open spec fn is_path(s: Seq<Seq<Color>>, w: int, h: int, o: Color, path: Seq<(int, int)>) -> bool {
    &&& forall|k: int|
        0 <= k < path.len() ==> in_region(w, h, (#[trigger] path[k]).0, path[k].1) && s[path[k].0][path[k].1]
            == o
    &&& forall|k: int| 0 <= k < path.len() - 1 ==> adjacent(#[trigger] path[k], path[k + 1])
}

/// `(i, j)` can be reached from `(x, y)` inside the region through cells
/// of the colour of `(x, y)`.
pub open spec fn connected(s: Seq<Seq<Color>>, w: int, h: int, x: int, y: int, i: int, j: int) -> bool {
    exists|path: Seq<(int, int)>|
        #[trigger] is_path(s, w, h, s[x][y], path) && path.len() > 0 && path[0] == (x, y) && path[path.len()
            - 1] == (i, j)
}

/// The grid after a flood fill from `(x, y)` with colour `c` inside the
/// `w` by `h` region: the connected area of `(x, y)` takes colour `c`.
pub open spec fn flood_filled(s: Seq<Seq<Color>>, w: int, h: int, x: int, y: int, c: Color) -> Seq<Seq<Color>> {
    Seq::new(
        s.len(),
        |i: int| Seq::new(s[i].len(), |j: int| if connected(s, w, h, x, y, i, j) { c } else { s[i][j] }),
    )
}

/// How many cells of a column have colour `c`.
pub open spec fn count_in(col: Seq<Color>, c: Color) -> nat
    decreases col.len(),
{
    if col.len() == 0 {
        0
    } else {
        count_in(col.drop_last(), c) + if col.last() == c {
            1nat
        } else {
            0nat
        }
    }
}

/// How many cells of a grid have colour `c`.
pub open spec fn count_grid(s: Seq<Seq<Color>>, c: Color) -> nat
    decreases s.len(),
{
    if s.len() == 0 {
        0
    } else {
        count_grid(s.drop_last(), c) + count_in(s.last(), c)
    }
}

spec fn changed(cur: Seq<Seq<Color>>, s0: Seq<Seq<Color>>, i: int, j: int) -> bool {
    cur[i][j] != s0[i][j]
}

spec fn on_stack(st: Seq<(usize, usize)>, i: int, j: int) -> bool {
    exists|k: int| 0 <= k < st.len() && (#[trigger] st[k]).0 == i && st[k].1 == j
}

spec fn handled(
    cur: Seq<Seq<Color>>,
    s0: Seq<Seq<Color>>,
    st: Seq<(usize, usize)>,
    w: int,
    h: int,
    o: Color,
    i: int,
    j: int,
) -> bool {
    ||| !in_region(w, h, i, j)
    ||| s0[i][j] != o
    ||| changed(cur, s0, i, j)
    ||| on_stack(st, i, j)
}

spec fn near(s0: Seq<Seq<Color>>, w: int, h: int, x: int, y: int, i: int, j: int) -> bool {
    ||| i == x && j == y
    ||| connected(s0, w, h, x, y, i - 1, j)
    ||| connected(s0, w, h, x, y, i + 1, j)
    ||| connected(s0, w, h, x, y, i, j - 1)
    ||| connected(s0, w, h, x, y, i, j + 1)
}

spec fn neighbours_handled(
    cur: Seq<Seq<Color>>,
    s0: Seq<Seq<Color>>,
    st: Seq<(usize, usize)>,
    w: int,
    h: int,
    o: Color,
    i: int,
    j: int,
) -> bool {
    &&& handled(cur, s0, st, w, h, o, i - 1, j)
    &&& handled(cur, s0, st, w, h, o, i + 1, j)
    &&& handled(cur, s0, st, w, h, o, i, j - 1)
    &&& handled(cur, s0, st, w, h, o, i, j + 1)
}

spec fn fill_inv(
    s0: Seq<Seq<Color>>,
    w: int,
    h: int,
    x: int,
    y: int,
    c: Color,
    cur: Seq<Seq<Color>>,
    st: Seq<(usize, usize)>,
) -> bool {
    let o = s0[x][y];
    &&& same_shape(cur, s0)
    &&& covers(s0, w, h)
    &&& in_region(w, h, x, y)
    &&& c != o
    &&& forall|i: int, j: int|
        0 <= i < s0.len() && 0 <= j < s0[i].len() ==> #[trigger] cur[i][j] == s0[i][j] || (cur[i][j] == c
            && connected(s0, w, h, x, y, i, j))
    &&& forall|k: int|
        0 <= k < st.len() ==> in_region(w, h, (#[trigger] st[k]).0 as int, st[k].1 as int) && near(
            s0,
            w,
            h,
            x,
            y,
            st[k].0 as int,
            st[k].1 as int,
        )
    &&& forall|i: int, j: int|
        0 <= i < s0.len() && 0 <= j < s0[i].len() && #[trigger] changed(cur, s0, i, j) ==> neighbours_handled(
            cur,
            s0,
            st,
            w,
            h,
            o,
            i,
            j,
        )
    &&& changed(cur, s0, x, y) || on_stack(st, x, y)
}

/// The cells that the fill pushes after painting `(px, py)`, in push order.
spec fn pushed(px: usize, py: usize, w: usize, h: usize) -> Seq<(usize, usize)> {
    let p1 = if px > 0 {
        seq![((px - 1) as usize, py)]
    } else {
        Seq::<(usize, usize)>::empty()
    };
    let p2 = if px + 1 < w {
        seq![((px + 1) as usize, py)]
    } else {
        Seq::<(usize, usize)>::empty()
    };
    let p3 = if py > 0 {
        seq![(px, (py - 1) as usize)]
    } else {
        Seq::<(usize, usize)>::empty()
    };
    let p4 = if py + 1 < h {
        seq![(px, (py + 1) as usize)]
    } else {
        Seq::<(usize, usize)>::empty()
    };
    p1 + p2 + p3 + p4
}

proof fn lemma_connected_facts(s: Seq<Seq<Color>>, w: int, h: int, x: int, y: int, i: int, j: int)
    requires
        connected(s, w, h, x, y, i, j),
    ensures
        in_region(w, h, i, j),
        s[i][j] == s[x][y],
{
    let path = choose|path: Seq<(int, int)>|
        #[trigger] is_path(s, w, h, s[x][y], path) && path.len() > 0 && path[0] == (x, y) && path[path.len()
            - 1] == (i, j);
    let k = path.len() - 1;
    assert(path[k] == (i, j));
}

proof fn lemma_start_connected(s: Seq<Seq<Color>>, w: int, h: int, x: int, y: int)
    requires
        in_region(w, h, x, y),
    ensures
        connected(s, w, h, x, y, x, y),
{
    let path = seq![(x, y)];
    assert(path[0] == (x, y));
    assert(is_path(s, w, h, s[x][y], path));
}

proof fn lemma_connected_step(
    s: Seq<Seq<Color>>,
    w: int,
    h: int,
    x: int,
    y: int,
    a: int,
    b: int,
    i: int,
    j: int,
)
    requires
        connected(s, w, h, x, y, a, b),
        adjacent((a, b), (i, j)),
        in_region(w, h, i, j),
        s[i][j] == s[x][y],
    ensures
        connected(s, w, h, x, y, i, j),
{
    let path = choose|path: Seq<(int, int)>|
        #[trigger] is_path(s, w, h, s[x][y], path) && path.len() > 0 && path[0] == (x, y) && path[path.len()
            - 1] == (a, b);
    let p2 = path.push((i, j));
    assert forall|k: int| 0 <= k < p2.len() - 1 implies adjacent(#[trigger] p2[k], p2[k + 1]) by {
        if k < path.len() - 1 {
            assert(p2[k] == path[k] && p2[k + 1] == path[k + 1]);
        } else {
            assert(p2[k] == (a, b));
        }
    }
    assert forall|k: int| 0 <= k < p2.len() implies in_region(w, h, (#[trigger] p2[k]).0, p2[k].1)
        && s[p2[k].0][p2[k].1] == s[x][y] by {
        if k < path.len() {
            assert(p2[k] == path[k]);
        }
    }
    assert(is_path(s, w, h, s[x][y], p2));
    assert(p2[0] == (x, y));
}

proof fn lemma_near_connected(s: Seq<Seq<Color>>, w: int, h: int, x: int, y: int, i: int, j: int)
    requires
        near(s, w, h, x, y, i, j),
        in_region(w, h, i, j),
        in_region(w, h, x, y),
        s[i][j] == s[x][y],
    ensures
        connected(s, w, h, x, y, i, j),
{
    if i == x && j == y {
        lemma_start_connected(s, w, h, x, y);
    } else if connected(s, w, h, x, y, i - 1, j) {
        lemma_connected_step(s, w, h, x, y, i - 1, j, i, j);
    } else if connected(s, w, h, x, y, i + 1, j) {
        lemma_connected_step(s, w, h, x, y, i + 1, j, i, j);
    } else if connected(s, w, h, x, y, i, j - 1) {
        lemma_connected_step(s, w, h, x, y, i, j - 1, i, j);
    } else {
        lemma_connected_step(s, w, h, x, y, i, j + 1, i, j);
    }
}

proof fn lemma_count_in_update(col: Seq<Color>, j: int, v: Color, c: Color)
    requires
        0 <= j < col.len(),
        col[j] == c,
        v != c,
    ensures
        count_in(col.update(j, v), c) + 1 == count_in(col, c),
    decreases col.len(),
{
    let col2 = col.update(j, v);
    if j == col.len() - 1 {
        assert(col2.drop_last() =~= col.drop_last());
    } else {
        lemma_count_in_update(col.drop_last(), j, v, c);
        assert(col2.drop_last() =~= col.drop_last().update(j, v));
    }
}

proof fn lemma_count_grid_update(s: Seq<Seq<Color>>, i: int, j: int, v: Color, c: Color)
    requires
        0 <= i < s.len(),
        0 <= j < s[i].len(),
        s[i][j] == c,
        v != c,
    ensures
        count_grid(s.update(i, s[i].update(j, v)), c) + 1 == count_grid(s, c),
    decreases s.len(),
{
    let s2 = s.update(i, s[i].update(j, v));
    if i == s.len() - 1 {
        assert(s2.drop_last() =~= s.drop_last());
        lemma_count_in_update(s[i], j, v, c);
    } else {
        lemma_count_grid_update(s.drop_last(), i, j, v, c);
        assert(s2.drop_last() =~= s.drop_last().update(i, s[i].update(j, v)));
    }
}

proof fn lemma_skip(
    s0: Seq<Seq<Color>>,
    w: int,
    h: int,
    x: int,
    y: int,
    c: Color,
    cur: Seq<Seq<Color>>,
    st: Seq<(usize, usize)>,
)
    requires
        fill_inv(s0, w, h, x, y, c, cur, st),
        st.len() > 0,
        !(st.last().0 < w && st.last().1 < h && cur[st.last().0 as int][st.last().1 as int] == s0[x][y]),
    ensures
        fill_inv(s0, w, h, x, y, c, cur, st.drop_last()),
{
    let o = s0[x][y];
    let st2 = st.drop_last();
    let p = st.last();
    assert(in_region(w, h, p.0 as int, p.1 as int)) by {
        assert(st[st.len() - 1] == p);
    }
    assert forall|a: int, b: int| handled(cur, s0, st, w, h, o, a, b) implies handled(
        cur,
        s0,
        st2,
        w,
        h,
        o,
        a,
        b,
    ) by {
        if in_region(w, h, a, b) && s0[a][b] == o && !changed(cur, s0, a, b) {
            let k = choose|k: int| 0 <= k < st.len() && (#[trigger] st[k]).0 == a && st[k].1 == b;
            if k == st.len() - 1 {
                assert(cur[a][b] == s0[a][b]);
                assert(false);
            } else {
                assert(st2[k] == st[k]);
            }
        }
    }
    assert forall|i: int, j: int|
        0 <= i < s0.len() && 0 <= j < s0[i].len() && #[trigger] changed(cur, s0, i, j) implies neighbours_handled(
        cur,
        s0,
        st2,
        w,
        h,
        o,
        i,
        j,
    ) by {
        assert(neighbours_handled(cur, s0, st, w, h, o, i, j));
    }
    assert forall|k: int| 0 <= k < st2.len() implies in_region(
        w,
        h,
        (#[trigger] st2[k]).0 as int,
        st2[k].1 as int,
    ) && near(s0, w, h, x, y, st2[k].0 as int, st2[k].1 as int) by {
        assert(st2[k] == st[k]);
    }
    assert(handled(cur, s0, st, w, h, o, x, y));
}

proof fn lemma_pushed(px: usize, py: usize, w: usize, h: usize)
    requires
        px < w,
        py < h,
    ensures
        forall|k: int|
            0 <= k < pushed(px, py, w, h).len() ==> in_region(
                w as int,
                h as int,
                (#[trigger] pushed(px, py, w, h)[k]).0 as int,
                pushed(px, py, w, h)[k].1 as int,
            ) && adjacent(
                (px as int, py as int),
                (pushed(px, py, w, h)[k].0 as int, pushed(px, py, w, h)[k].1 as int),
            ),
        forall|a: int, b: int|
            in_region(w as int, h as int, a, b) && adjacent((px as int, py as int), (a, b)) ==> on_stack(
                #[trigger] pushed(px, py, w, h),
                a,
                b,
            ),
{
    let p1 = if px > 0 {
        seq![((px - 1) as usize, py)]
    } else {
        Seq::<(usize, usize)>::empty()
    };
    let p2 = if px + 1 < w {
        seq![((px + 1) as usize, py)]
    } else {
        Seq::<(usize, usize)>::empty()
    };
    let p3 = if py > 0 {
        seq![(px, (py - 1) as usize)]
    } else {
        Seq::<(usize, usize)>::empty()
    };
    let p4 = if py + 1 < h {
        seq![(px, (py + 1) as usize)]
    } else {
        Seq::<(usize, usize)>::empty()
    };
    let add = pushed(px, py, w, h);
    assert(add == p1 + p2 + p3 + p4);
    let (n1, n2, n3) = (p1.len() as int, (p1.len() + p2.len()) as int, (p1.len() + p2.len() + p3.len()) as int);
    assert forall|k: int| 0 <= k < add.len() implies in_region(
        w as int,
        h as int,
        (#[trigger] add[k]).0 as int,
        add[k].1 as int,
    ) && adjacent((px as int, py as int), (add[k].0 as int, add[k].1 as int)) by {
        if k < n1 {
            assert(add[k] == p1[k]);
        } else if k < n2 {
            assert(add[k] == p2[k - n1]);
        } else if k < n3 {
            assert(add[k] == p3[k - n2]);
        } else {
            assert(add[k] == p4[k - n3]);
        }
    }
    assert forall|a: int, b: int|
        in_region(w as int, h as int, a, b) && adjacent((px as int, py as int), (a, b)) implies on_stack(
        #[trigger] pushed(px, py, w, h),
        a,
        b,
    ) by {
        if a == px - 1 {
            assert(add[0] == p1[0]);
        } else if a == px + 1 {
            assert(add[n1] == p2[0]);
        } else if b == py - 1 {
            assert(add[n2] == p3[0]);
        } else {
            assert(add[n3] == p4[0]);
        }
    }
}

proof fn lemma_on_stack_concat(base: Seq<(usize, usize)>, add: Seq<(usize, usize)>, a: int, b: int)
    ensures
        on_stack(base, a, b) ==> on_stack(base + add, a, b),
        on_stack(add, a, b) ==> on_stack(base + add, a, b),
{
    let st = base + add;
    if on_stack(base, a, b) {
        let k = choose|k: int| 0 <= k < base.len() && (#[trigger] base[k]).0 == a && base[k].1 == b;
        assert(st[k] == base[k]);
    }
    if on_stack(add, a, b) {
        let k = choose|k: int| 0 <= k < add.len() && (#[trigger] add[k]).0 == a && add[k].1 == b;
        assert(st[base.len() + k] == add[k]);
    }
}

proof fn lemma_paint_cells(
    s0: Seq<Seq<Color>>,
    w: int,
    h: int,
    x: int,
    y: int,
    c: Color,
    cur: Seq<Seq<Color>>,
    st: Seq<(usize, usize)>,
    pi: int,
    pj: int,
)
    requires
        fill_inv(s0, w, h, x, y, c, cur, st),
        0 <= pi < s0.len(),
        0 <= pj < s0[pi].len(),
        connected(s0, w, h, x, y, pi, pj),
    ensures
        same_shape(cur.update(pi, cur[pi].update(pj, c)), s0),
        forall|i: int, j: int|
            0 <= i < s0.len() && 0 <= j < s0[i].len() ==> #[trigger] cur.update(pi, cur[pi].update(pj, c))[i][j]
                == s0[i][j] || (cur.update(pi, cur[pi].update(pj, c))[i][j] == c && connected(
                s0,
                w,
                h,
                x,
                y,
                i,
                j,
            )),
{
    let cur2 = cur.update(pi, cur[pi].update(pj, c));
    assert forall|i: int, j: int|
        0 <= i < s0.len() && 0 <= j < s0[i].len() implies #[trigger] cur2[i][j] == s0[i][j] || (cur2[i][j] == c
        && connected(s0, w, h, x, y, i, j)) by {
        if i == pi && j == pj {
        } else {
            assert(cur2[i][j] == cur[i][j]);
        }
    }
}

proof fn lemma_paint_stack(
    s0: Seq<Seq<Color>>,
    w: usize,
    h: usize,
    x: int,
    y: int,
    c: Color,
    cur: Seq<Seq<Color>>,
    st: Seq<(usize, usize)>,
)
    requires
        fill_inv(s0, w as int, h as int, x, y, c, cur, st),
        st.len() > 0,
        st.last().0 < w,
        st.last().1 < h,
        connected(s0, w as int, h as int, x, y, st.last().0 as int, st.last().1 as int),
    ensures
        forall|k: int|
            0 <= k < (st.drop_last() + pushed(st.last().0, st.last().1, w, h)).len() ==> in_region(
                w as int,
                h as int,
                (#[trigger] (st.drop_last() + pushed(st.last().0, st.last().1, w, h))[k]).0 as int,
                (st.drop_last() + pushed(st.last().0, st.last().1, w, h))[k].1 as int,
            ) && near(
                s0,
                w as int,
                h as int,
                x,
                y,
                (st.drop_last() + pushed(st.last().0, st.last().1, w, h))[k].0 as int,
                (st.drop_last() + pushed(st.last().0, st.last().1, w, h))[k].1 as int,
            ),
{
    let (px, py) = (st.last().0, st.last().1);
    let base = st.drop_last();
    let add = pushed(px, py, w, h);
    let st2 = base + add;
    lemma_pushed(px, py, w, h);
    assert forall|k: int| 0 <= k < st2.len() implies in_region(
        w as int,
        h as int,
        (#[trigger] st2[k]).0 as int,
        st2[k].1 as int,
    ) && near(s0, w as int, h as int, x, y, st2[k].0 as int, st2[k].1 as int) by {
        if k < base.len() {
            assert(st2[k] == st[k]);
        } else {
            let q = add[k - base.len()];
            assert(st2[k] == q);
            assert(adjacent((px as int, py as int), (q.0 as int, q.1 as int)));
        }
    }
}

proof fn lemma_handled_step(
    s0: Seq<Seq<Color>>,
    w: usize,
    h: usize,
    o: Color,
    c: Color,
    cur: Seq<Seq<Color>>,
    st: Seq<(usize, usize)>,
    a: int,
    b: int,
)
    requires
        st.len() > 0,
        st.last().0 < w,
        st.last().1 < h,
        cur[st.last().0 as int][st.last().1 as int] == s0[st.last().0 as int][st.last().1 as int],
        cur[st.last().0 as int][st.last().1 as int] == o,
        c != o,
        covers(cur, w as int, h as int),
        handled(cur, s0, st, w as int, h as int, o, a, b) || (in_region(w as int, h as int, a, b) && adjacent(
            (st.last().0 as int, st.last().1 as int),
            (a, b),
        )),
    ensures
        handled(
            cur.update(st.last().0 as int, cur[st.last().0 as int].update(st.last().1 as int, c)),
            s0,
            st.drop_last() + pushed(st.last().0, st.last().1, w, h),
            w as int,
            h as int,
            o,
            a,
            b,
        ),
{
    let (wi, hi) = (w as int, h as int);
    let (px, py) = (st.last().0, st.last().1);
    let (pi, pj) = (px as int, py as int);
    let cur2 = cur.update(pi, cur[pi].update(pj, c));
    let base = st.drop_last();
    let add = pushed(px, py, w, h);
    let st2 = base + add;
    lemma_on_stack_concat(base, add, a, b);
    if !in_region(wi, hi, a, b) {
    } else if adjacent((pi, pj), (a, b)) {
        lemma_pushed(px, py, w, h);
        assert(on_stack(pushed(px, py, w, h), a, b));
    } else if s0[a][b] == o && !changed(cur, s0, a, b) {
        let k = choose|k: int| 0 <= k < st.len() && (#[trigger] st[k]).0 == a && st[k].1 == b;
        if k == st.len() - 1 {
            assert(st[st.len() - 1] == st.last());
            assert(a == pi && b == pj);
            assert(changed(cur2, s0, a, b));
        } else {
            assert(base[k] == st[k]);
            assert(on_stack(base, a, b));
        }
    } else if changed(cur, s0, a, b) {
        if !(a == pi && b == pj) {
            assert(cur2[a][b] == cur[a][b]);
        }
        assert(changed(cur2, s0, a, b));
    }
}

proof fn lemma_paint_handled(
    s0: Seq<Seq<Color>>,
    w: usize,
    h: usize,
    x: int,
    y: int,
    c: Color,
    cur: Seq<Seq<Color>>,
    st: Seq<(usize, usize)>,
)
    requires
        fill_inv(s0, w as int, h as int, x, y, c, cur, st),
        st.len() > 0,
        st.last().0 < w,
        st.last().1 < h,
        cur[st.last().0 as int][st.last().1 as int] == s0[x][y],
    ensures
        ({
            let (px, py) = (st.last().0, st.last().1);
            let cur2 = cur.update(px as int, cur[px as int].update(py as int, c));
            let st2 = st.drop_last() + pushed(px, py, w, h);
            &&& forall|i: int, j: int|
                0 <= i < s0.len() && 0 <= j < s0[i].len() && #[trigger] changed(cur2, s0, i, j)
                    ==> neighbours_handled(cur2, s0, st2, w as int, h as int, s0[x][y], i, j)
            &&& changed(cur2, s0, x, y) || on_stack(st2, x, y)
        }),
{
    let o = s0[x][y];
    let (wi, hi) = (w as int, h as int);
    let (px, py) = (st.last().0, st.last().1);
    let (pi, pj) = (px as int, py as int);
    let cur2 = cur.update(pi, cur[pi].update(pj, c));
    let st2 = st.drop_last() + pushed(px, py, w, h);
    assert(st[st.len() - 1] == st.last());
    assert(cur[pi][pj] == s0[pi][pj]);
    assert forall|i: int, j: int|
        0 <= i < s0.len() && 0 <= j < s0[i].len() && #[trigger] changed(cur2, s0, i, j) implies neighbours_handled(
        cur2,
        s0,
        st2,
        wi,
        hi,
        o,
        i,
        j,
    ) by {
        if i == pi && j == pj {
            assert(adjacent((pi, pj), (i - 1, j)));
            assert(adjacent((pi, pj), (i + 1, j)));
            assert(adjacent((pi, pj), (i, j - 1)));
            assert(adjacent((pi, pj), (i, j + 1)));
        } else {
            assert(cur2[i][j] == cur[i][j]);
            assert(changed(cur, s0, i, j));
            assert(neighbours_handled(cur, s0, st, wi, hi, o, i, j));
        }
        lemma_handled_step(s0, w, h, o, c, cur, st, i - 1, j);
        lemma_handled_step(s0, w, h, o, c, cur, st, i + 1, j);
        lemma_handled_step(s0, w, h, o, c, cur, st, i, j - 1);
        lemma_handled_step(s0, w, h, o, c, cur, st, i, j + 1);
    }
    assert(handled(cur, s0, st, wi, hi, o, x, y));
    lemma_handled_step(s0, w, h, o, c, cur, st, x, y);
    assert(handled(cur2, s0, st2, wi, hi, o, x, y));
    lemma_start_connected(s0, wi, hi, x, y);
}

proof fn lemma_paint(
    s0: Seq<Seq<Color>>,
    w: usize,
    h: usize,
    x: int,
    y: int,
    c: Color,
    cur: Seq<Seq<Color>>,
    st: Seq<(usize, usize)>,
)
    requires
        fill_inv(s0, w as int, h as int, x, y, c, cur, st),
        st.len() > 0,
        st.last().0 < w,
        st.last().1 < h,
        cur[st.last().0 as int][st.last().1 as int] == s0[x][y],
    ensures
        ({
            let px = st.last().0;
            let py = st.last().1;
            let cur2 = cur.update(px as int, cur[px as int].update(py as int, c));
            &&& fill_inv(s0, w as int, h as int, x, y, c, cur2, st.drop_last() + pushed(px, py, w, h))
            &&& count_grid(cur2, s0[x][y]) < count_grid(cur, s0[x][y])
        }),
{
    let (wi, hi) = (w as int, h as int);
    let (px, py) = (st.last().0, st.last().1);
    let (pi, pj) = (px as int, py as int);
    assert(st[st.len() - 1] == st.last());
    assert(cur[pi][pj] == s0[pi][pj]);
    assert(near(s0, wi, hi, x, y, pi, pj));
    lemma_near_connected(s0, wi, hi, x, y, pi, pj);
    lemma_count_grid_update(cur, pi, pj, c, s0[x][y]);
    lemma_paint_cells(s0, wi, hi, x, y, c, cur, st, pi, pj);
    lemma_paint_stack(s0, w, h, x, y, c, cur, st);
    lemma_paint_handled(s0, w, h, x, y, c, cur, st);
}

proof fn lemma_done_covers_path(
    s0: Seq<Seq<Color>>,
    w: int,
    h: int,
    x: int,
    y: int,
    c: Color,
    cur: Seq<Seq<Color>>,
    path: Seq<(int, int)>,
)
    requires
        fill_inv(s0, w, h, x, y, c, cur, Seq::empty()),
        is_path(s0, w, h, s0[x][y], path),
        path.len() > 0,
        path[0] == (x, y),
    ensures
        changed(cur, s0, path[path.len() - 1].0, path[path.len() - 1].1),
    decreases path.len(),
{
    let st = Seq::<(usize, usize)>::empty();
    let o = s0[x][y];
    if path.len() == 1 {
        assert(!on_stack(st, x, y));
    } else {
        let prefix = path.drop_last();
        assert forall|k: int| 0 <= k < prefix.len() - 1 implies adjacent(#[trigger] prefix[k], prefix[k + 1]) by {
            assert(prefix[k] == path[k] && prefix[k + 1] == path[k + 1]);
        }
        assert forall|k: int| 0 <= k < prefix.len() implies in_region(w, h, (#[trigger] prefix[k]).0, prefix[k].1)
            && s0[prefix[k].0][prefix[k].1] == o by {
            assert(prefix[k] == path[k]);
        }
        lemma_done_covers_path(s0, w, h, x, y, c, cur, prefix);
        let n = path.len() - 1;
        let p = path[n - 1];
        let q = path[n];
        assert(prefix[prefix.len() - 1] == p);
        assert(adjacent(path[n - 1], path[n]));
        assert(in_region(w, h, p.0, p.1));
        assert(neighbours_handled(cur, s0, st, w, h, o, p.0, p.1));
        assert(in_region(w, h, q.0, q.1) && s0[q.0][q.1] == o);
        assert(!on_stack(st, q.0, q.1));
    }
}

proof fn lemma_done(
    s0: Seq<Seq<Color>>,
    w: int,
    h: int,
    x: int,
    y: int,
    c: Color,
    cur: Seq<Seq<Color>>,
)
    requires
        fill_inv(s0, w, h, x, y, c, cur, Seq::empty()),
    ensures
        cur =~= flood_filled(s0, w, h, x, y, c),
{
    let f = flood_filled(s0, w, h, x, y, c);
    assert forall|i: int| 0 <= i < s0.len() implies #[trigger] cur[i] =~= f[i] by {
        assert forall|j: int| 0 <= j < s0[i].len() implies #[trigger] cur[i][j] == f[i][j] by {
            if connected(s0, w, h, x, y, i, j) {
                let path = choose|path: Seq<(int, int)>|
                    #[trigger] is_path(s0, w, h, s0[x][y], path) && path.len() > 0 && path[0] == (x, y)
                        && path[path.len() - 1] == (i, j);
                lemma_done_covers_path(s0, w, h, x, y, c, cur, path);
                assert(cur[i][j] == c);
            } else {
                assert(cur[i][j] == s0[i][j]);
            }
        }
    }
}

/// Flood fill from `(x, y)` with colour `c` inside the `w` by `h` region:
/// every cell reachable from `(x, y)` through edge-adjacent cells of the
/// same colour as `(x, y)` takes colour `c`; no other cell changes.
pub fn flood_fill(g: &mut Vec<Vec<Color>>, w: usize, h: usize, x: usize, y: usize, c: Color)
    requires
        covers(cells(old(g)), w as int, h as int),
        x < w,
        y < h,
    ensures
        cells(final(g)) == flood_filled(cells(old(g)), w as int, h as int, x as int, y as int, c),
{
    let ghost s0 = cells(g);
    assert(g@[x as int]@ == s0[x as int]);
    let old_color = g[x][y];
    if old_color == c {
        assert(s0 =~= flood_filled(s0, w as int, h as int, x as int, y as int, c)) by {
            let f = flood_filled(s0, w as int, h as int, x as int, y as int, c);
            assert forall|i: int| 0 <= i < s0.len() implies #[trigger] s0[i] =~= f[i] by {
                assert forall|j: int| 0 <= j < s0[i].len() implies #[trigger] s0[i][j] == f[i][j] by {
                    if connected(s0, w as int, h as int, x as int, y as int, i, j) {
                        lemma_connected_facts(s0, w as int, h as int, x as int, y as int, i, j);
                    }
                }
            }
        }
        return;
    }
    let mut stack: Vec<(usize, usize)> = Vec::new();
    stack.push((x, y));
    assert(stack@[0] == (x, y));
    assert(fill_inv(s0, w as int, h as int, x as int, y as int, c, cells(g), stack@));
    while stack.len() > 0
        invariant
            fill_inv(s0, w as int, h as int, x as int, y as int, c, cells(g), stack@),
            old_color == s0[x as int][y as int],
            s0 == cells(old(g)),
        decreases count_grid(cells(g), old_color), stack@.len(),
    {
        let ghost st = stack@;
        let ghost cur = cells(g);
        let (px, py) = stack.pop().unwrap();
        assert(st.last() == (px, py));
        if px >= w || py >= h {
            proof {
                lemma_skip(s0, w as int, h as int, x as int, y as int, c, cur, st);
            }
            continue;
        }
        assert(g@[px as int]@ == cur[px as int]);
        if g[px][py] != old_color {
            proof {
                lemma_skip(s0, w as int, h as int, x as int, y as int, c, cur, st);
            }
            continue;
        }
        g[px][py] = c;
        proof {
            assert(cells(g) =~= cur.update(px as int, cur[px as int].update(py as int, c))) by {
                assert forall|i: int| 0 <= i < cur.len() implies #[trigger] cells(g)[i] == cur.update(
                    px as int,
                    cur[px as int].update(py as int, c),
                )[i] by {
                    assert(cells(g)[i] == g@[i]@);
                }
            }
            lemma_paint(s0, w, h, x as int, y as int, c, cur, st);
        }
        let ghost base = stack@;
        if px > 0 {
            stack.push((px - 1, py));
        }
        if px < w - 1 {
            stack.push((px + 1, py));
        }
        if py > 0 {
            stack.push((px, py - 1));
        }
        if py < h - 1 {
            stack.push((px, py + 1));
        }
        assert(stack@ =~= base + pushed(px, py, w, h));
    }
    proof {
        assert(stack@ =~= Seq::<(usize, usize)>::empty());
        lemma_done(s0, w as int, h as int, x as int, y as int, c, cells(g));
    }
}

/// After a flood fill the starting cell has the fill colour, and filling
/// again from the same cell with the same colour changes nothing.
pub proof fn law_fill_idempotent(s: Seq<Seq<Color>>, w: int, h: int, x: int, y: int, c: Color)
    requires
        covers(s, w, h),
        in_region(w, h, x, y),
    ensures
        flood_filled(s, w, h, x, y, c)[x][y] == c,
        flood_filled(flood_filled(s, w, h, x, y, c), w, h, x, y, c) == flood_filled(s, w, h, x, y, c),
{
    let f = flood_filled(s, w, h, x, y, c);
    lemma_start_connected(s, w, h, x, y);
    assert(f[x][y] == c);
    let g = flood_filled(f, w, h, x, y, c);
    assert forall|i: int| 0 <= i < f.len() implies #[trigger] g[i] =~= f[i] by {
        assert forall|j: int| 0 <= j < f[i].len() implies #[trigger] g[i][j] == f[i][j] by {
            if connected(f, w, h, x, y, i, j) {
                lemma_connected_facts(f, w, h, x, y, i, j);
            }
        }
    }
    assert(g =~= f);
}

/// A fill whose colour is already that of the starting cell changes
/// nothing.
pub proof fn law_fill_same_color(s: Seq<Seq<Color>>, w: int, h: int, x: int, y: int)
    ensures
        flood_filled(s, w, h, x, y, s[x][y]) == s,
{
    let f = flood_filled(s, w, h, x, y, s[x][y]);
    assert forall|i: int| 0 <= i < s.len() implies #[trigger] f[i] =~= s[i] by {
        assert forall|j: int| 0 <= j < s[i].len() implies #[trigger] f[i][j] == s[i][j] by {
            if connected(s, w, h, x, y, i, j) {
                lemma_connected_facts(s, w, h, x, y, i, j);
            }
        }
    }
    assert(f =~= s);
}

} // verus!
