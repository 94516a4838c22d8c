//! Layers: a rectangular pixel grid with visibility, an optional name and
//! an edit lock.

use vstd::prelude::*;
use crate::color::{Color, transparent};
use crate::grid::{brush_cells_exist, lemma_cells, cells, covers, filled, first_height, is_rect, new_grid, painted, paint_square, same_shape};
use crate::fill::{flood_filled, flood_fill};

verus! {

/// The mathematical content of a layer.
#[verifier::ext_equal]
pub struct LayerView {
    /// The pixels, indexed `[x][y]`.
    pub pixels: Seq<Seq<Color>>,
    pub visible: bool,
    pub name: Option<Seq<char>>,
    pub locked: bool,
}

/// All columns of the grid are as long as the first one.
pub open spec fn rectangular(s: Seq<Seq<Color>>) -> bool {
    is_rect(s, s.len() as int, first_height(s))
}

/// `s` resized to `w` by `h`: the overlapping corner is kept, new cells
/// are transparent.
pub open spec fn resized(s: Seq<Seq<Color>>, w: int, h: int) -> Seq<Seq<Color>> {
    Seq::new(
        w as nat,
        |i: int|
            Seq::new(
                h as nat,
                |j: int|
                    if i < s.len() && j < first_height(s) {
                        s[i][j]
                    } else {
                        transparent()
                    },
            ),
    )
}

/// `top` laid over `bottom`: every non-transparent cell of `top` wins.
pub open spec fn merged(bottom: Seq<Seq<Color>>, top: Seq<Seq<Color>>) -> Seq<Seq<Color>> {
    Seq::new(
        bottom.len(),
        |i: int|
            Seq::new(
                bottom[i].len(),
                |j: int|
                    if top[i][j] != transparent() {
                        top[i][j]
                    } else {
                        bottom[i][j]
                    },
            ),
    )
}

/// The colour at `(x, y)`, or `None` outside the layer.
pub open spec fn pixel_at(v: LayerView, x: int, y: int) -> Option<Color> {
    if 0 <= x < v.pixels.len() && 0 <= y < first_height(v.pixels) {
        Some(v.pixels[x][y])
    } else {
        None
    }
}

/// The layer with `(x, y)` set to `c`.
pub open spec fn with_pixel(v: LayerView, x: int, y: int, c: Color) -> LayerView {
    LayerView { pixels: v.pixels.update(x, v.pixels[x].update(y, c)), ..v }
}

/// The suffix that a duplicated layer's name gets.
pub open spec fn copy_suffix() -> Seq<char> {
    " (копия)"@
}

/// A layer of pixel art.
pub struct Layer {
    pixels: Vec<Vec<Color>>,
    visible: bool,
    name: Option<String>,
    locked: bool,
}

impl View for Layer {
    type V = LayerView;

    closed spec fn view(&self) -> LayerView {
        LayerView {
            pixels: cells(&self.pixels),
            visible: self.visible,
            name: match self.name {
                Some(n) => Some(n@),
                None => None,
            },
            locked: self.locked,
        }
    }
}

impl Layer {
    #[verifier::type_invariant]
    spec fn inv(self) -> bool {
        rectangular(cells(&self.pixels))
    }

    /// A new visible, unlocked, unnamed layer of `width` by `height`
    /// transparent pixels.
    pub fn new(width: usize, height: usize) -> (l: Layer)
        ensures
            l@ == (LayerView {
                pixels: filled(width as int, height as int, transparent()),
                visible: true,
                name: None,
                locked: false,
            }),
            is_rect(l@.pixels, width as int, height as int),
    {
        let pixels = new_grid(width, height, Color::transparent());
        Layer { pixels, visible: true, name: None, locked: false }
    }

    /// A visible, unlocked, unnamed layer holding the given rectangular grid.
    pub fn from_pixels(pixels: Vec<Vec<Color>>) -> (l: Layer)
        requires
            rectangular(cells(&pixels)),
        ensures
            l@ == (LayerView { pixels: cells(&pixels), visible: true, name: None, locked: false }),
    {
        Layer { pixels, visible: true, name: None, locked: false }
    }

    /// Paints the brush square of side `size` at `(x, y)`, clipped to the
    /// `w` by `h` region, whatever the lock: the canvas tools draw on the
    /// active layer directly.
    pub fn paint_square(&mut self, w: usize, h: usize, x: usize, y: usize, size: usize, color: Color)
        requires
            brush_cells_exist(old(self)@.pixels, w as int, h as int, x as int, y as int, size as int),
        ensures
            final(self)@ == (LayerView {
                pixels: painted(old(self)@.pixels, w as int, h as int, x as int, y as int, size as int, color),
                ..old(self)@
            }),
    {
        proof {
            use_type_invariant(&*self);
        }
        let ghost s0 = cells(&self.pixels);
        let mut px: Vec<Vec<Color>> = Vec::new();
        std::mem::swap(&mut px, &mut self.pixels);
        paint_square(&mut px, w, h, x, y, size, color);
        proof {
            let p = painted(s0, w as int, h as int, x as int, y as int, size as int, color);
            assert(same_shape(p, s0));
        }
        self.pixels = px;
    }

    /// Flood-fills from `(x, y)` with `color` inside the `w` by `h` region,
    /// whatever the lock, as the canvas fill tool does.
    pub fn flood_fill(&mut self, w: usize, h: usize, x: usize, y: usize, color: Color)
        requires
            covers(old(self)@.pixels, w as int, h as int),
            x < w,
            y < h,
        ensures
            final(self)@ == (LayerView {
                pixels: flood_filled(old(self)@.pixels, w as int, h as int, x as int, y as int, color),
                ..old(self)@
            }),
    {
        proof {
            use_type_invariant(&*self);
        }
        let ghost s0 = cells(&self.pixels);
        let mut px: Vec<Vec<Color>> = Vec::new();
        std::mem::swap(&mut px, &mut self.pixels);
        flood_fill(&mut px, w, h, x, y, color);
        proof {
            let p = flood_filled(s0, w as int, h as int, x as int, y as int, color);
            assert(same_shape(p, s0));
        }
        self.pixels = px;
    }

    /// The width in pixels (the number of columns).
    pub fn width(&self) -> (w: usize)
        ensures
            w == self@.pixels.len(),
            rectangular(self@.pixels),
    {
        proof {
            use_type_invariant(self);
        }
        self.pixels.len()
    }

    /// The height in pixels (the length of the first column, 0 when there
    /// is none).
    pub fn height(&self) -> (h: usize)
        ensures
            h == first_height(self@.pixels),
            rectangular(self@.pixels),
    {
        proof {
            use_type_invariant(self);
        }
        if self.pixels.len() == 0 {
            0
        } else {
            self.pixels[0].len()
        }
    }

    /// Whether the layer is visible.
    pub fn is_visible(&self) -> (v: bool)
        ensures
            v == self@.visible,
    {
        self.visible
    }

    /// Sets the visibility; nothing else changes.
    pub fn set_visible(&mut self, visible: bool)
        ensures
            final(self)@ == (LayerView { visible, ..old(self)@ }),
    {
        proof {
            use_type_invariant(&*self);
        }
        self.visible = visible;
    }

    /// Whether the layer is locked against editing.
    pub fn is_locked(&self) -> (l: bool)
        ensures
            l == self@.locked,
    {
        self.locked
    }

    /// Sets the lock; nothing else changes.
    pub fn set_locked(&mut self, locked: bool)
        ensures
            final(self)@ == (LayerView { locked, ..old(self)@ }),
    {
        proof {
            use_type_invariant(&*self);
        }
        self.locked = locked;
    }

    /// The name, if the layer has one.
    pub fn name(&self) -> (n: Option<&str>)
        ensures
            match n {
                Some(s) => self@.name == Some(s@),
                None => self@.name is None,
            },
    {
        match &self.name {
            Some(s) => Some(s.as_str()),
            None => None,
        }
    }

    /// Gives the layer a name; nothing else changes.
    pub fn set_name(&mut self, name: &str)
        ensures
            final(self)@ == (LayerView { name: Some(name@), ..old(self)@ }),
    {
        proof {
            use_type_invariant(&*self);
        }
        self.name = Some(String::from_str(name));
    }

    /// The colour at `(x, y)`, or `None` outside the layer.
    pub fn get_pixel(&self, x: usize, y: usize) -> (c: Option<Color>)
        ensures
            c == pixel_at(self@, x as int, y as int),
    {
        proof {
            use_type_invariant(self);
        }
        if x < self.width() && y < self.height() {
            assert(self@.pixels[x as int] == self.pixels@[x as int]@);
            Some(self.pixels[x][y])
        } else {
            None
        }
    }

    /// Sets `(x, y)` to `color` when the layer is unlocked and the cell
    /// exists; returns whether it did.  Nothing else changes.
    pub fn set_pixel(&mut self, x: usize, y: usize, color: Color) -> (done: bool)
        ensures
            done == (!old(self)@.locked && x < old(self)@.pixels.len() && y < first_height(old(self)@.pixels)),
            final(self)@ == if done {
                with_pixel(old(self)@, x as int, y as int, color)
            } else {
                old(self)@
            },
    {
        proof {
            use_type_invariant(&*self);
        }
        if self.locked || x >= self.width() || y >= self.height() {
            return false;
        }
        let ghost s0 = cells(&self.pixels);
        let mut px: Vec<Vec<Color>> = Vec::new();
        std::mem::swap(&mut px, &mut self.pixels);
        assert(px@[x as int]@ == s0[x as int]);
        px[x][y] = color;
        assert(cells(&px) =~= s0.update(x as int, s0[x as int].update(y as int, color))) by {
            assert forall|i: int| 0 <= i < s0.len() implies #[trigger] cells(&px)[i] == s0.update(
                x as int,
                s0[x as int].update(y as int, color),
            )[i] by {
                assert(cells(&px)[i] == px@[i]@);
            }
        }
        self.pixels = px;
        true
    }

    /// Fills the whole layer with `color`, unless it is locked.
    pub fn fill(&mut self, color: Color)
        ensures
            final(self)@ == if old(self)@.locked {
                old(self)@
            } else {
                LayerView {
                    pixels: filled(old(self)@.pixels.len() as int, first_height(old(self)@.pixels), color),
                    ..old(self)@
                }
            },
    {
        proof {
            use_type_invariant(&*self);
        }
        if self.locked {
            return;
        }
        let w = self.width();
        let h = self.height();
        self.pixels = new_grid(w, h, color);
    }

    /// Crops or extends the layer to `new_width` by `new_height`; the
    /// overlapping part keeps its pixels, new pixels are transparent.
    pub fn resize(&mut self, new_width: usize, new_height: usize)
        ensures
            final(self)@ == (LayerView {
                pixels: resized(old(self)@.pixels, new_width as int, new_height as int),
                ..old(self)@
            }),
            final(self)@.pixels.len() == new_width,
            forall|i: int| 0 <= i < new_width ==> #[trigger] final(self)@.pixels[i].len() == new_height,
            forall|i: int, j: int|
                0 <= i < new_width && 0 <= j < new_height ==> #[trigger] final(self)@.pixels[i][j] == if i
                    < old(self)@.pixels.len() && j < first_height(old(self)@.pixels) {
                    old(self)@.pixels[i][j]
                } else {
                    Color { r: 0, g: 0, b: 0, a: 0 }
                },
    {
        proof {
            use_type_invariant(&*self);
        }
        let ghost s0 = cells(&self.pixels);
        let mut new_pixels = new_grid(new_width, new_height, Color::transparent());
        proof {
            lemma_cells(&new_pixels);
        }
        let copy_width = if self.width() < new_width {
            self.width()
        } else {
            new_width
        };
        let copy_height = if self.height() < new_height {
            self.height()
        } else {
            new_height
        };
        let mut x: usize = 0;
        while x < copy_width
            invariant
                x <= copy_width,
                copy_width <= new_width,
                copy_width <= s0.len(),
                copy_height <= new_height,
                copy_height <= first_height(s0),
                rectangular(s0),
                s0 == cells(&self.pixels),
                new_pixels@.len() == new_width,
                forall|i: int| 0 <= i < new_width ==> (#[trigger] new_pixels@[i])@.len() == new_height,
                forall|i: int, j: int|
                    0 <= i < new_width && 0 <= j < new_height ==> #[trigger] new_pixels@[i]@[j] == if i < x && j
                        < copy_height {
                        s0[i][j]
                    } else {
                        transparent()
                    },
            decreases copy_width - x,
        {
            let mut y: usize = 0;
            while y < copy_height
                invariant
                    x < copy_width,
                    y <= copy_height,
                    copy_width <= new_width,
                    copy_width <= s0.len(),
                    copy_height <= new_height,
                    copy_height <= first_height(s0),
                    rectangular(s0),
                    s0 == cells(&self.pixels),
                    new_pixels@.len() == new_width,
                    forall|i: int| 0 <= i < new_width ==> (#[trigger] new_pixels@[i])@.len() == new_height,
                    forall|i: int, j: int|
                        0 <= i < new_width && 0 <= j < new_height ==> #[trigger] new_pixels@[i]@[j] == if (i < x
                            && j < copy_height) || (i == x && j < y) {
                            s0[i][j]
                        } else {
                            transparent()
                        },
                decreases copy_height - y,
            {
                assert(self.pixels@[x as int]@ == s0[x as int]);
                let c = self.pixels[x][y];
                new_pixels[x][y] = c;
                y = y + 1;
            }
            x = x + 1;
        }
        let ghost target = resized(s0, new_width as int, new_height as int);
        assert(cells(&new_pixels) =~= target) by {
            assert forall|i: int| 0 <= i < new_width implies #[trigger] cells(&new_pixels)[i] =~= target[i] by {
                assert(cells(&new_pixels)[i] == new_pixels@[i]@);
            }
        }
        self.pixels = new_pixels;
    }

    /// A copy of the layer; a name, if any, gets the suffix " (копия)".
    pub fn duplicate(&self) -> (d: Layer)
        ensures
            d@ == (LayerView {
                name: match self@.name {
                    Some(n) => Some(n + copy_suffix()),
                    None => None,
                },
                ..self@
            }),
    {
        proof {
            use_type_invariant(self);
        }
        let ghost s0 = cells(&self.pixels);
        let mut pixels: Vec<Vec<Color>> = Vec::new();
        let mut i: usize = 0;
        while i < self.pixels.len()
            invariant
                i <= self.pixels@.len(),
                s0 == cells(&self.pixels),
                pixels@.len() == i,
                forall|k: int| 0 <= k < i ==> #[trigger] pixels@[k]@ == s0[k],
            decreases self.pixels@.len() - i,
        {
            let mut col: Vec<Color> = Vec::new();
            let mut j: usize = 0;
            assert(self.pixels@[i as int]@ == s0[i as int]);
            while j < self.pixels[i].len()
                invariant
                    i < self.pixels@.len(),
                    j <= self.pixels@[i as int]@.len(),
                    col@ == self.pixels@[i as int]@.subrange(0, j as int),
                decreases self.pixels@[i as int]@.len() - j,
            {
                col.push(self.pixels[i][j]);
                j = j + 1;
                assert(col@ =~= self.pixels@[i as int]@.subrange(0, j as int));
            }
            assert(col@ =~= self.pixels@[i as int]@);
            pixels.push(col);
            i = i + 1;
        }
        assert(cells(&pixels) =~= s0) by {
            assert forall|k: int| 0 <= k < s0.len() implies #[trigger] cells(&pixels)[k] == s0[k] by {
                assert(cells(&pixels)[k] == pixels@[k]@);
            }
        }
        let name = match &self.name {
            Some(n) => {
                let mut copy = n.clone();
                copy.append(" (копия)");
                Some(copy)
            },
            None => None,
        };
        Layer { pixels, visible: self.visible, name, locked: self.locked }
    }

    /// Lays `other` over this layer when both have the same width and
    /// height: each non-transparent pixel of `other` replaces the pixel
    /// below it.  Layers of different size leave this one unchanged.
    pub fn merge_with(&mut self, other: &Layer)
        ensures
            final(self)@ == if old(self)@.pixels.len() == other@.pixels.len() && first_height(old(self)@.pixels)
                == first_height(other@.pixels) {
                LayerView { pixels: merged(old(self)@.pixels, other@.pixels), ..old(self)@ }
            } else {
                old(self)@
            },
            old(self)@.pixels.len() == other@.pixels.len() && first_height(old(self)@.pixels) == first_height(
                other@.pixels,
            ) ==> forall|i: int, j: int|
                0 <= i < old(self)@.pixels.len() && 0 <= j < old(self)@.pixels[i].len() ==> #[trigger] final(self)@.pixels[i][j] == if other@.pixels[i][j] != (Color { r: 0, g: 0, b: 0, a: 0 }) {
                    other@.pixels[i][j]
                } else {
                    old(self)@.pixels[i][j]
                },
    {
        proof {
            use_type_invariant(&*self);
            use_type_invariant(other);
        }
        if self.width() != other.width() || self.height() != other.height() {
            return;
        }
        let ghost s0 = cells(&self.pixels);
        let ghost t = cells(&other.pixels);
        let mut px: Vec<Vec<Color>> = Vec::new();
        std::mem::swap(&mut px, &mut self.pixels);
        proof {
            lemma_cells(&px);
        }
        let w = px.len();
        let h = if w == 0 {
            0
        } else {
            px[0].len()
        };
        assert(h == first_height(s0)) by {
            if w > 0 {
                assert(px@[0]@ == s0[0]);
            }
        }
        let mut x: usize = 0;
        while x < w
            invariant
                x <= w,
                w == s0.len(),
                h == first_height(s0),
                rectangular(s0),
                rectangular(t),
                t.len() == w,
                first_height(t) == h,
                t == cells(&other.pixels),
                px@.len() == w,
                forall|i: int| 0 <= i < w ==> (#[trigger] px@[i])@.len() == h,
                forall|i: int, j: int|
                    0 <= i < w && 0 <= j < h ==> #[trigger] px@[i]@[j] == if i < x {
                        merged(s0, t)[i][j]
                    } else {
                        s0[i][j]
                    },
            decreases w - x,
        {
            let mut y: usize = 0;
            while y < h
                invariant
                    x < w,
                    y <= h,
                    w == s0.len(),
                    h == first_height(s0),
                    rectangular(s0),
                    rectangular(t),
                    t.len() == w,
                    first_height(t) == h,
                    t == cells(&other.pixels),
                    px@.len() == w,
                    forall|i: int| 0 <= i < w ==> (#[trigger] px@[i])@.len() == h,
                    forall|i: int, j: int|
                        0 <= i < w && 0 <= j < h ==> #[trigger] px@[i]@[j] == if i < x || (i == x && j < y) {
                            merged(s0, t)[i][j]
                        } else {
                            s0[i][j]
                        },
                decreases h - y,
            {
                assert(other.pixels@[x as int]@ == t[x as int]);
                let other_color = other.pixels[x][y];
                if !other_color.is_transparent() {
                    px[x][y] = other_color;
                }
                y = y + 1;
            }
            x = x + 1;
        }
        assert(cells(&px) =~= merged(s0, t)) by {
            assert forall|i: int| 0 <= i < w implies #[trigger] cells(&px)[i] =~= merged(s0, t)[i] by {
                assert(cells(&px)[i] == px@[i]@);
            }
        }
        self.pixels = px;
    }
}

/// Reading a pixel back after writing it gives the colour written, and
/// every other pixel reads as before.
pub proof fn law_write_then_read(v: LayerView, x: int, y: int, c: Color, i: int, j: int)
    requires
        rectangular(v.pixels),
        0 <= x < v.pixels.len(),
        0 <= y < first_height(v.pixels),
    ensures
        pixel_at(with_pixel(v, x, y, c), x, y) == Some(c),
        (i != x || j != y) ==> pixel_at(with_pixel(v, x, y, c), i, j) == pixel_at(v, i, j),
        rectangular(with_pixel(v, x, y, c).pixels),
{
    let p = with_pixel(v, x, y, c).pixels;
    if v.pixels.len() > 0 {
        assert(p[0].len() == v.pixels[0].len());
    }
    assert forall|k: int| 0 <= k < p.len() implies #[trigger] p[k].len() == first_height(p) by {
        assert(p[k].len() == v.pixels[k].len());
    }
}

/// After a fill every pixel of the layer reads as the fill colour.
pub proof fn law_fill_then_read(w: int, h: int, c: Color, x: int, y: int)
    requires
        0 <= x < w,
        0 <= y < h,
    ensures
        filled(w, h, c)[x][y] == c,
        first_height(filled(w, h, c)) == h,
{
}

/// Growing a layer and shrinking it back to its old size gives back the
/// pixels it had; resizing to the current size changes nothing.
pub proof fn law_resize_round_trip(s: Seq<Seq<Color>>, w: int, h: int, big_w: int, big_h: int)
    requires
        is_rect(s, w, h),
        0 <= w <= big_w,
        0 <= h <= big_h,
    ensures
        resized(resized(s, big_w, big_h), w, h) == s,
        resized(s, w, h) == s,
{
    let r = resized(s, big_w, big_h);
    if w > 0 {
        assert(first_height(s) == h);
    }
    if big_w > 0 {
        assert(first_height(r) == big_h);
    }
    assert forall|i: int| 0 <= i < w implies #[trigger] resized(r, w, h)[i] =~= s[i] by {
    }
    assert(resized(r, w, h) =~= s);
    assert forall|i: int| 0 <= i < w implies #[trigger] resized(s, w, h)[i] =~= s[i] by {
    }
    assert(resized(s, w, h) =~= s);
}

/// Laying a fully transparent layer over another changes nothing, and a
/// layer laid over itself stays as it is.
pub proof fn law_merge_transparent(s: Seq<Seq<Color>>, w: int, h: int)
    requires
        is_rect(s, w, h),
    ensures
        merged(s, filled(w, h, transparent())) == s,
        merged(s, s) == s,
{
    assert forall|i: int| 0 <= i < w implies #[trigger] merged(s, filled(w, h, transparent()))[i] =~= s[i] by {
    }
    assert(merged(s, filled(w, h, transparent())) =~= s);
    assert forall|i: int| 0 <= i < w implies #[trigger] merged(s, s)[i] =~= s[i] by {
    }
    assert(merged(s, s) =~= s);
}

/// Resizing gives a `new_w` by `new_h` grid in which each cell inside the
/// old grid keeps its colour and each cell outside it is transparent.
pub proof fn law_resize_cells(s: Seq<Seq<Color>>, new_w: int, new_h: int, i: int, j: int)
    requires
        rectangular(s),
        0 <= new_w,
        0 <= new_h,
    ensures
        resized(s, new_w, new_h).len() == new_w,
        0 <= i < new_w ==> resized(s, new_w, new_h)[i].len() == new_h,
        0 <= i < new_w && 0 <= j < new_h && i < s.len() && j < first_height(s) ==> resized(s, new_w, new_h)[i][j]
            == s[i][j],
        0 <= i < new_w && 0 <= j < new_h && (i >= s.len() || j >= first_height(s)) ==> resized(
            s,
            new_w,
            new_h,
        )[i][j] == (Color { r: 0, g: 0, b: 0, a: 0 }),
{
}

/// Merging two grids of the same shape: wherever the upper grid is not
/// fully transparent its colour wins, whatever lies below; elsewhere the
/// lower colour stays.
pub proof fn law_merge_cells(bottom: Seq<Seq<Color>>, top: Seq<Seq<Color>>, i: int, j: int)
    requires
        rectangular(bottom),
        rectangular(top),
        bottom.len() == top.len(),
        first_height(bottom) == first_height(top),
        0 <= i < bottom.len(),
        0 <= j < bottom[i].len(),
    ensures
        merged(bottom, top).len() == bottom.len(),
        merged(bottom, top)[i].len() == bottom[i].len(),
        top[i][j] != (Color { r: 0, g: 0, b: 0, a: 0 }) ==> merged(bottom, top)[i][j] == top[i][j],
        top[i][j] == (Color { r: 0, g: 0, b: 0, a: 0 }) ==> merged(bottom, top)[i][j] == bottom[i][j],
{
    assert(bottom[i].len() == first_height(bottom));
    assert(top[i].len() == first_height(top));
}

} // verus!
