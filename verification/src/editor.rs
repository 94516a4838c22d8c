//! The editor state: the layer stack, the active layer and tool, the
//! canvas size, and the state of the panels; and what drawing, layer
//! management and export do to it.

use vstd::prelude::*;
use crate::color::{Color, channel_of, opaque, transparent};
use crate::grid::{brush_cells_exist, cells, covers, filled, first_height, is_rect, lemma_covers_brush};
use crate::layer::{Layer, LayerView, rectangular};
use crate::tools::{Tool, law_brush_square_cells, tool_applied_in, uses_brush};
use crate::footage::Footage;
use crate::text::{parse_usize, parsed_usize};
use crate::export::{ExportError, encode_rgba_png, png_rgba8_file, png_signature, refusal};

verus! {

/// The largest brush the brush settings offer.
pub const MAX_BRUSH_RADIUS: usize = 5;

/// The largest side that a custom canvas size may have.
pub const MAX_CANVAS_SIDE: usize = 256;

/// The items of the file menu.
#[derive(Clone, Copy, PartialEq, Eq, Structural, Debug)]
pub enum FileMenuItem {
    New,
    Open,
    Save,
    Export,
}

/// The editor state.
pub struct PixelArtEditor {
    pub current_color: Color,
    pub current_tool: Tool,
    /// The layers, bottom first.
    pub layers: Vec<Layer>,
    pub active_layer: usize,
    /// The side of the square that the pencil, brush and eraser paint.
    pub brush_radius: usize,
    pub show_brush_settings: bool,
    pub show_file_menu: bool,
    pub show_canvas_selector: bool,
    pub show_save_dialog: bool,
    pub canvas_width: usize,
    pub canvas_height: usize,
    /// The text of the custom width field of the canvas selector.
    pub custom_width: String,
    /// The text of the custom height field of the canvas selector.
    pub custom_height: String,
}

/// The mathematical content of the editor state.
#[verifier::ext_equal]
pub struct EditorView {
    pub current_color: Color,
    pub current_tool: Tool,
    pub layers: Seq<LayerView>,
    pub active_layer: int,
    pub brush_radius: int,
    pub show_brush_settings: bool,
    pub show_file_menu: bool,
    pub show_canvas_selector: bool,
    pub show_save_dialog: bool,
    pub canvas_width: int,
    pub canvas_height: int,
    pub custom_width: Seq<char>,
    pub custom_height: Seq<char>,
}

impl View for PixelArtEditor {
    type V = EditorView;

    open spec fn view(&self) -> EditorView {
        EditorView {
            current_color: self.current_color,
            current_tool: self.current_tool,
            layers: self.layers@.map_values(|l: Layer| l@),
            active_layer: self.active_layer as int,
            brush_radius: self.brush_radius as int,
            show_brush_settings: self.show_brush_settings,
            show_file_menu: self.show_file_menu,
            show_canvas_selector: self.show_canvas_selector,
            show_save_dialog: self.show_save_dialog,
            canvas_width: self.canvas_width as int,
            canvas_height: self.canvas_height as int,
            custom_width: self.custom_width@,
            custom_height: self.custom_height@,
        }
    }
}

/// A new visible, unlocked, unnamed layer of transparent pixels.
pub open spec fn blank_layer(w: int, h: int) -> LayerView {
    LayerView { pixels: filled(w, h, transparent()), visible: true, name: None, locked: false }
}

/// Every layer is exactly `w` by `h` pixels.
pub open spec fn layers_fit(layers: Seq<LayerView>, w: int, h: int) -> bool {
    forall|i: int| 0 <= i < layers.len() ==> is_rect(#[trigger] layers[i].pixels, w, h)
}

/// The editor state is consistent: there is at least one layer, the active
/// layer exists, and every layer has the size of the canvas.
pub open spec fn consistent(v: EditorView) -> bool {
    &&& v.layers.len() >= 1
    &&& 0 <= v.active_layer < v.layers.len()
    &&& layers_fit(v.layers, v.canvas_width, v.canvas_height)
}

/// Every visible layer has a pixel at each point of the canvas (hidden
/// layers are never read when the picture is composed).
pub open spec fn covers_canvas(v: EditorView) -> bool {
    forall|i: int|
        0 <= i < v.layers.len() && #[trigger] v.layers[i].visible ==> covers(
            v.layers[i].pixels,
            v.canvas_width,
            v.canvas_height,
        )
}

/// Using the current tool at `(x, y)` reads and writes only pixels of the
/// active layer that exist: nothing is needed outside the canvas; the
/// eyedropper needs the pixel at `(x, y)`, the pencil, brush and eraser the
/// cells of their square inside the canvas, and the fill the whole canvas.
pub open spec fn can_draw(v: EditorView, x: int, y: int) -> bool {
    ||| !(0 <= x < v.canvas_width && 0 <= y < v.canvas_height)
    ||| {
        let p = v.layers[v.active_layer].pixels;
        &&& 0 <= v.active_layer < v.layers.len()
        &&& match v.current_tool {
            Tool::Eyedropper => x < p.len() && y < p[x].len(),
            Tool::Fill => covers(p, v.canvas_width, v.canvas_height),
            _ => brush_cells_exist(p, v.canvas_width, v.canvas_height, x, y, v.brush_radius),
        }
    }
}

/// The state a new editor starts in.
pub open spec fn initial_view() -> EditorView {
    EditorView {
        current_color: opaque(0, 0, 0),
        current_tool: Tool::Pencil,
        layers: seq![blank_layer(32, 32)],
        active_layer: 0,
        brush_radius: 1,
        show_brush_settings: false,
        show_file_menu: false,
        show_canvas_selector: true,
        show_save_dialog: false,
        canvas_width: 32,
        canvas_height: 32,
        custom_width: "32"@,
        custom_height: "32"@,
    }
}

/// The colour seen at `(x, y)` through the layer stack: the topmost
/// visible layer whose pixel there is not transparent gives it; with none,
/// it is transparent.
pub open spec fn composite(layers: Seq<LayerView>, x: int, y: int) -> Color
    decreases layers.len(),
{
    if layers.len() == 0 {
        transparent()
    } else {
        let top = layers.last();
        if top.visible && top.pixels[x][y] != transparent() {
            top.pixels[x][y]
        } else {
            composite(layers.drop_last(), x, y)
        }
    }
}

/// The flattened canvas as RGBA bytes: pixel `(x, y)` occupies the four
/// bytes from `(y * w + x) * 4`.
pub open spec fn rgba_bytes(layers: Seq<LayerView>, w: int, h: int) -> Seq<u8> {
    Seq::new((w * h * 4) as nat, |k: int| channel_of(composite(layers, (k / 4) % w, (k / 4) / w), k % 4))
}

/// The state after starting a new `w` by `h` canvas.
pub open spec fn with_new_canvas(v: EditorView, w: int, h: int, layer: LayerView) -> EditorView {
    EditorView {
        canvas_width: w,
        canvas_height: h,
        layers: seq![layer],
        active_layer: 0,
        show_canvas_selector: false,
        ..v
    }
}

/// The state after using the current tool at `(x, y)` of the canvas.
pub open spec fn drawn(v: EditorView, x: int, y: int) -> EditorView {
    if !(0 <= x < v.canvas_width && 0 <= y < v.canvas_height) {
        v
    } else if v.current_tool == Tool::Eyedropper {
        EditorView { current_color: v.layers[v.active_layer].pixels[x][y], ..v }
    } else {
        let a = v.active_layer;
        EditorView {
            layers: v.layers.update(
                a,
                LayerView {
                    pixels: tool_applied_in(
                        v.current_tool,
                        v.layers[a].pixels,
                        v.canvas_width,
                        v.canvas_height,
                        x,
                        y,
                        v.current_color,
                        v.brush_radius,
                    ),
                    ..v.layers[a]
                },
            ),
            ..v
        }
    }
}

/// The state after adding a layer: a blank layer of the canvas size goes
/// on top and becomes active.
pub open spec fn with_layer_added(v: EditorView) -> EditorView {
    EditorView {
        layers: v.layers.push(blank_layer(v.canvas_width, v.canvas_height)),
        active_layer: v.layers.len() as int,
        ..v
    }
}

/// The state after removing the active layer: nothing happens to the last
/// remaining layer; otherwise the active layer goes, and the active index
/// moves down if it now points past the top.
pub open spec fn with_active_removed(v: EditorView) -> EditorView {
    if v.layers.len() > 1 {
        let rest = v.layers.remove(v.active_layer);
        EditorView {
            layers: rest,
            active_layer: if v.active_layer >= rest.len() {
                rest.len() - 1
            } else {
                v.active_layer
            },
            ..v
        }
    } else {
        v
    }
}

/// The canvas side that a custom size field sets: its number when it
/// parses and lies between 1 and 256, else the side stays `old`.
pub open spec fn custom_side(text: Seq<char>, old: int) -> int {
    match parsed_usize(text) {
        Some(n) => if 1 <= n <= 256 {
            n as int
        } else {
            old
        },
        None => old,
    }
}

/// The state after choosing an item of the file menu.
pub open spec fn with_file_menu_item(v: EditorView, item: FileMenuItem) -> EditorView {
    match item {
        FileMenuItem::New => EditorView { show_canvas_selector: true, show_file_menu: false, ..v },
        FileMenuItem::Save => EditorView { show_save_dialog: true, show_file_menu: false, ..v },
        _ => EditorView { show_file_menu: false, ..v },
    }
}

proof fn lemma_views_index(layers: Seq<Layer>, i: int)
    requires
        0 <= i < layers.len(),
    ensures
        layers.map_values(|l: Layer| l@)[i] == layers[i]@,
        layers.map_values(|l: Layer| l@).len() == layers.len(),
{
}

proof fn lemma_rgba_index(w: int, h: int, x: int, y: int, c: int)
    requires
        0 <= x < w,
        0 <= y < h,
        0 <= c < 4,
    ensures
        0 <= (y * w + x) * 4 + c < w * h * 4,
        ((y * w + x) * 4 + c) / 4 == y * w + x,
        ((y * w + x) * 4 + c) % 4 == c,
        (y * w + x) % w == x,
        (y * w + x) / w == y,
{
    let p = y * w + x;
    vstd::arithmetic::div_mod::lemma_fundamental_div_mod_converse(p * 4 + c, 4, p, c);
    vstd::arithmetic::div_mod::lemma_fundamental_div_mod_converse(p, w, y, x);
    assert(0 <= p < w * h) by (nonlinear_arith)
        requires
            0 <= x < w,
            0 <= y < h,
            p == y * w + x,
    ;
    assert(0 <= p * 4 + c < w * h * 4) by (nonlinear_arith)
        requires
            0 <= p < w * h,
            0 <= c < 4,
    ;
}

impl PixelArtEditor {
    /// A new editor: one blank 32 by 32 layer, black pencil of size 1, the
    /// canvas selector open.
    pub fn new() -> (e: PixelArtEditor)
        ensures
            e@ == initial_view(),
            consistent(e@),
    {
        let mut layers: Vec<Layer> = Vec::new();
        layers.push(Layer::new(32, 32));
        let e = PixelArtEditor {
            current_color: Color::black(),
            current_tool: Tool::Pencil,
            layers,
            active_layer: 0,
            brush_radius: 1,
            show_brush_settings: false,
            show_file_menu: false,
            show_canvas_selector: true,
            show_save_dialog: false,
            canvas_width: 32,
            canvas_height: 32,
            custom_width: String::from_str("32"),
            custom_height: String::from_str("32"),
        };
        proof {
            lemma_views_index(e.layers@, 0);
            assert(e@.layers =~= seq![blank_layer(32, 32)]);
        }
        e
    }

    /// Whether every visible layer has a pixel at each point of the canvas.
    pub fn canvas_is_covered(&self) -> (b: bool)
        ensures
            b == covers_canvas(self@),
    {
        let mut i: usize = 0;
        while i < self.layers.len()
            invariant
                i <= self.layers@.len(),
                forall|k: int|
                    0 <= k < i && #[trigger] self@.layers[k].visible ==> covers(
                        self@.layers[k].pixels,
                        self.canvas_width as int,
                        self.canvas_height as int,
                    ),
            decreases self.layers@.len() - i,
        {
            proof {
                lemma_views_index(self.layers@, i as int);
            }
            let layer = &self.layers[i];
            if !layer.is_visible() {
                i = i + 1;
                continue;
            }
            let w = layer.width();
            let h = layer.height();
            if w < self.canvas_width || (self.canvas_width > 0 && h < self.canvas_height) {
                proof {
                    if w >= self.canvas_width {
                        assert(self@.layers[i as int].pixels[0].len() == h);
                    }
                    assert(!covers(self@.layers[i as int].pixels, self.canvas_width as int, self.canvas_height as int));
                }
                return false;
            }
            proof {
                let p = self@.layers[i as int].pixels;
                assert(rectangular(p));
                assert forall|j: int| 0 <= j < self.canvas_width implies self.canvas_height <= #[trigger] p[j].len() by {
                    assert(p[j].len() == first_height(p));
                }
            }
            i = i + 1;
        }
        true
    }

    /// Starts a new canvas of `width` by `height` with one blank layer and
    /// closes the canvas selector.
    pub fn init_with_size(&mut self, width: usize, height: usize)
        ensures
            final(self)@ == with_new_canvas(old(self)@, width as int, height as int, blank_layer(width as int, height as int)),
            consistent(final(self)@),
    {
        let mut layers: Vec<Layer> = Vec::new();
        layers.push(Layer::new(width, height));
        self.canvas_width = width;
        self.canvas_height = height;
        self.layers = layers;
        self.active_layer = 0;
        self.show_canvas_selector = false;
        proof {
            lemma_views_index(self.layers@, 0);
            assert(final(self)@.layers =~= seq![blank_layer(width as int, height as int)]);
        }
    }

    /// Starts a new canvas from a template: its size, and one layer that
    /// holds its preview; closes the canvas selector.
    pub fn init_with_footage(&mut self, footage: Footage)
        requires
            is_rect(cells(&footage.preview), footage.width as int, footage.height as int),
        ensures
            final(self)@ == with_new_canvas(
                old(self)@,
                footage.width as int,
                footage.height as int,
                LayerView { pixels: cells(&footage.preview), visible: true, name: None, locked: false },
            ),
            consistent(final(self)@),
    {
        let ghost preview = cells(&footage.preview);
        let width = footage.width;
        let height = footage.height;
        let mut layers: Vec<Layer> = Vec::new();
        layers.push(Layer::from_pixels(footage.preview));
        self.canvas_width = width;
        self.canvas_height = height;
        self.layers = layers;
        self.active_layer = 0;
        self.show_canvas_selector = false;
        proof {
            lemma_views_index(self.layers@, 0);
            assert(final(self)@.layers =~= seq![
                LayerView { pixels: preview, visible: true, name: None, locked: false },
            ]);
        }
    }

    /// Uses the current tool at `pos` of the canvas: the pencil and the
    /// brush paint the brush square with the current colour, the eraser
    /// paints it transparent, the fill recolours the connected area, all on
    /// the active layer and whatever its lock; the eyedropper takes the
    /// active layer's colour at `pos` as the current colour.  Outside the
    /// canvas nothing happens.
    pub fn draw_on_canvas(&mut self, pos: (usize, usize))
        requires
            can_draw(old(self)@, pos.0 as int, pos.1 as int),
        ensures
            final(self)@ == drawn(old(self)@, pos.0 as int, pos.1 as int),
            consistent(old(self)@) ==> consistent(final(self)@),
            covers_canvas(old(self)@) ==> covers_canvas(final(self)@),
            final(self)@.layers.len() == old(self)@.layers.len(),
            forall|k: int|
                0 <= k < old(self)@.layers.len() && k != old(self)@.active_layer ==> #[trigger] final(self)@.layers[k]
                    == old(self)@.layers[k],
            ({
                let v = old(self)@;
                let a = v.active_layer;
                let (x, y) = (pos.0 as int, pos.1 as int);
                (x < v.canvas_width && y < v.canvas_height && uses_brush(v.current_tool)) ==> forall|i: int, j: int|
                    0 <= i < v.layers[a].pixels.len() && 0 <= j < v.layers[a].pixels[i].len()
                        ==> #[trigger] final(self)@.layers[a].pixels[i][j] == if i < v.canvas_width && j
                        < v.canvas_height && x <= i < x + v.brush_radius && y <= j < y + v.brush_radius {
                        if v.current_tool == Tool::Eraser {
                            Color { r: 0, g: 0, b: 0, a: 0 }
                        } else {
                            v.current_color
                        }
                    } else {
                        v.layers[a].pixels[i][j]
                    }
            }),
    {
        let (x, y) = pos;
        if x >= self.canvas_width || y >= self.canvas_height {
            return;
        }
        let ghost v0 = self@;
        let a = self.active_layer;
        let w = self.canvas_width;
        let h = self.canvas_height;
        proof {
            lemma_views_index(self.layers@, a as int);
        }
        match self.current_tool {
            Tool::Eyedropper => {
                let _ = self.layers[a].width();
                let c = self.layers[a].get_pixel(x, y);
                self.current_color = c.unwrap();
                proof {
                    assert(final(self)@ =~= drawn(v0, x as int, y as int));
                }
                return;
            },
            Tool::Pencil | Tool::Brush => {
                let size = self.brush_radius;
                let color = self.current_color;
                self.layers[a].paint_square(w, h, x, y, size, color);
            },
            Tool::Eraser => {
                let size = self.brush_radius;
                self.layers[a].paint_square(w, h, x, y, size, Color::transparent());
            },
            Tool::Fill => {
                let color = self.current_color;
                self.layers[a].flood_fill(w, h, x, y, color);
            },
        }
        proof {
            let v1 = self@;
            assert forall|i: int| 0 <= i < v1.layers.len() implies #[trigger] v1.layers[i] == drawn(
                v0,
                x as int,
                y as int,
            ).layers[i] by {
                lemma_views_index(self.layers@, i);
            }
            assert(v1.layers =~= drawn(v0, x as int, y as int).layers);
            assert(v1 =~= drawn(v0, x as int, y as int));
            assert forall|i: int| 0 <= i < v1.layers.len() implies #[trigger] v1.layers[i].pixels.len()
                == v0.layers[i].pixels.len() && (forall|j: int|
                0 <= j < v1.layers[i].pixels.len() ==> #[trigger] v1.layers[i].pixels[j].len()
                    == v0.layers[i].pixels[j].len()) by {
                if i != a {
                    assert(v1.layers[i] == v0.layers[i]);
                }
            }
            if uses_brush(v0.current_tool) {
                let s = v0.layers[a as int].pixels;
                assert forall|i: int, j: int|
                    0 <= i < s.len() && 0 <= j < s[i].len() implies #[trigger] v1.layers[a as int].pixels[i][j]
                        == if i < w && j < h && x <= i < x + v0.brush_radius && y <= j < y + v0.brush_radius {
                        if v0.current_tool == Tool::Eraser {
                            Color { r: 0, g: 0, b: 0, a: 0 }
                        } else {
                            v0.current_color
                        }
                    } else {
                        s[i][j]
                    } by {
                    law_brush_square_cells(
                        v0.current_tool,
                        s,
                        w as int,
                        h as int,
                        x as int,
                        y as int,
                        v0.current_color,
                        v0.brush_radius,
                        i,
                        j,
                    );
                }
            }
            if consistent(v0) {
                assert forall|i: int| 0 <= i < v1.layers.len() implies is_rect(
                    #[trigger] v1.layers[i].pixels,
                    w as int,
                    h as int,
                ) by {
                    assert(is_rect(v0.layers[i].pixels, w as int, h as int));
                }
            }
            if covers_canvas(v0) {
                assert forall|i: int| 0 <= i < v1.layers.len() && #[trigger] v1.layers[i].visible implies covers(
                    v1.layers[i].pixels,
                    w as int,
                    h as int,
                ) by {
                    assert(v1.layers[i].visible == v0.layers[i].visible);
                    assert(covers(v0.layers[i].pixels, w as int, h as int));
                }
            }
        }
    }

    /// The colour seen at `(x, y)` through the visible layers.
    pub fn composite_pixel(&self, x: usize, y: usize) -> (c: Color)
        requires
            covers_canvas(self@),
            x < self.canvas_width,
            y < self.canvas_height,
        ensures
            c == composite(self@.layers, x as int, y as int),
            ({
                let top = self@.layers.last();
                self@.layers.len() > 0 && top.visible && top.pixels[x as int][y as int] != (Color {
                    r: 0,
                    g: 0,
                    b: 0,
                    a: 0,
                }) ==> c == top.pixels[x as int][y as int]
            }),
            self@.layers.len() == 0 ==> c == (Color { r: 0, g: 0, b: 0, a: 0 }),
    {
        let ghost views = self@.layers;
        let mut color = Color::transparent();
        let mut i: usize = 0;
        while i < self.layers.len()
            invariant
                i <= self.layers@.len(),
                views == self@.layers,
                covers_canvas(self@),
                x < self.canvas_width,
                y < self.canvas_height,
                color == composite(views.subrange(0, i as int), x as int, y as int),
            decreases self.layers@.len() - i,
        {
            proof {
                lemma_views_index(self.layers@, i as int);
            }
            let layer = &self.layers[i];
            if layer.is_visible() {
                let _ = layer.width();
                let px = layer.get_pixel(x, y).unwrap();
                if !px.is_transparent() {
                    color = px;
                }
            }
            i = i + 1;
            proof {
                let sub = views.subrange(0, i as int);
                assert(sub.drop_last() =~= views.subrange(0, i - 1));
                assert(sub.last() == views[i - 1]);
            }
        }
        proof {
            assert(views.subrange(0, views.len() as int) =~= views);
        }
        color
    }

    /// The flattened canvas as RGBA bytes, row by row from the top, four
    /// bytes per pixel.
    pub fn compose_rgba(&self) -> (data: Vec<u8>)
        requires
            covers_canvas(self@),
            self.canvas_width * self.canvas_height * 4 <= usize::MAX,
        ensures
            data@ == rgba_bytes(self@.layers, self.canvas_width as int, self.canvas_height as int),
    {
        let w = self.canvas_width;
        let h = self.canvas_height;
        let ghost target = rgba_bytes(self@.layers, w as int, h as int);
        let mut data: Vec<u8> = Vec::new();
        let mut y: usize = 0;
        while y < h
            invariant
                y <= h,
                w == self.canvas_width,
                h == self.canvas_height,
                covers_canvas(self@),
                target == rgba_bytes(self@.layers, w as int, h as int),
                data@.len() == y * w * 4,
                forall|k: int| 0 <= k < data@.len() ==> #[trigger] data@[k] == target[k],
            decreases h - y,
        {
            let mut x: usize = 0;
            while x < w
                invariant
                    x <= w,
                    y < h,
                    w == self.canvas_width,
                    h == self.canvas_height,
                    covers_canvas(self@),
                    target == rgba_bytes(self@.layers, w as int, h as int),
                    data@.len() == (y * w + x) * 4,
                    forall|k: int| 0 <= k < data@.len() ==> #[trigger] data@[k] == target[k],
                decreases w - x,
            {
                let c = self.composite_pixel(x, y);
                proof {
                    lemma_rgba_index(w as int, h as int, x as int, y as int, 0);
                    lemma_rgba_index(w as int, h as int, x as int, y as int, 1);
                    lemma_rgba_index(w as int, h as int, x as int, y as int, 2);
                    lemma_rgba_index(w as int, h as int, x as int, y as int, 3);
                }
                let ghost base = (y * w + x) * 4;
                data.push(c.r);
                data.push(c.g);
                data.push(c.b);
                data.push(c.a);
                proof {
                    assert(target[base] == c.r);
                    assert(target[base + 1] == c.g);
                    assert(target[base + 2] == c.b);
                    assert(target[base + 3] == c.a);
                    assert forall|k: int| 0 <= k < data@.len() implies #[trigger] data@[k] == target[k] by {
                        if k >= base {
                            assert(k == base || k == base + 1 || k == base + 2 || k == base + 3);
                        }
                    }
                }
                x = x + 1;
            }
            proof {
                assert((y * w + w) * 4 == (y + 1) * w * 4) by (nonlinear_arith);
            }
            y = y + 1;
        }
        proof {
            assert(h * w * 4 == w * h * 4) by (nonlinear_arith);
            assert(data@ =~= target);
        }
        data
    }

    /// The canvas as PNG file bytes.  The sides are written to the file as
    /// 32-bit numbers: export succeeds exactly when both sides are between
    /// 1 and `u32::MAX`; otherwise the error says what the encoder refused.
    pub fn export_png(&self) -> (r: Result<Vec<u8>, ExportError>)
        requires
            covers_canvas(self@),
            self.canvas_width * self.canvas_height * 4 <= usize::MAX,
        ensures
            r is Ok <==> (0 < self.canvas_width <= u32::MAX && 0 < self.canvas_height <= u32::MAX),
            r matches Ok(bytes) ==> bytes@ == png_rgba8_file(
                self.canvas_width as u32,
                self.canvas_height as u32,
                rgba_bytes(self@.layers, self.canvas_width as int, self.canvas_height as int),
            ) && bytes@.len() >= 8 && bytes@.subrange(0, 8) == png_signature(),
            r matches Err(e) ==> e == refusal(self.canvas_width as u32, self.canvas_height as u32),
    {
        let data = self.compose_rgba();
        let cw = self.canvas_width;
        let ch = self.canvas_height;
        let w: u32 = #[verifier::truncate] (cw as u32);
        let h: u32 = #[verifier::truncate] (ch as u32);
        proof {
            assert(w as usize <= cw) by (bit_vector)
                requires
                    w == cw as u32,
            ;
            assert(h as usize <= ch) by (bit_vector)
                requires
                    h == ch as u32,
            ;
            assert(cw <= u32::MAX ==> w as usize == cw) by (bit_vector)
                requires
                    w == cw as u32,
            ;
            assert(ch <= u32::MAX ==> h as usize == ch) by (bit_vector)
                requires
                    h == ch as u32,
            ;
            assert(w * h * 4 <= cw * ch * 4) by (nonlinear_arith)
                requires
                    w <= cw,
                    h <= ch,
            ;
            if w > 0 && h > 0 && w * h * 4 == cw * ch * 4 {
                if cw > u32::MAX {
                    assert(w * h * 4 < cw * ch * 4) by (nonlinear_arith)
                        requires
                            w < cw,
                            0 < h <= ch,
                    ;
                }
                if ch > u32::MAX {
                    assert(w * h * 4 < cw * ch * 4) by (nonlinear_arith)
                        requires
                            h < ch,
                            0 < w <= cw,
                    ;
                }
            }
        }
        encode_rgba_png(w, h, data.as_slice())
    }

    /// Adds a blank layer of the canvas size on top and makes it active.
    pub fn add_layer(&mut self)
        ensures
            final(self)@ == with_layer_added(old(self)@),
            consistent(old(self)@) ==> consistent(final(self)@),
    {
        let ghost v0 = self@;
        let layer = Layer::new(self.canvas_width, self.canvas_height);
        self.layers.push(layer);
        self.active_layer = self.layers.len() - 1;
        proof {
            assert forall|i: int| 0 <= i < self.layers@.len() implies #[trigger] self@.layers[i]
                == with_layer_added(v0).layers[i] by {
                lemma_views_index(self.layers@, i);
                if i < v0.layers.len() {
                    lemma_views_index(old(self).layers@, i);
                }
            }
            assert(self@ =~= with_layer_added(v0));
        }
    }

    /// Removes the active layer unless it is the only one; the active
    /// index then moves down if it points past the top.
    pub fn remove_active_layer(&mut self)
        requires
            old(self).layers@.len() > 1 ==> old(self).active_layer < old(self).layers@.len(),
        ensures
            final(self)@ == with_active_removed(old(self)@),
            consistent(old(self)@) ==> consistent(final(self)@),
            old(self)@.layers.len() > 1 ==> final(self)@.layers.len() == old(self)@.layers.len() - 1,
            old(self)@.layers.len() > 1 ==> forall|i: int|
                0 <= i < old(self)@.layers.len() - 1 ==> #[trigger] final(self)@.layers[i] == if i
                    < old(self)@.active_layer {
                    old(self)@.layers[i]
                } else {
                    old(self)@.layers[i + 1]
                },
            old(self)@.layers.len() <= 1 ==> final(self)@ == old(self)@,
    {
        let ghost v0 = self@;
        if self.layers.len() > 1 {
            self.layers.remove(self.active_layer);
            if self.active_layer >= self.layers.len() {
                self.active_layer = self.layers.len() - 1;
            }
            proof {
                let rest = v0.layers.remove(v0.active_layer);
                assert forall|i: int| 0 <= i < self.layers@.len() implies #[trigger] self@.layers[i] == rest[i] by {
                    lemma_views_index(self.layers@, i);
                    if i < v0.active_layer {
                        lemma_views_index(old(self).layers@, i);
                    } else {
                        lemma_views_index(old(self).layers@, i + 1);
                    }
                }
                assert(self@.layers =~= rest);
                assert(self@ =~= with_active_removed(v0));
                if consistent(v0) {
                    assert forall|i: int| 0 <= i < rest.len() implies is_rect(
                        #[trigger] rest[i].pixels,
                        v0.canvas_width,
                        v0.canvas_height,
                    ) by {
                        if i < v0.active_layer {
                            assert(rest[i] == v0.layers[i]);
                        } else {
                            assert(rest[i] == v0.layers[i + 1]);
                        }
                    }
                }
            }
        }
    }

    /// Makes layer `index` the active one.
    pub fn select_layer(&mut self, index: usize)
        requires
            index < old(self).layers@.len(),
        ensures
            final(self)@ == (EditorView { active_layer: index as int, ..old(self)@ }),
            consistent(old(self)@) ==> consistent(final(self)@),
    {
        self.active_layer = index;
        proof {
            assert(final(self)@.layers =~= old(self)@.layers);
        }
    }

    /// Chooses a tool; a tool that draws with the brush size also opens
    /// the brush settings.
    pub fn select_tool(&mut self, tool: Tool)
        ensures
            final(self)@ == (EditorView {
                current_tool: tool,
                show_brush_settings: if uses_brush(tool) {
                    true
                } else {
                    old(self)@.show_brush_settings
                },
                ..old(self)@
            }),
    {
        self.current_tool = tool;
        if tool.needs_brush_size() {
            self.show_brush_settings = true;
        }
        proof {
            assert(final(self)@.layers =~= old(self)@.layers);
        }
    }

    /// Takes the canvas width from the custom width field when it holds a
    /// number from 1 to 256.  The layers are not resized: the new size takes
    /// effect when a canvas is created.
    pub fn apply_custom_width(&mut self)
        ensures
            final(self)@ == (EditorView {
                canvas_width: custom_side(old(self)@.custom_width, old(self)@.canvas_width),
                ..old(self)@
            }),
    {
        if let Some(num) = parse_usize(self.custom_width.as_str()) {
            if num > 0 && num <= MAX_CANVAS_SIDE {
                self.canvas_width = num;
            }
        }
        proof {
            assert(final(self)@.layers =~= old(self)@.layers);
        }
    }

    /// Takes the canvas height from the custom height field when it holds
    /// a number from 1 to 256.  The layers are not resized.
    pub fn apply_custom_height(&mut self)
        ensures
            final(self)@ == (EditorView {
                canvas_height: custom_side(old(self)@.custom_height, old(self)@.canvas_height),
                ..old(self)@
            }),
    {
        if let Some(num) = parse_usize(self.custom_height.as_str()) {
            if num > 0 && num <= MAX_CANVAS_SIDE {
                self.canvas_height = num;
            }
        }
        proof {
            assert(final(self)@.layers =~= old(self)@.layers);
        }
    }

    /// Opens or closes the file menu.
    pub fn toggle_file_menu(&mut self)
        ensures
            final(self)@ == (EditorView { show_file_menu: !old(self)@.show_file_menu, ..old(self)@ }),
    {
        self.show_file_menu = !self.show_file_menu;
        proof {
            assert(final(self)@.layers =~= old(self)@.layers);
        }
    }

    /// Acts on an item of the file menu: "new" opens the canvas selector,
    /// "save" the save dialog; every item closes the menu.
    pub fn choose_file_menu_item(&mut self, item: FileMenuItem)
        ensures
            final(self)@ == with_file_menu_item(old(self)@, item),
    {
        match item {
            FileMenuItem::New => {
                self.show_canvas_selector = true;
            },
            FileMenuItem::Save => {
                self.show_save_dialog = true;
            },
            _ => {},
        }
        self.show_file_menu = false;
        proof {
            assert(final(self)@.layers =~= old(self)@.layers);
        }
    }
}

/// Adding a layer and then removing the active one gives back the layer
/// stack as it was; the top layer is then the active one.
pub proof fn law_add_then_remove(v: EditorView)
    requires
        consistent(v),
    ensures
        with_active_removed(with_layer_added(v)) == (EditorView { active_layer: v.layers.len() - 1, ..v }),
{
    let a = with_layer_added(v);
    let rest = a.layers.remove(a.active_layer);
    assert(rest =~= v.layers);
    assert(with_active_removed(a) =~= (EditorView { active_layer: v.layers.len() - 1, ..v }));
}

/// A hidden layer, or a fully transparent one, changes nothing that is seen.
pub proof fn law_unseen_layer(layers: Seq<LayerView>, top: LayerView, x: int, y: int)
    requires
        !top.visible || top.pixels[x][y] == transparent(),
    ensures
        composite(layers.push(top), x, y) == composite(layers, x, y),
{
    assert(layers.push(top).drop_last() =~= layers);
}

/// Adding a layer does not change the picture: every pixel is seen as
/// before, and the exported bytes are the same.
pub proof fn law_add_layer_keeps_picture(v: EditorView, x: int, y: int)
    requires
        0 <= x < v.canvas_width,
        0 <= y < v.canvas_height,
    ensures
        composite(with_layer_added(v).layers, x, y) == composite(v.layers, x, y),
        rgba_bytes(with_layer_added(v).layers, v.canvas_width, v.canvas_height) == rgba_bytes(
            v.layers,
            v.canvas_width,
            v.canvas_height,
        ),
{
    let (w, h) = (v.canvas_width, v.canvas_height);
    let l = v.layers;
    let b = blank_layer(w, h);
    law_unseen_layer(l, b, x, y);
    let r1 = rgba_bytes(l.push(b), w, h);
    let r2 = rgba_bytes(l, w, h);
    assert forall|k: int| 0 <= k < r1.len() implies #[trigger] r1[k] == r2[k] by {
        let p = k / 4;
        assert(0 <= p < w * h) by (nonlinear_arith)
            requires
                0 <= k < w * h * 4,
                p == k / 4,
        ;
        vstd::arithmetic::div_mod::lemma_div_pos_is_pos(p, w);
        vstd::arithmetic::div_mod::lemma_mod_bound(p, w);
        assert(p / w < h) by {
            vstd::arithmetic::div_mod::lemma_div_is_ordered(p, w * h - 1, w);
            assert(w * h - 1 == (h - 1) * w + (w - 1)) by (nonlinear_arith);
            vstd::arithmetic::div_mod::lemma_fundamental_div_mod_converse(w * h - 1, w, h - 1, w - 1);
        }
        law_unseen_layer(l, b, p % w, p / w);
    }
    assert(r1 =~= r2);
}

/// After painting a cell with the pencil, the eyedropper at that cell
/// picks up the colour that was painted.
pub proof fn law_pencil_then_eyedropper(v: EditorView, x: int, y: int)
    requires
        consistent(v),
        v.current_tool == Tool::Pencil,
        v.brush_radius >= 1,
        0 <= x < v.canvas_width,
        0 <= y < v.canvas_height,
    ensures
        drawn(EditorView { current_tool: Tool::Eyedropper, ..drawn(v, x, y) }, x, y).current_color
            == v.current_color,
{
    let a = v.active_layer;
    assert(is_rect(v.layers[a].pixels, v.canvas_width, v.canvas_height));
}

/// A custom size field either leaves the side as it was or sets it to a
/// number from 1 to 256.
pub proof fn law_custom_side_in_range(text: Seq<char>, old: int)
    ensures
        custom_side(text, old) == old || 1 <= custom_side(text, old) <= 256,
{
}

/// In a consistent state every tool can be used anywhere.
pub proof fn law_consistent_can_draw(v: EditorView, x: int, y: int)
    requires
        consistent(v),
    ensures
        can_draw(v, x, y),
{
    let a = v.active_layer;
    let p = v.layers[a].pixels;
    assert(is_rect(p, v.canvas_width, v.canvas_height));
    assert(covers(p, v.canvas_width, v.canvas_height));
    lemma_covers_brush(p, v.canvas_width, v.canvas_height, x, y, v.brush_radius);
    if 0 <= x < v.canvas_width && 0 <= y < v.canvas_height {
        assert(p[x].len() == v.canvas_height);
    }
}

/// With two or more layers, removing deletes exactly the active layer:
/// layers below it keep their index, layers above it move down by one.
pub proof fn law_remove_deletes_active(v: EditorView, i: int)
    requires
        v.layers.len() > 1,
        0 <= v.active_layer < v.layers.len(),
        0 <= i < v.layers.len() - 1,
    ensures
        with_active_removed(v).layers.len() == v.layers.len() - 1,
        i < v.active_layer ==> with_active_removed(v).layers[i] == v.layers[i],
        i >= v.active_layer ==> with_active_removed(v).layers[i] == v.layers[i + 1],
        0 <= with_active_removed(v).active_layer < with_active_removed(v).layers.len(),
{
}

/// The picture at `(x, y)`: a visible top layer whose pixel there is any
/// colour other than fully transparent, whatever its alpha, shows that
/// pixel; a hidden top layer, or a fully transparent pixel, shows what lies
/// below; no layers show transparent.
pub proof fn law_composite_top(layers: Seq<LayerView>, top: LayerView, x: int, y: int)
    ensures
        top.visible && top.pixels[x][y] != (Color { r: 0, g: 0, b: 0, a: 0 }) ==> composite(
            layers.push(top),
            x,
            y,
        ) == top.pixels[x][y],
        !(top.visible && top.pixels[x][y] != (Color { r: 0, g: 0, b: 0, a: 0 })) ==> composite(
            layers.push(top),
            x,
            y,
        ) == composite(layers, x, y),
        composite(Seq::<LayerView>::empty(), x, y) == (Color { r: 0, g: 0, b: 0, a: 0 }),
{
    assert(layers.push(top).drop_last() =~= layers);
}

} // verus!
