//! The drawing tools of the editor and what each does to a pixel grid.

use vstd::prelude::*;
use crate::color::{Color, transparent};
use crate::grid::{brush_cells_exist, cells, covers, first_height, is_rect, painted, paint_square};
use crate::fill::{flood_filled, flood_fill};

verus! {

/// A drawing tool.
#[derive(Clone, Copy, PartialEq, Eq, Structural, Debug, Hash)]
pub enum Tool {
    Pencil,
    Eraser,
    Brush,
    Fill,
    Eyedropper,
}

impl Default for Tool {
    /// The pencil is the tool a new editor starts with.
    fn default() -> (t: Tool)
        ensures
            t == Tool::Pencil,
    {
        Tool::Pencil
    }
}

/// The icon shown for a tool.
pub open spec fn tool_icon(t: Tool) -> Seq<char> {
    match t {
        Tool::Pencil => "✏️"@,
        Tool::Eraser => "🧽"@,
        Tool::Brush => "🖌️"@,
        Tool::Fill => "🌊"@,
        Tool::Eyedropper => "👁️"@,
    }
}

/// The name shown for a tool.
pub open spec fn tool_name(t: Tool) -> Seq<char> {
    match t {
        Tool::Pencil => "Карандаш"@,
        Tool::Eraser => "Ластик"@,
        Tool::Brush => "Кисть"@,
        Tool::Fill => "Заливка"@,
        Tool::Eyedropper => "Пипетка"@,
    }
}

/// The one-line description shown for a tool.
pub open spec fn tool_description(t: Tool) -> Seq<char> {
    match t {
        Tool::Pencil => "Рисование отдельных пикселей"@,
        Tool::Eraser => "Стирание пикселей"@,
        Tool::Brush => "Рисование с заданным размером кисти"@,
        Tool::Fill => "Заливка области одним цветом"@,
        Tool::Eyedropper => "Выбор цвета с холста"@,
    }
}

/// The tools whose stroke is a square of the brush size.
pub open spec fn uses_brush(t: Tool) -> bool {
    t == Tool::Pencil || t == Tool::Brush || t == Tool::Eraser
}

/// What applying tool `t` at `(x, y)` with colour `c` and brush size
/// `size` does to grid `s` when the tool works inside the `w` by `h` region.
pub open spec fn tool_applied_in(
    t: Tool,
    s: Seq<Seq<Color>>,
    w: int,
    h: int,
    x: int,
    y: int,
    c: Color,
    size: int,
) -> Seq<Seq<Color>> {
    match t {
        Tool::Pencil => painted(s, w, h, x, y, size, c),
        Tool::Brush => painted(s, w, h, x, y, size, c),
        Tool::Eraser => painted(s, w, h, x, y, size, transparent()),
        Tool::Fill => flood_filled(s, w, h, x, y, c),
        Tool::Eyedropper => s,
    }
}

/// What applying tool `t` at `(x, y)` does to grid `s`, the region being
/// the whole grid: as wide as `s` and as high as its first column.
pub open spec fn tool_applied(t: Tool, s: Seq<Seq<Color>>, x: int, y: int, c: Color, size: int) -> Seq<Seq<Color>> {
    tool_applied_in(t, s, s.len() as int, first_height(s), x, y, c, size)
}

impl Tool {
    /// The icon shown for the tool.
    pub fn icon(&self) -> (s: &'static str)
        ensures
            s@ == tool_icon(*self),
    {
        match self {
            Tool::Pencil => "✏️",
            Tool::Eraser => "🧽",
            Tool::Brush => "🖌️",
            Tool::Fill => "🌊",
            Tool::Eyedropper => "👁️",
        }
    }

    /// The name of the tool.
    pub fn name(&self) -> (s: &'static str)
        ensures
            s@ == tool_name(*self),
    {
        match self {
            Tool::Pencil => "Карандаш",
            Tool::Eraser => "Ластик",
            Tool::Brush => "Кисть",
            Tool::Fill => "Заливка",
            Tool::Eyedropper => "Пипетка",
        }
    }

    /// A one-line description of the tool.
    pub fn description(&self) -> (s: &'static str)
        ensures
            s@ == tool_description(*self),
    {
        match self {
            Tool::Pencil => "Рисование отдельных пикселей",
            Tool::Eraser => "Стирание пикселей",
            Tool::Brush => "Рисование с заданным размером кисти",
            Tool::Fill => "Заливка области одним цветом",
            Tool::Eyedropper => "Выбор цвета с холста",
        }
    }

    /// Whether the tool draws with the brush size (pencil, brush, eraser).
    pub fn needs_brush_size(&self) -> (b: bool)
        ensures
            b == uses_brush(*self),
    {
        match self {
            Tool::Pencil | Tool::Brush | Tool::Eraser => true,
            _ => false,
        }
    }

    /// Applies the tool at `(x, y)` of a grid whose height is that of its
    /// first column: the pencil and the brush paint the `brush_size` square
    /// at `(x, y)` with `color`, the eraser paints it transparent, the fill
    /// recolours the connected area of `(x, y)`, and the eyedropper leaves
    /// the grid as it is.
    pub fn apply(&self, pixels: &mut Vec<Vec<Color>>, x: usize, y: usize, color: Color, brush_size: usize)
        requires
            uses_brush(*self) ==> brush_cells_exist(
                cells(old(pixels)),
                cells(old(pixels)).len() as int,
                first_height(cells(old(pixels))),
                x as int,
                y as int,
                brush_size as int,
            ),
            *self == Tool::Fill ==> covers(
                cells(old(pixels)),
                cells(old(pixels)).len() as int,
                first_height(cells(old(pixels))),
            ) && x < cells(old(pixels)).len() && y < first_height(cells(old(pixels))),
        ensures
            cells(final(pixels)) == tool_applied(
                *self,
                cells(old(pixels)),
                x as int,
                y as int,
                color,
                brush_size as int,
            ),
            uses_brush(*self) ==> cells(final(pixels)).len() == cells(old(pixels)).len(),
            uses_brush(*self) ==> forall|i: int, j: int|
                0 <= i < cells(old(pixels)).len() && 0 <= j < cells(old(pixels))[i].len() ==> #[trigger] cells(
                    final(pixels),
                )[i][j] == if j < first_height(cells(old(pixels))) && x <= i < x + brush_size && y <= j < y
                    + brush_size {
                    if *self == Tool::Eraser {
                        Color { r: 0, g: 0, b: 0, a: 0 }
                    } else {
                        color
                    }
                } else {
                    cells(old(pixels))[i][j]
                },
    {
        let ghost s = cells(pixels);
        let w = pixels.len();
        let h = if w > 0 {
            assert(pixels@[0]@ == s[0]);
            pixels[0].len()
        } else {
            0
        };
        assert(h == first_height(s));
        match self {
            Tool::Pencil | Tool::Brush | Tool::Eraser => {
                let actual_color = match self {
                    Tool::Eraser => Color::transparent(),
                    _ => color,
                };
                paint_square(pixels, w, h, x, y, brush_size, actual_color);
            },
            Tool::Fill => {
                flood_fill(pixels, w, h, x, y, color);
            },
            Tool::Eyedropper => {},
        }
        proof {
            if uses_brush(*self) {
                assert forall|i: int, j: int|
                    0 <= i < s.len() && 0 <= j < s[i].len() implies #[trigger] cells(pixels)[i][j] == if j
                        < first_height(s) && x <= i < x + brush_size && y <= j < y + brush_size {
                        if *self == Tool::Eraser {
                            Color { r: 0, g: 0, b: 0, a: 0 }
                        } else {
                            color
                        }
                    } else {
                        s[i][j]
                    } by {
                    law_brush_square_cells(*self, s, w as int, h as int, x as int, y as int, color, brush_size as int, i, j);
                }
            }
        }
    }
}

/// On a grid of exactly `w` by `h` cells with at least one column, a tool
/// does the same whether its region is the whole grid (`Tool::apply`) or
/// the `w` by `h` canvas (drawing in the editor); and the eraser is the
/// pencil with the transparent colour.
pub proof fn law_tool_regions_agree(
    t: Tool,
    s: Seq<Seq<Color>>,
    w: int,
    h: int,
    x: int,
    y: int,
    c: Color,
    size: int,
)
    requires
        is_rect(s, w, h),
        w > 0,
    ensures
        tool_applied(t, s, x, y, c, size) == tool_applied_in(t, s, w, h, x, y, c, size),
        tool_applied_in(Tool::Eraser, s, w, h, x, y, c, size) == tool_applied_in(
            Tool::Pencil,
            s,
            w,
            h,
            x,
            y,
            transparent(),
            size,
        ),
{
    assert(first_height(s) == h);
}

/// The pencil and the brush paint every cell of the region in the square
/// of side `size` at `(x, y)` with the colour, the eraser makes those cells
/// transparent; every other cell keeps its colour and the shape stays.
pub proof fn law_brush_square_cells(
    t: Tool,
    s: Seq<Seq<Color>>,
    w: int,
    h: int,
    x: int,
    y: int,
    c: Color,
    size: int,
    i: int,
    j: int,
)
    requires
        t == Tool::Pencil || t == Tool::Brush || t == Tool::Eraser,
        0 <= i < s.len(),
        0 <= j < s[i].len(),
    ensures
        tool_applied_in(t, s, w, h, x, y, c, size).len() == s.len(),
        tool_applied_in(t, s, w, h, x, y, c, size)[i].len() == s[i].len(),
        tool_applied_in(t, s, w, h, x, y, c, size)[i][j] == if i < w && j < h && x <= i < x + size && y <= j
            < y + size {
            if t == Tool::Eraser {
                Color { r: 0, g: 0, b: 0, a: 0 }
            } else {
                c
            }
        } else {
            s[i][j]
        },
        tool_applied_in(Tool::Brush, s, w, h, x, y, c, size) == tool_applied_in(Tool::Pencil, s, w, h, x, y, c, size),
{
}

} // verus!
