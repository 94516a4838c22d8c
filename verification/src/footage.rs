//! Canvas templates ("footages"): a named size with a preview picture and
//! a category, and the set of templates the editor offers.

use vstd::prelude::*;
use crate::color::{Color, opaque, transparent};
use crate::grid::{cells, is_rect, lemma_cells};
use crate::text::{decimal, push_decimal};

verus! {

/// The groups in which templates are listed.
#[derive(Clone, Copy, PartialEq, Eq, Structural, Debug, Hash)]
pub enum FootageCategory {
    Square,
    Horizontal,
    Vertical,
    Character,
    Tile,
    Custom,
}

/// The heading under which a category is listed.
pub open spec fn category_label(c: FootageCategory) -> Seq<char> {
    match c {
        FootageCategory::Square => "🔲 Квадратные"@,
        FootageCategory::Horizontal => "🖥️ Горизонтальные"@,
        FootageCategory::Vertical => "📱 Вертикальные"@,
        FootageCategory::Character => "🧑 Персонажи"@,
        FootageCategory::Tile => "🧱 Тайлы"@,
        FootageCategory::Custom => "⚙️ Пользовательские"@,
    }
}

/// The colour in which a category's plain previews are drawn.
pub open spec fn category_color(c: FootageCategory) -> Color {
    match c {
        FootageCategory::Square => opaque(100, 200, 100),
        FootageCategory::Horizontal => opaque(200, 150, 50),
        FootageCategory::Vertical => opaque(200, 50, 150),
        FootageCategory::Character => opaque(100, 100, 200),
        FootageCategory::Tile => opaque(150, 150, 50),
        FootageCategory::Custom => opaque(100, 100, 100),
    }
}

/// A plain preview: cell `(x, y)` has colour `c` when `x + y` is a
/// multiple of 4, and is transparent otherwise.
pub open spec fn preview_grid(w: int, h: int, c: Color) -> Seq<Seq<Color>> {
    Seq::new(
        w as nat,
        |i: int| Seq::new(h as nat, |j: int| if (i + j) % 4 == 0 { c } else { transparent() }),
    )
}

/// The head colour of the character template.
pub open spec fn head_color() -> Color {
    opaque(100, 100, 200)
}

/// The body colour of the character template.
pub open spec fn body_color() -> Color {
    opaque(200, 100, 100)
}

/// The character template: a head in the top quarter of the rows, between
/// a quarter and three quarters of the width, and a body below it, between
/// a third and two thirds of the width.
pub open spec fn character_cell(w: int, h: int, i: int, j: int) -> Color {
    if w / 4 <= i < w * 3 / 4 && j < h / 4 {
        head_color()
    } else if w / 3 <= i < w * 2 / 3 && h / 4 <= j {
        body_color()
    } else {
        transparent()
    }
}

/// The character template as a grid.
pub open spec fn character_grid(w: int, h: int) -> Seq<Seq<Color>> {
    Seq::new(w as nat, |i: int| Seq::new(h as nat, |j: int| character_cell(w, h, i, j)))
}

/// The tile template: the plain preview pattern in the tile colour.
pub open spec fn tile_grid(w: int, h: int) -> Seq<Seq<Color>> {
    preview_grid(w, h, opaque(150, 150, 50))
}

/// A canvas template.
#[derive(Clone, Debug)]
pub struct Footage {
    pub name: String,
    pub width: usize,
    pub height: usize,
    /// The preview picture, `width` by `height`, indexed `[x][y]`.
    pub preview: Vec<Vec<Color>>,
    pub category: FootageCategory,
}

/// The template has the given name, size, preview and category.
pub open spec fn footage_is(
    f: Footage,
    name: Seq<char>,
    w: int,
    h: int,
    preview: Seq<Seq<Color>>,
    category: FootageCategory,
) -> bool {
    &&& f.name@ == name
    &&& f.width == w
    &&& f.height == h
    &&& cells(&f.preview) == preview
    &&& f.category == category
}

/// The name that `new_character` gives a template of the given size.
pub open spec fn character_name(w: nat, h: nat) -> Seq<char> {
    "Персонаж "@ + decimal(w) + "x"@ + decimal(h)
}

/// The name that `new_tile` gives a template of the given size.
pub open spec fn tile_name(w: nat, h: nat) -> Seq<char> {
    "Тайл "@ + decimal(w) + "x"@ + decimal(h)
}

impl FootageCategory {
    /// The heading under which the category is listed.
    pub fn label(&self) -> (s: &'static str)
        ensures
            s@ == category_label(*self),
    {
        match self {
            FootageCategory::Square => "🔲 Квадратные",
            FootageCategory::Horizontal => "🖥️ Горизонтальные",
            FootageCategory::Vertical => "📱 Вертикальные",
            FootageCategory::Character => "🧑 Персонажи",
            FootageCategory::Tile => "🧱 Тайлы",
            FootageCategory::Custom => "⚙️ Пользовательские",
        }
    }
}

fn sized_name(prefix: &str, w: usize, h: usize) -> (s: String)
    ensures
        s@ == prefix@ + decimal(w as nat) + "x"@ + decimal(h as nat),
{
    let mut s = String::from_str(prefix);
    push_decimal(&mut s, w);
    s.append("x");
    push_decimal(&mut s, h);
    s
}

impl Footage {
    /// A template with a plain preview in the category's colour.
    pub fn new(name: &str, width: usize, height: usize, category: FootageCategory) -> (f: Footage)
        ensures
            footage_is(
                f,
                name@,
                width as int,
                height as int,
                preview_grid(width as int, height as int, category_color(category)),
                category,
            ),
    {
        let preview = Self::create_preview(width, height, Self::category_color(category));
        Footage { name: String::from_str(name), width, height, preview, category }
    }

    /// A character template named after its size.
    pub fn new_character(width: usize, height: usize) -> (f: Footage)
        requires
            width * 3 <= usize::MAX,
        ensures
            footage_is(
                f,
                character_name(width as nat, height as nat),
                width as int,
                height as int,
                character_grid(width as int, height as int),
                FootageCategory::Character,
            ),
    {
        let name = sized_name("Персонаж ", width, height);
        let preview = Self::create_character_template(width, height);
        Footage { name, width, height, preview, category: FootageCategory::Character }
    }

    /// A tile template named after its size.
    pub fn new_tile(width: usize, height: usize) -> (f: Footage)
        ensures
            footage_is(
                f,
                tile_name(width as nat, height as nat),
                width as int,
                height as int,
                tile_grid(width as int, height as int),
                FootageCategory::Tile,
            ),
    {
        let name = sized_name("Тайл ", width, height);
        let preview = Self::create_tile_template(width, height);
        Footage { name, width, height, preview, category: FootageCategory::Tile }
    }

    /// The colour of a category's plain previews.
    pub fn category_color(category: FootageCategory) -> (c: Color)
        ensures
            c == category_color(category),
    {
        match category {
            FootageCategory::Square => Color::from_rgb(100, 200, 100),
            FootageCategory::Horizontal => Color::from_rgb(200, 150, 50),
            FootageCategory::Vertical => Color::from_rgb(200, 50, 150),
            FootageCategory::Character => Color::from_rgb(100, 100, 200),
            FootageCategory::Tile => Color::from_rgb(150, 150, 50),
            FootageCategory::Custom => Color::from_rgb(100, 100, 100),
        }
    }

    /// A `width` by `height` plain preview in `color`.
    pub fn create_preview(width: usize, height: usize, color: Color) -> (p: Vec<Vec<Color>>)
        ensures
            cells(&p) == preview_grid(width as int, height as int, color),
    {
        let mut preview: Vec<Vec<Color>> = Vec::new();
        let mut x: usize = 0;
        while x < width
            invariant
                x <= width,
                preview@.len() == x,
                forall|i: int|
                    0 <= i < x ==> #[trigger] preview@[i]@ == preview_grid(width as int, height as int, color)[i],
            decreases width - x,
        {
            let mut col: Vec<Color> = Vec::new();
            let mut y: usize = 0;
            while y < height
                invariant
                    x < width,
                    y <= height,
                    col@ == preview_grid(width as int, height as int, color)[x as int].subrange(0, y as int),
                decreases height - y,
            {
                let c = if (x % 4 + y % 4) % 4 == 0 {
                    color
                } else {
                    Color::transparent()
                };
                assert((x % 4 + y % 4) % 4 == (x + y) % 4) by (nonlinear_arith);
                col.push(c);
                y = y + 1;
                assert(col@ =~= preview_grid(width as int, height as int, color)[x as int].subrange(0, y as int));
            }
            assert(col@ =~= preview_grid(width as int, height as int, color)[x as int]);
            preview.push(col);
            x = x + 1;
        }
        proof {
            lemma_cells(&preview);
        }
        assert(cells(&preview) =~= preview_grid(width as int, height as int, color));
        preview
    }

    /// The `width` by `height` character template.
    pub fn create_character_template(width: usize, height: usize) -> (p: Vec<Vec<Color>>)
        requires
            width * 3 <= usize::MAX,
        ensures
            cells(&p) == character_grid(width as int, height as int),
    {
        let head_height = height / 4;
        let head_from = width / 4;
        let head_to = width * 3 / 4;
        let body_from = width / 3;
        let body_to = width * 2 / 3;
        let mut template: Vec<Vec<Color>> = Vec::new();
        let mut x: usize = 0;
        while x < width
            invariant
                x <= width,
                width * 3 <= usize::MAX,
                head_height == height / 4,
                head_from == width / 4,
                head_to == width * 3 / 4,
                body_from == width / 3,
                body_to == width * 2 / 3,
                template@.len() == x,
                forall|i: int|
                    0 <= i < x ==> #[trigger] template@[i]@ == character_grid(width as int, height as int)[i],
            decreases width - x,
        {
            let mut col: Vec<Color> = Vec::new();
            let mut y: usize = 0;
            while y < height
                invariant
                    x < width,
                    y <= height,
                    head_height == height / 4,
                    head_from == width / 4,
                    head_to == width * 3 / 4,
                    body_from == width / 3,
                    body_to == width * 2 / 3,
                    col@ == character_grid(width as int, height as int)[x as int].subrange(0, y as int),
                decreases height - y,
            {
                let c = if head_from <= x && x < head_to && y < head_height {
                    Color::from_rgb(100, 100, 200)
                } else if body_from <= x && x < body_to && head_height <= y {
                    Color::from_rgb(200, 100, 100)
                } else {
                    Color::transparent()
                };
                col.push(c);
                y = y + 1;
                assert(col@ =~= character_grid(width as int, height as int)[x as int].subrange(0, y as int));
            }
            assert(col@ =~= character_grid(width as int, height as int)[x as int]);
            template.push(col);
            x = x + 1;
        }
        proof {
            lemma_cells(&template);
        }
        assert(cells(&template) =~= character_grid(width as int, height as int));
        template
    }

    /// The `width` by `height` tile template.
    pub fn create_tile_template(width: usize, height: usize) -> (p: Vec<Vec<Color>>)
        ensures
            cells(&p) == tile_grid(width as int, height as int),
    {
        Self::create_preview(width, height, Color::from_rgb(150, 150, 50))
    }

    /// The templates the editor offers, in the order they are listed.
    pub fn default_footages() -> (v: Vec<Footage>)
        ensures
            v@.len() == 12,
            footage_is(v@[0], "16x16 (Квадрат)"@, 16, 16, preview_grid(16, 16, category_color(FootageCategory::Square)), FootageCategory::Square),
            footage_is(v@[1], "32x32 (Квадрат)"@, 32, 32, preview_grid(32, 32, category_color(FootageCategory::Square)), FootageCategory::Square),
            footage_is(v@[2], "64x64 (Квадрат)"@, 64, 64, preview_grid(64, 64, category_color(FootageCategory::Square)), FootageCategory::Square),
            footage_is(v@[3], "16:9 (HD)"@, 32, 18, preview_grid(32, 18, category_color(FootageCategory::Horizontal)), FootageCategory::Horizontal),
            footage_is(v@[4], "32:18 (Full HD)"@, 64, 36, preview_grid(64, 36, category_color(FootageCategory::Horizontal)), FootageCategory::Horizontal),
            footage_is(v@[5], "4:3 (Классический)"@, 32, 24, preview_grid(32, 24, category_color(FootageCategory::Horizontal)), FootageCategory::Horizontal),
            footage_is(v@[6], "9:16 (Вертикальный)"@, 18, 32, preview_grid(18, 32, category_color(FootageCategory::Vertical)), FootageCategory::Vertical),
            footage_is(v@[7], "3:4 (Портрет)"@, 24, 32, preview_grid(24, 32, category_color(FootageCategory::Vertical)), FootageCategory::Vertical),
            footage_is(v@[8], character_name(16, 32), 16, 32, character_grid(16, 32), FootageCategory::Character),
            footage_is(v@[9], character_name(32, 64), 32, 64, character_grid(32, 64), FootageCategory::Character),
            footage_is(v@[10], tile_name(16, 16), 16, 16, tile_grid(16, 16), FootageCategory::Tile),
            footage_is(v@[11], tile_name(32, 32), 32, 32, tile_grid(32, 32), FootageCategory::Tile),
    {
        let mut v: Vec<Footage> = Vec::new();
        v.push(Self::new("16x16 (Квадрат)", 16, 16, FootageCategory::Square));
        v.push(Self::new("32x32 (Квадрат)", 32, 32, FootageCategory::Square));
        v.push(Self::new("64x64 (Квадрат)", 64, 64, FootageCategory::Square));
        v.push(Self::new("16:9 (HD)", 32, 18, FootageCategory::Horizontal));
        v.push(Self::new("32:18 (Full HD)", 64, 36, FootageCategory::Horizontal));
        v.push(Self::new("4:3 (Классический)", 32, 24, FootageCategory::Horizontal));
        v.push(Self::new("9:16 (Вертикальный)", 18, 32, FootageCategory::Vertical));
        v.push(Self::new("3:4 (Портрет)", 24, 32, FootageCategory::Vertical));
        v.push(Self::new_character(16, 32));
        v.push(Self::new_character(32, 64));
        v.push(Self::new_tile(16, 16));
        v.push(Self::new_tile(32, 32));
        v
    }
}

/// Every template made by the constructors has a preview exactly as large
/// as its size.
pub proof fn law_previews_fit_size(w: nat, h: nat, c: Color)
    ensures
        is_rect(preview_grid(w as int, h as int, c), w as int, h as int),
        is_rect(character_grid(w as int, h as int), w as int, h as int),
        is_rect(tile_grid(w as int, h as int), w as int, h as int),
{
}

} // verus!
