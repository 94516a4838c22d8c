use pixel_art_editor::color::Color;
use pixel_art_editor::tools::Tool;

fn grid(w: usize, h: usize, c: Color) -> Vec<Vec<Color>> {
    vec![vec![c; h]; w]
}

#[test]
fn color_constructors_store_bytes() {
    assert_eq!(Color::transparent().to_array(), [0, 0, 0, 0]);
    assert_eq!(Color::black().to_array(), [0, 0, 0, 255]);
    assert_eq!(Color::white().to_array(), [255, 255, 255, 255]);
    let c = Color::from_rgb(1, 2, 3);
    assert_eq!((c.r(), c.g(), c.b(), c.a()), (1, 2, 3, 255));
    let p = Color::from_rgba_premultiplied(10, 20, 30, 40);
    assert_eq!(p.to_array(), [10, 20, 30, 40]);
    assert!(Color::transparent().is_transparent());
    assert!(!Color::from_rgba_premultiplied(0, 0, 0, 1).is_transparent());
}

#[test]
fn tool_icons_names_descriptions() {
    assert_eq!(Tool::Pencil.icon(), "✏️");
    assert_eq!(Tool::Eraser.icon(), "🧽");
    assert_eq!(Tool::Brush.icon(), "🖌️");
    assert_eq!(Tool::Fill.icon(), "🌊");
    assert_eq!(Tool::Eyedropper.icon(), "👁️");
    assert_eq!(Tool::Pencil.name(), "Карандаш");
    assert_eq!(Tool::Eraser.name(), "Ластик");
    assert_eq!(Tool::Brush.name(), "Кисть");
    assert_eq!(Tool::Fill.name(), "Заливка");
    assert_eq!(Tool::Eyedropper.name(), "Пипетка");
    assert_eq!(Tool::Pencil.description(), "Рисование отдельных пикселей");
    assert_eq!(Tool::Eraser.description(), "Стирание пикселей");
    assert_eq!(Tool::Brush.description(), "Рисование с заданным размером кисти");
    assert_eq!(Tool::Fill.description(), "Заливка области одним цветом");
    assert_eq!(Tool::Eyedropper.description(), "Выбор цвета с холста");
}

#[test]
fn tool_brush_size_and_default() {
    assert!(Tool::Pencil.needs_brush_size());
    assert!(Tool::Brush.needs_brush_size());
    assert!(Tool::Eraser.needs_brush_size());
    assert!(!Tool::Fill.needs_brush_size());
    assert!(!Tool::Eyedropper.needs_brush_size());
    assert_eq!(Tool::default(), Tool::Pencil);
}

#[test]
fn pencil_paints_clipped_square() {
    let red = Color::from_rgb(255, 0, 0);
    let mut g = grid(4, 3, Color::transparent());
    Tool::Pencil.apply(&mut g, 2, 1, red, 3);
    for x in 0..4 {
        for y in 0..3 {
            let inside = x >= 2 && y >= 1;
            assert_eq!(g[x][y] == red, inside, "cell {} {}", x, y);
        }
    }
}

#[test]
fn brush_size_zero_paints_nothing() {
    let mut g = grid(3, 3, Color::white());
    Tool::Brush.apply(&mut g, 1, 1, Color::black(), 0);
    assert_eq!(g, grid(3, 3, Color::white()));
}

#[test]
fn pencil_near_usize_max_does_not_wrap() {
    let mut g = grid(2, 2, Color::white());
    Tool::Pencil.apply(&mut g, usize::MAX - 1, 0, Color::black(), 5);
    assert_eq!(g, grid(2, 2, Color::white()));
}

#[test]
fn eraser_makes_square_transparent() {
    let mut g = grid(3, 3, Color::black());
    Tool::Eraser.apply(&mut g, 0, 0, Color::white(), 2);
    assert_eq!(g[0][0], Color::transparent());
    assert_eq!(g[1][1], Color::transparent());
    assert_eq!(g[2][2], Color::black());
    assert_eq!(g[0][2], Color::black());
}

#[test]
fn fill_tool_recolours_connected_area_only() {
    let w = Color::white();
    let k = Color::black();
    // a black wall in column 1 splits the grid
    let mut g = grid(3, 3, w);
    g[1] = vec![k, k, k];
    let blue = Color::from_rgb(0, 0, 255);
    Tool::Fill.apply(&mut g, 0, 0, blue, 1);
    assert_eq!(g[0], vec![blue, blue, blue]);
    assert_eq!(g[1], vec![k, k, k]);
    assert_eq!(g[2], vec![w, w, w]);
}

#[test]
fn eyedropper_apply_leaves_grid() {
    let mut g = grid(2, 2, Color::white());
    Tool::Eyedropper.apply(&mut g, 0, 0, Color::black(), 3);
    assert_eq!(g, grid(2, 2, Color::white()));
}

#[test]
fn pencil_on_empty_grid_is_harmless() {
    let mut g: Vec<Vec<Color>> = Vec::new();
    Tool::Pencil.apply(&mut g, 0, 0, Color::black(), 2);
    assert!(g.is_empty());
}
