use pixel_art_editor::color::Color;
use pixel_art_editor::footage::{Footage, FootageCategory};
use pixel_art_editor::text::{decimal_string, parse_usize, push_decimal};

#[test]
fn decimal_strings() {
    assert_eq!(decimal_string(0), "0");
    assert_eq!(decimal_string(7), "7");
    assert_eq!(decimal_string(10), "10");
    assert_eq!(decimal_string(1234), "1234");
    assert_eq!(decimal_string(usize::MAX), usize::MAX.to_string());
    let mut s = String::from("n=");
    push_decimal(&mut s, 42);
    assert_eq!(s, "n=42");
}

#[test]
fn parse_like_std() {
    for text in ["", "+", "-", "12", "+12", "-1", "12a", "007", "1 ", "٣", "++1", "18446744073709551615", "18446744073709551616", "99999999999999999999999"] {
        assert_eq!(parse_usize(text), text.parse::<usize>().ok(), "text {:?}", text);
    }
}

#[test]
fn parse_reads_back_decimal() {
    for n in [0usize, 1, 9, 10, 256, 65535, usize::MAX] {
        assert_eq!(parse_usize(&decimal_string(n)), Some(n));
    }
}

#[test]
fn category_labels() {
    assert_eq!(FootageCategory::Square.label(), "🔲 Квадратные");
    assert_eq!(FootageCategory::Horizontal.label(), "🖥️ Горизонтальные");
    assert_eq!(FootageCategory::Vertical.label(), "📱 Вертикальные");
    assert_eq!(FootageCategory::Character.label(), "🧑 Персонажи");
    assert_eq!(FootageCategory::Tile.label(), "🧱 Тайлы");
    assert_eq!(FootageCategory::Custom.label(), "⚙️ Пользовательские");
}

#[test]
fn category_colours() {
    assert_eq!(Footage::category_color(FootageCategory::Square), Color::from_rgb(100, 200, 100));
    assert_eq!(Footage::category_color(FootageCategory::Horizontal), Color::from_rgb(200, 150, 50));
    assert_eq!(Footage::category_color(FootageCategory::Vertical), Color::from_rgb(200, 50, 150));
    assert_eq!(Footage::category_color(FootageCategory::Character), Color::from_rgb(100, 100, 200));
    assert_eq!(Footage::category_color(FootageCategory::Tile), Color::from_rgb(150, 150, 50));
    assert_eq!(Footage::category_color(FootageCategory::Custom), Color::from_rgb(100, 100, 100));
}

#[test]
fn plain_preview_pattern() {
    let c = Color::black();
    let p = Footage::create_preview(5, 3, c);
    assert_eq!(p.len(), 5);
    for x in 0..5 {
        assert_eq!(p[x].len(), 3);
        for y in 0..3 {
            let expected = if (x + y) % 4 == 0 { c } else { Color::transparent() };
            assert_eq!(p[x][y], expected);
        }
    }
}

#[test]
fn new_footage_fields() {
    let f = Footage::new("Мой", 6, 4, FootageCategory::Custom);
    assert_eq!(f.name, "Мой");
    assert_eq!((f.width, f.height), (6, 4));
    assert_eq!(f.category, FootageCategory::Custom);
    assert_eq!(f.preview, Footage::create_preview(6, 4, Color::from_rgb(100, 100, 100)));
}

#[test]
fn character_template() {
    let f = Footage::new_character(16, 32);
    assert_eq!(f.name, "Персонаж 16x32");
    assert_eq!(f.category, FootageCategory::Character);
    let head = Color::from_rgb(100, 100, 200);
    let body = Color::from_rgb(200, 100, 100);
    // head: x in 4..12, y in 0..8; body: x in 5..10, y in 8..32
    assert_eq!(f.preview[4][0], head);
    assert_eq!(f.preview[11][7], head);
    assert_eq!(f.preview[12][7], Color::transparent());
    assert_eq!(f.preview[3][0], Color::transparent());
    assert_eq!(f.preview[5][8], body);
    assert_eq!(f.preview[9][31], body);
    assert_eq!(f.preview[10][8], Color::transparent());
    assert_eq!(f.preview[4][8], Color::transparent());
    assert_eq!(f.preview.len(), 16);
    assert!(f.preview.iter().all(|c| c.len() == 32));
}

#[test]
fn tile_template() {
    let f = Footage::new_tile(16, 16);
    assert_eq!(f.name, "Тайл 16x16");
    assert_eq!(f.category, FootageCategory::Tile);
    assert_eq!(f.preview, Footage::create_preview(16, 16, Color::from_rgb(150, 150, 50)));
    assert_eq!(Footage::create_tile_template(3, 2), Footage::create_preview(3, 2, Color::from_rgb(150, 150, 50)));
}

#[test]
fn default_templates() {
    let all = Footage::default_footages();
    let expected: Vec<(&str, usize, usize, FootageCategory)> = vec![
        ("16x16 (Квадрат)", 16, 16, FootageCategory::Square),
        ("32x32 (Квадрат)", 32, 32, FootageCategory::Square),
        ("64x64 (Квадрат)", 64, 64, FootageCategory::Square),
        ("16:9 (HD)", 32, 18, FootageCategory::Horizontal),
        ("32:18 (Full HD)", 64, 36, FootageCategory::Horizontal),
        ("4:3 (Классический)", 32, 24, FootageCategory::Horizontal),
        ("9:16 (Вертикальный)", 18, 32, FootageCategory::Vertical),
        ("3:4 (Портрет)", 24, 32, FootageCategory::Vertical),
        ("Персонаж 16x32", 16, 32, FootageCategory::Character),
        ("Персонаж 32x64", 32, 64, FootageCategory::Character),
        ("Тайл 16x16", 16, 16, FootageCategory::Tile),
        ("Тайл 32x32", 32, 32, FootageCategory::Tile),
    ];
    assert_eq!(all.len(), expected.len());
    for (f, (name, w, h, cat)) in all.iter().zip(expected) {
        assert_eq!(f.name, name);
        assert_eq!((f.width, f.height, f.category), (w, h, cat));
        assert_eq!(f.preview.len(), w);
        assert!(f.preview.iter().all(|c| c.len() == h));
    }
}
