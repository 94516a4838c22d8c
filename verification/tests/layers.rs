use pixel_art_editor::color::Color;
use pixel_art_editor::layer::Layer;

#[test]
fn new_layer_is_transparent_visible_unlocked() {
    let l = Layer::new(3, 2);
    assert_eq!(l.width(), 3);
    assert_eq!(l.height(), 2);
    assert!(l.is_visible());
    assert!(!l.is_locked());
    assert_eq!(l.name(), None);
    assert_eq!(l.get_pixel(2, 1), Some(Color::transparent()));
    assert_eq!(l.get_pixel(3, 0), None);
    assert_eq!(l.get_pixel(0, 2), None);
}

#[test]
fn zero_width_layer_has_zero_height() {
    let l = Layer::new(0, 7);
    assert_eq!(l.width(), 0);
    assert_eq!(l.height(), 0);
    assert_eq!(l.get_pixel(0, 0), None);
}

#[test]
fn write_then_read_pixel() {
    let mut l = Layer::new(2, 2);
    let c = Color::from_rgb(9, 8, 7);
    assert!(l.set_pixel(1, 0, c));
    assert_eq!(l.get_pixel(1, 0), Some(c));
    assert_eq!(l.get_pixel(0, 0), Some(Color::transparent()));
    assert!(!l.set_pixel(2, 0, c));
    assert!(!l.set_pixel(0, 2, c));
}

#[test]
fn locked_layer_refuses_pixels_and_fill() {
    let mut l = Layer::new(2, 2);
    l.set_locked(true);
    assert!(l.is_locked());
    assert!(!l.set_pixel(0, 0, Color::black()));
    l.fill(Color::black());
    assert_eq!(l.get_pixel(0, 0), Some(Color::transparent()));
    l.set_locked(false);
    l.fill(Color::black());
    assert_eq!(l.get_pixel(1, 1), Some(Color::black()));
}

#[test]
fn visibility_and_name() {
    let mut l = Layer::new(1, 1);
    l.set_visible(false);
    assert!(!l.is_visible());
    l.set_name("Фон");
    assert_eq!(l.name(), Some("Фон"));
}

#[test]
fn resize_keeps_corner_and_round_trips() {
    let mut l = Layer::new(2, 2);
    l.set_pixel(1, 1, Color::black());
    l.resize(4, 3);
    assert_eq!((l.width(), l.height()), (4, 3));
    assert_eq!(l.get_pixel(1, 1), Some(Color::black()));
    assert_eq!(l.get_pixel(3, 2), Some(Color::transparent()));
    l.resize(2, 2);
    assert_eq!((l.width(), l.height()), (2, 2));
    assert_eq!(l.get_pixel(1, 1), Some(Color::black()));
    l.resize(1, 1);
    assert_eq!(l.get_pixel(0, 0), Some(Color::transparent()));
    assert_eq!(l.get_pixel(1, 1), None);
}

#[test]
fn resize_ignores_lock() {
    let mut l = Layer::new(1, 1);
    l.set_locked(true);
    l.resize(2, 3);
    assert_eq!((l.width(), l.height()), (2, 3));
}

#[test]
fn duplicate_copies_pixels_and_marks_name() {
    let mut l = Layer::new(2, 1);
    l.set_pixel(0, 0, Color::white());
    l.set_name("Слой");
    l.set_visible(false);
    let d = l.duplicate();
    assert_eq!(d.name(), Some("Слой (копия)"));
    assert_eq!(d.get_pixel(0, 0), Some(Color::white()));
    assert_eq!(d.get_pixel(1, 0), Some(Color::transparent()));
    assert!(!d.is_visible());
    let unnamed = Layer::new(1, 1).duplicate();
    assert_eq!(unnamed.name(), None);
}

#[test]
fn merge_lays_opaque_pixels_over() {
    let mut bottom = Layer::new(2, 1);
    bottom.fill(Color::white());
    let mut top = Layer::new(2, 1);
    top.set_pixel(1, 0, Color::black());
    bottom.merge_with(&top);
    assert_eq!(bottom.get_pixel(0, 0), Some(Color::white()));
    assert_eq!(bottom.get_pixel(1, 0), Some(Color::black()));
}

#[test]
fn merge_with_other_size_changes_nothing() {
    let mut bottom = Layer::new(2, 2);
    let mut top = Layer::new(2, 3);
    top.fill(Color::black());
    bottom.merge_with(&top);
    assert_eq!(bottom.get_pixel(0, 0), Some(Color::transparent()));
}

#[test]
fn merge_with_transparent_layer_changes_nothing() {
    let mut bottom = Layer::new(2, 2);
    bottom.set_pixel(0, 1, Color::black());
    bottom.merge_with(&Layer::new(2, 2));
    assert_eq!(bottom.get_pixel(0, 1), Some(Color::black()));
    assert_eq!(bottom.get_pixel(1, 1), Some(Color::transparent()));
}

#[test]
fn layer_tools_ignore_lock() {
    let mut l = Layer::new(3, 3);
    l.set_locked(true);
    l.paint_square(3, 3, 1, 1, 5, Color::black());
    assert_eq!(l.get_pixel(2, 2), Some(Color::black()));
    assert_eq!(l.get_pixel(0, 0), Some(Color::transparent()));
    l.flood_fill(3, 3, 0, 0, Color::white());
    assert_eq!(l.get_pixel(0, 2), Some(Color::white()));
    assert_eq!(l.get_pixel(1, 1), Some(Color::black()));
}

#[test]
fn from_pixels_keeps_grid() {
    let l = Layer::from_pixels(vec![vec![Color::black(), Color::white()]]);
    assert_eq!((l.width(), l.height()), (1, 2));
    assert_eq!(l.get_pixel(0, 1), Some(Color::white()));
}
