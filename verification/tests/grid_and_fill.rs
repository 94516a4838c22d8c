use pixel_art_editor::color::Color;
use pixel_art_editor::fill::flood_fill;
use pixel_art_editor::grid::{new_grid, paint_square};

#[test]
fn new_grid_has_size_and_colour() {
    let g = new_grid(3, 2, Color::black());
    assert_eq!(g.len(), 3);
    assert!(g.iter().all(|col| col.len() == 2 && col.iter().all(|c| *c == Color::black())));
    assert!(new_grid(0, 5, Color::black()).is_empty());
}

#[test]
fn paint_square_twice_same_as_once() {
    let mut a = new_grid(5, 5, Color::white());
    paint_square(&mut a, 5, 5, 1, 1, 2, Color::black());
    let once = a.clone();
    paint_square(&mut a, 5, 5, 1, 1, 2, Color::black());
    assert_eq!(a, once);
    assert_eq!(a[1][1], Color::black());
    assert_eq!(a[2][2], Color::black());
    assert_eq!(a[3][3], Color::white());
}

#[test]
fn paint_square_respects_region() {
    let mut a = new_grid(5, 5, Color::white());
    paint_square(&mut a, 2, 2, 0, 0, 4, Color::black());
    assert_eq!(a[1][1], Color::black());
    assert_eq!(a[2][0], Color::white());
    assert_eq!(a[0][2], Color::white());
}

#[test]
fn flood_fill_does_not_cross_diagonals() {
    let w = Color::white();
    let k = Color::black();
    let r = Color::from_rgb(255, 0, 0);
    // checkerboard: white cells touch only diagonally
    let mut g = vec![vec![w, k, w], vec![k, w, k], vec![w, k, w]];
    flood_fill(&mut g, 3, 3, 1, 1, r);
    assert_eq!(g, vec![vec![w, k, w], vec![k, r, k], vec![w, k, w]]);
}

#[test]
fn flood_fill_follows_winding_path_and_region() {
    let w = Color::white();
    let k = Color::black();
    let r = Color::from_rgb(255, 0, 0);
    // white cells form a U shape; the region cuts off the last row
    let mut g = vec![vec![w, w, w, w], vec![k, k, w, w], vec![w, w, w, w]];
    flood_fill(&mut g, 3, 3, 0, 0, r);
    assert_eq!(g, vec![vec![r, r, r, w], vec![k, k, r, w], vec![r, r, r, w]]);
}

#[test]
fn flood_fill_same_colour_changes_nothing_and_is_idempotent() {
    let w = Color::white();
    let k = Color::black();
    let mut g = vec![vec![w, k], vec![w, w]];
    let before = g.clone();
    flood_fill(&mut g, 2, 2, 0, 0, w);
    assert_eq!(g, before);
    flood_fill(&mut g, 2, 2, 0, 0, k);
    let once = g.clone();
    flood_fill(&mut g, 2, 2, 0, 0, k);
    assert_eq!(g, once);
    assert_eq!(g, vec![vec![k, k], vec![k, k]]);
}
