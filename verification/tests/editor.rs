use pixel_art_editor::color::Color;
use pixel_art_editor::editor::{FileMenuItem, PixelArtEditor, MAX_BRUSH_RADIUS, MAX_CANVAS_SIDE};
use pixel_art_editor::export::{encode_rgba_png, ExportError};
use pixel_art_editor::footage::{Footage, FootageCategory};
use pixel_art_editor::tools::Tool;

fn editor(w: usize, h: usize) -> PixelArtEditor {
    let mut e = PixelArtEditor::new();
    e.init_with_size(w, h);
    e
}

fn active_pixel(e: &PixelArtEditor, x: usize, y: usize) -> Option<Color> {
    e.layers[e.active_layer].get_pixel(x, y)
}

#[test]
fn new_editor_state() {
    let e = PixelArtEditor::new();
    assert_eq!(e.current_color, Color::black());
    assert_eq!(e.current_tool, Tool::Pencil);
    assert_eq!(e.layers.len(), 1);
    assert_eq!((e.layers[0].width(), e.layers[0].height()), (32, 32));
    assert_eq!(e.active_layer, 0);
    assert_eq!(e.brush_radius, 1);
    assert!(!e.show_brush_settings && !e.show_file_menu && !e.show_save_dialog);
    assert!(e.show_canvas_selector);
    assert_eq!((e.canvas_width, e.canvas_height), (32, 32));
    assert_eq!((e.custom_width.as_str(), e.custom_height.as_str()), ("32", "32"));
    assert!(e.canvas_is_covered());
    assert_eq!(MAX_BRUSH_RADIUS, 5);
    assert_eq!(MAX_CANVAS_SIDE, 256);
}

#[test]
fn init_with_size_resets_canvas() {
    let mut e = PixelArtEditor::new();
    e.add_layer();
    e.init_with_size(8, 4);
    assert_eq!((e.canvas_width, e.canvas_height), (8, 4));
    assert_eq!(e.layers.len(), 1);
    assert_eq!(e.active_layer, 0);
    assert!(!e.show_canvas_selector);
    assert_eq!((e.layers[0].width(), e.layers[0].height()), (8, 4));
    assert!(e.canvas_is_covered());
}

#[test]
fn init_with_footage_uses_preview() {
    let mut e = PixelArtEditor::new();
    let f = Footage::new_tile(16, 16);
    let preview = f.preview.clone();
    e.init_with_footage(f);
    assert_eq!((e.canvas_width, e.canvas_height), (16, 16));
    assert_eq!(e.layers.len(), 1);
    assert_eq!(active_pixel(&e, 0, 0), Some(preview[0][0]));
    assert_eq!(active_pixel(&e, 1, 0), Some(preview[1][0]));
    assert!(e.layers[0].is_visible());
    assert!(!e.show_canvas_selector);
}

#[test]
fn pencil_draws_brush_square_on_active_layer() {
    let mut e = editor(4, 4);
    e.brush_radius = 2;
    e.current_color = Color::from_rgb(1, 2, 3);
    e.draw_on_canvas((3, 3));
    assert_eq!(active_pixel(&e, 3, 3), Some(Color::from_rgb(1, 2, 3)));
    assert_eq!(active_pixel(&e, 2, 2), Some(Color::transparent()));
    e.draw_on_canvas((0, 0));
    assert_eq!(active_pixel(&e, 1, 1), Some(Color::from_rgb(1, 2, 3)));
    assert_eq!(active_pixel(&e, 2, 1), Some(Color::transparent()));
}

#[test]
fn drawing_outside_canvas_changes_nothing() {
    let mut e = editor(2, 2);
    e.draw_on_canvas((2, 0));
    e.draw_on_canvas((0, 2));
    assert_eq!(active_pixel(&e, 0, 0), Some(Color::transparent()));
    assert_eq!(active_pixel(&e, 1, 1), Some(Color::transparent()));
}

#[test]
fn drawing_ignores_lock_and_other_layers() {
    let mut e = editor(2, 2);
    e.add_layer();
    e.layers[1].set_locked(true);
    e.draw_on_canvas((0, 0));
    assert_eq!(e.layers[1].get_pixel(0, 0), Some(Color::black()));
    assert_eq!(e.layers[0].get_pixel(0, 0), Some(Color::transparent()));
}

#[test]
fn eraser_fill_and_eyedropper() {
    let mut e = editor(3, 1);
    e.current_color = Color::white();
    e.select_tool(Tool::Fill);
    e.draw_on_canvas((0, 0));
    assert_eq!(active_pixel(&e, 2, 0), Some(Color::white()));
    e.select_tool(Tool::Eraser);
    e.draw_on_canvas((1, 0));
    assert_eq!(active_pixel(&e, 1, 0), Some(Color::transparent()));
    e.current_color = Color::black();
    e.select_tool(Tool::Fill);
    e.draw_on_canvas((0, 0));
    assert_eq!(active_pixel(&e, 0, 0), Some(Color::black()));
    assert_eq!(active_pixel(&e, 2, 0), Some(Color::white()));
    e.select_tool(Tool::Eyedropper);
    e.draw_on_canvas((2, 0));
    assert_eq!(e.current_color, Color::white());
}

#[test]
fn pencil_then_eyedropper_reads_painted_colour() {
    let mut e = editor(5, 5);
    e.current_color = Color::from_rgb(7, 7, 7);
    e.draw_on_canvas((2, 3));
    e.current_color = Color::black();
    e.current_tool = Tool::Eyedropper;
    e.draw_on_canvas((2, 3));
    assert_eq!(e.current_color, Color::from_rgb(7, 7, 7));
}

#[test]
fn select_tool_opens_brush_settings_only_for_brush_tools() {
    let mut e = editor(2, 2);
    e.select_tool(Tool::Fill);
    assert_eq!(e.current_tool, Tool::Fill);
    assert!(!e.show_brush_settings);
    e.select_tool(Tool::Brush);
    assert!(e.show_brush_settings);
    e.show_brush_settings = false;
    e.select_tool(Tool::Eyedropper);
    assert!(!e.show_brush_settings);
    e.select_tool(Tool::Eraser);
    assert!(e.show_brush_settings);
}

#[test]
fn add_then_remove_restores_layers() {
    let mut e = editor(2, 2);
    e.draw_on_canvas((0, 0));
    e.add_layer();
    assert_eq!(e.layers.len(), 2);
    assert_eq!(e.active_layer, 1);
    assert_eq!(e.layers[1].get_pixel(0, 0), Some(Color::transparent()));
    e.remove_active_layer();
    assert_eq!(e.layers.len(), 1);
    assert_eq!(e.active_layer, 0);
    assert_eq!(e.layers[0].get_pixel(0, 0), Some(Color::black()));
    assert!(e.canvas_is_covered());
}

#[test]
fn remove_keeps_last_layer_and_clamps_index() {
    let mut e = editor(2, 2);
    e.remove_active_layer();
    assert_eq!(e.layers.len(), 1);
    e.add_layer();
    e.add_layer();
    e.select_layer(1);
    e.remove_active_layer();
    assert_eq!(e.layers.len(), 2);
    assert_eq!(e.active_layer, 1);
    e.remove_active_layer();
    assert_eq!(e.layers.len(), 1);
    assert_eq!(e.active_layer, 0);
}

#[test]
fn custom_sizes_accept_only_1_to_256() {
    let mut e = editor(2, 2);
    e.custom_width = String::from("64");
    e.apply_custom_width();
    assert_eq!(e.canvas_width, 64);
    e.custom_width = String::from("0");
    e.apply_custom_width();
    assert_eq!(e.canvas_width, 64);
    e.custom_width = String::from("257");
    e.apply_custom_width();
    assert_eq!(e.canvas_width, 64);
    e.custom_width = String::from("abc");
    e.apply_custom_width();
    assert_eq!(e.canvas_width, 64);
    e.custom_height = String::from("+256");
    e.apply_custom_height();
    assert_eq!(e.canvas_height, 256);
    e.custom_height = String::from("-3");
    e.apply_custom_height();
    assert_eq!(e.canvas_height, 256);
    assert!(!e.canvas_is_covered());
    e.init_with_size(e.canvas_width, e.canvas_height);
    assert_eq!((e.layers[0].width(), e.layers[0].height()), (64, 256));
    assert!(e.canvas_is_covered());
}

#[test]
fn composite_takes_topmost_visible_opaque_pixel() {
    let mut e = editor(2, 1);
    e.layers[0].fill(Color::white());
    e.add_layer();
    assert_eq!(e.composite_pixel(0, 0), Color::white());
    e.draw_on_canvas((1, 0));
    assert_eq!(e.composite_pixel(1, 0), Color::black());
    assert_eq!(e.composite_pixel(0, 0), Color::white());
    e.layers[1].set_visible(false);
    assert_eq!(e.composite_pixel(1, 0), Color::white());
}

#[test]
fn compose_rgba_row_major() {
    let mut e = editor(2, 2);
    e.current_color = Color::from_rgb(1, 2, 3);
    e.draw_on_canvas((1, 0));
    let data = e.compose_rgba();
    assert_eq!(data.len(), 16);
    assert_eq!(&data[0..4], &[0, 0, 0, 0]);
    assert_eq!(&data[4..8], &[1, 2, 3, 255]);
    assert_eq!(&data[8..16], &[0u8; 8]);
}

#[test]
fn add_layer_keeps_exported_bytes() {
    let mut e = editor(3, 2);
    e.draw_on_canvas((2, 1));
    let before = e.compose_rgba();
    e.add_layer();
    assert_eq!(e.compose_rgba(), before);
}

#[test]
fn export_png_writes_signature() {
    let mut e = editor(3, 2);
    e.draw_on_canvas((1, 1));
    let bytes = e.export_png().expect("png");
    assert_eq!(&bytes[0..8], &[137, 80, 78, 71, 13, 10, 26, 10]);
    assert_eq!(&bytes[12..16], b"IHDR");
    assert_eq!(&bytes[16..20], &[0, 0, 0, 3]);
    assert_eq!(&bytes[20..24], &[0, 0, 0, 2]);
}

#[test]
fn export_png_refuses_empty_canvas() {
    let e = editor(0, 5);
    assert_eq!(e.export_png(), Err(ExportError::ZeroWidth));
    let e = editor(5, 0);
    assert_eq!(e.export_png(), Err(ExportError::ZeroHeight));
    assert_eq!(ExportError::ZeroWidth.message(), "Zero width not allowed");
    assert_eq!(ExportError::ZeroHeight.message(), "Zero height not allowed");
    assert_eq!(ExportError::BufferSize.message(), "wrong image buffer size");
}

#[test]
fn encode_rgba_png_checks_buffer() {
    assert_eq!(encode_rgba_png(2, 2, &[0u8; 15]), Err(ExportError::BufferSize));
    assert_eq!(encode_rgba_png(0, 2, &[]), Err(ExportError::ZeroWidth));
    assert!(encode_rgba_png(2, 2, &[0u8; 16]).is_ok());
}

#[test]
fn file_menu_items() {
    let mut e = editor(1, 1);
    e.toggle_file_menu();
    assert!(e.show_file_menu);
    e.choose_file_menu_item(FileMenuItem::New);
    assert!(e.show_canvas_selector && !e.show_file_menu);
    e.toggle_file_menu();
    e.choose_file_menu_item(FileMenuItem::Save);
    assert!(e.show_save_dialog && !e.show_file_menu);
    e.toggle_file_menu();
    e.show_save_dialog = false;
    e.choose_file_menu_item(FileMenuItem::Open);
    assert!(!e.show_file_menu && !e.show_save_dialog);
    e.toggle_file_menu();
    e.choose_file_menu_item(FileMenuItem::Export);
    assert!(!e.show_file_menu);
}

#[test]
fn footage_categories_round_trip_through_editor() {
    let mut e = PixelArtEditor::new();
    e.init_with_footage(Footage::new("x", 3, 2, FootageCategory::Square));
    assert!(e.canvas_is_covered());
    assert_eq!(e.composite_pixel(0, 0), Color::from_rgb(100, 200, 100));
    assert_eq!(e.composite_pixel(1, 0), Color::transparent());
}

#[test]
fn smaller_custom_size_draws_inside_new_bounds() {
    let mut e = editor(4, 4);
    e.custom_width = String::from("2");
    e.apply_custom_width();
    assert_eq!(e.canvas_width, 2);
    assert!(e.canvas_is_covered());
    e.select_tool(Tool::Fill);
    e.draw_on_canvas((0, 0));
    assert_eq!(active_pixel(&e, 1, 3), Some(Color::black()));
    assert_eq!(active_pixel(&e, 2, 0), Some(Color::transparent()));
    assert_eq!(e.compose_rgba().len(), 2 * 4 * 4);
    e.draw_on_canvas((2, 0));
    assert_eq!(active_pixel(&e, 2, 0), Some(Color::transparent()));
}

#[test]
fn editor_drawing_agrees_with_tool_apply() {
    for tool in [Tool::Pencil, Tool::Brush, Tool::Eraser, Tool::Fill] {
        let mut e = editor(4, 3);
        e.layers[0].fill(Color::white());
        e.layers[0].set_pixel(1, 1, Color::black());
        let mut grid = vec![vec![Color::white(); 3]; 4];
        grid[1][1] = Color::black();
        e.brush_radius = 2;
        e.current_color = Color::from_rgb(5, 6, 7);
        e.select_tool(tool);
        e.draw_on_canvas((2, 0));
        tool.apply(&mut grid, 2, 0, Color::from_rgb(5, 6, 7), 2);
        for x in 0..4 {
            for y in 0..3 {
                assert_eq!(e.layers[0].get_pixel(x, y), Some(grid[x][y]), "{:?} at {} {}", tool, x, y);
            }
        }
    }
}

#[test]
fn hidden_or_transparent_layers_are_unseen() {
    let mut e = editor(2, 2);
    e.current_color = Color::white();
    e.draw_on_canvas((0, 0));
    let before = e.compose_rgba();
    e.add_layer();
    e.current_color = Color::black();
    e.draw_on_canvas((0, 0));
    assert_ne!(e.compose_rgba(), before);
    e.layers[1].set_visible(false);
    assert_eq!(e.compose_rgba(), before);
    assert!(e.canvas_is_covered());
}
