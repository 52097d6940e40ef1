use bren::color::Color;
use bren::fixed::{Vec3, FX_ONE};
use bren::model::{Face, Model, Vertex};
use bren::renderer::Renderer;
use bren::viewport::Viewport;

fn small_viewport() -> Viewport {
    // 4x4 terminal cells: an 8x16 pixel buffer.
    Viewport::with_size_and_pos(4, 4, 0, 0)
}

#[test]
fn filled_face_with_zero_intensity_is_skipped() {
    let mut r = Renderer::new(small_viewport());
    r.draw_face((1, 1), (6, 1), (3, 9), 0);
    for x in 0..8u16 {
        for y in 0..16u16 {
            assert_eq!(Color(0, 0, 0), r.pixel_color(x, y));
        }
    }
}

#[test]
fn filled_face_with_positive_intensity_fills() {
    let mut r = Renderer::new(small_viewport());
    r.draw_face((1, 1), (6, 1), (3, 9), 128);
    assert_eq!(Color(128, 128, 128), r.pixel_color(3, 3));
    assert_eq!(Color(0, 0, 0), r.pixel_color(7, 15));
}

#[test]
fn wireframe_face_draws_even_at_zero_intensity() {
    let mut r = Renderer::new_wireframe(small_viewport());
    r.draw_face((1, 1), (6, 1), (3, 9), 0);
    assert_eq!(Color(255, 255, 255), r.pixel_color(1, 1));
    assert_eq!(Color(255, 255, 255), r.pixel_color(6, 1));
    assert_eq!(Color(255, 255, 255), r.pixel_color(4, 1));
}

#[test]
fn draw_triangle_respects_winding() {
    // The same three points with the opposite winding fill nothing.
    let mut r = Renderer::new(small_viewport());
    r.draw_triangle((1, 1), (3, 9), (6, 1), Color(9, 9, 9));
    for x in 0..8u16 {
        for y in 0..16u16 {
            assert_eq!(Color(0, 0, 0), r.pixel_color(x, y));
        }
    }
}

#[test]
fn draw_object_draws_model_edges() {
    let v = |x: i64, y: i64| Vertex {
        position: Vec3 { x: x * FX_ONE, y: y * FX_ONE, z: 0 },
    };
    let model = Model::from_buffers(
        vec![v(0, 0), v(5, 0), v(0, 5)],
        vec![Face { indexes: (1, 2, 3) }],
    );
    let mut r = Renderer::new_wireframe(small_viewport());
    r.draw_object(&model);
    assert_eq!(Color(255, 255, 255), r.pixel_color(0, 0));
    assert_eq!(Color(255, 255, 255), r.pixel_color(5, 0));
    assert_eq!(Color(255, 255, 255), r.pixel_color(0, 5));
    assert_eq!(Color(255, 255, 255), r.pixel_color(3, 0));
    assert_eq!(Color(0, 0, 0), r.pixel_color(7, 15));
}

#[test]
fn clear_resets_buffer() {
    let mut r = Renderer::new_wireframe(small_viewport());
    r.draw_face((0, 0), (7, 0), (0, 15), 1);
    r.clear();
    for x in 0..8u16 {
        for y in 0..16u16 {
            assert_eq!(Color(0, 0, 0), r.pixel_color(x, y));
        }
    }
}

#[test]
fn viewport_average_color() {
    let tile = [
        [Color(8, 16, 24); 4],
        [Color(8, 16, 24); 4],
    ];
    assert_eq!(Color(8, 16, 24), Viewport::average_color(tile));
    let mixed = [
        [Color(255, 0, 0), Color(0, 0, 0), Color(0, 0, 0), Color(0, 0, 0)],
        [Color(0, 0, 0), Color(0, 0, 0), Color(0, 0, 0), Color(0, 0, 0)],
    ];
    // One red dot out of eight: 255 / 8 = 31 truncated.
    assert_eq!(Color(31, 0, 0), Viewport::average_color(mixed));
}

#[test]
fn viewport_draw_chars_positions_lines() {
    let vp = Viewport::with_size_and_pos(1, 1, 5, 7);
    // A 2x4 buffer with every dot the same gray: one full glyph.
    let buffer = vec![vec![Color(10, 20, 30); 4], vec![Color(10, 20, 30); 4]];
    let lines = vp.draw_chars(&buffer);
    assert_eq!(1, lines.len());
    assert_eq!(5, lines[0].x);
    assert_eq!(7, lines[0].y);
    assert_eq!(1, lines[0].cells.len());
    assert_eq!('\u{28FF}', lines[0].cells[0].glyph);
    assert_eq!(Color(10, 20, 30), lines[0].cells[0].color);
}

#[test]
fn renderer_render_encodes_buffer() {
    let vp = Viewport::with_size_and_pos(1, 1, 0, 0);
    let r = Renderer::new(vp);
    let lines = r.render();
    assert_eq!(1, lines.len());
    assert_eq!(1, lines[0].cells.len());
    assert_eq!('\u{2800}', lines[0].cells[0].glyph);
    assert_eq!(Color(0, 0, 0), lines[0].cells[0].color);
}

#[test]
fn viewport_size_is_dot_matrix() {
    let vp = Viewport::with_size_and_pos(92, 47, 46, 23);
    assert_eq!((184, 188), vp.size());
    let whole = Viewport::from_screen_size(80, 24);
    assert_eq!((160, 96), whole.size());
}

#[test]
fn render_averages_colors_per_glyph() {
    // One cell, a 2x4 buffer. Two white wireframe pixels on the
    // bottom row are the two lower dots of the glyph, and the glyph's
    // color is the mean of two white dots and six black ones.
    let vp = Viewport::with_size_and_pos(1, 1, 0, 0);
    let mut r = Renderer::new_wireframe(vp);
    r.draw_face((0, 0), (1, 0), (0, 0), 0);
    let lines = r.render();
    assert_eq!(1, lines.len());
    assert_eq!('\u{28C0}', lines[0].cells[0].glyph);
    assert_eq!(Color(63, 63, 63), lines[0].cells[0].color);
}
