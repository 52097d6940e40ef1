use bren::primitives;
use bren::renderer2d::Renderer;

#[test]
fn line_points_horizontal_order() {
    // The Bresenham line from (0,0) to (3,0) lights exactly four
    // pixels, in this visitation order.
    let pts = primitives::line_points(0, 0, 3, 0);
    assert_eq!(vec![(0, 0), (1, 0), (2, 0), (3, 0)], pts);
}

#[test]
fn line_points_vertical_order() {
    let pts = primitives::line_points(2, 1, 2, 4);
    assert_eq!(vec![(2, 1), (2, 2), (2, 3), (2, 4)], pts);
}

#[test]
fn line_points_single_point() {
    let pts = primitives::line_points(7, -3, 7, -3);
    assert_eq!(vec![(7, -3)], pts);
}

#[test]
fn line_points_diagonal() {
    let pts = primitives::line_points(0, 0, 3, 3);
    assert_eq!(vec![(0, 0), (1, 1), (2, 2), (3, 3)], pts);
}

#[test]
fn draw_line_lights_exact_pixels() {
    let mut r = Renderer::with_size(2, 1);
    r.draw_line(0, 0, 3, 0);
    for x in 0..4u16 {
        for y in 0..4u16 {
            assert_eq!(y == 0, r.pixel_at(x, y), "pixel ({}, {})", x, y);
        }
    }
}

#[test]
fn draw_pixel_out_of_range_is_dropped() {
    let mut r = Renderer::with_size(2, 1);
    r.draw_pixel(-1, 0);
    r.draw_pixel(0, 99);
    for x in 0..4u16 {
        for y in 0..4u16 {
            assert!(!r.pixel_at(x, y));
        }
    }
}

#[test]
fn circle_points_symmetric_both_axes() {
    // Every plotted point has its mirrors across the vertical and
    // horizontal axes through the center plotted too.
    for r in 0..8i16 {
        let pts = primitives::circle_points(20, 20, r);
        for &(a, b) in pts.iter() {
            assert!(pts.contains(&(40 - a, b)), "vertical mirror of ({}, {})", a, b);
            assert!(pts.contains(&(a, 40 - b)), "horizontal mirror of ({}, {})", a, b);
        }
    }
}

#[test]
fn circle_radius_zero_is_center() {
    let mut r = Renderer::with_size(2, 1);
    r.draw_circle(1, 1, 0);
    for x in 0..4u16 {
        for y in 0..4u16 {
            assert_eq!(x == 1 && y == 1, r.pixel_at(x, y));
        }
    }
}

#[test]
fn draw_circle_radius_two() {
    let mut r = Renderer::with_size(4, 2);
    r.draw_circle(3, 3, 2);
    // The DDA outline of radius 2 around (3, 3).
    assert!(r.pixel_at(1, 3));
    assert!(r.pixel_at(5, 3));
    assert!(r.pixel_at(3, 1));
    assert!(r.pixel_at(3, 5));
    assert!(!r.pixel_at(3, 3));
}

#[test]
fn draw_filled_circle_covers_center() {
    let mut r = Renderer::with_size(4, 2);
    r.draw_filled_circle(3, 3, 2);
    // Every spoke ends at the center, and the outline is drawn.
    assert!(r.pixel_at(3, 3));
    assert!(r.pixel_at(1, 3));
    assert!(r.pixel_at(5, 3));
    assert!(r.pixel_at(2, 3));
    assert!(r.pixel_at(4, 3));
}

#[test]
fn clear_resets_pixels_and_labels() {
    let mut r = Renderer::with_size(2, 1);
    r.draw_line(0, 0, 3, 3);
    r.write_label(1, 2, "hello");
    r.clear();
    for x in 0..4u16 {
        for y in 0..4u16 {
            assert!(!r.pixel_at(x, y));
        }
    }
    assert_eq!(0, r.labels().len());
}

#[test]
fn write_label_appends() {
    let mut r = Renderer::with_size(2, 1);
    r.write_label(1, 2, "hello");
    r.write_label(3, 4, "there");
    let labels = r.labels();
    assert_eq!(2, labels.len());
    assert_eq!("hello", labels[0].message);
    assert_eq!((1, 2), labels[0].position);
    assert_eq!("there", labels[1].message);
    assert_eq!((3, 4), labels[1].position);
}

#[test]
fn renderer2d_render_stream() {
    // One cell, 2x4 pixels. A dot at (0, 3) is the top-left dot of
    // the single glyph; a dot at (0, 0) is its lower-left dot.
    let mut r = Renderer::with_size(1, 1);
    r.draw_pixel(0, 3);
    assert_eq!(vec!['\u{2801}'], r.render());
    r.clear();
    r.draw_pixel(0, 0);
    assert_eq!(vec!['\u{2840}'], r.render());
}

#[test]
fn terminal_size_reports_pixels() {
    let r = Renderer::with_size(10, 5);
    assert_eq!((20, 20), r.terminal_size());
}
