use bren::braille;
use bren::color::Color;
use bren::screen::Screen;
use bren::viewport::Viewport;

#[test]
fn lib_test_into_braille_all() {
    // o o
    // o o
    // o o
    // o o
    let all_dots = [[true, true, true, true], [true, true, true, true]];
    assert_eq!('\u{28FF}', braille::into_braille(all_dots));
}

#[test]
fn lib_test_into_braille_some() {
    // o o
    // _ _
    // _ o
    // o _
    let some_dots = [[true, false, false, true], [true, false, true, false]];
    assert_eq!('\u{2869}', braille::into_braille(some_dots));
}

#[test]
fn lib_test_into_braille_none() {
    // _ _
    // _ _
    // _ _
    // _ _
    let no_dots = [[false, false, false, false], [false, false, false, false]];
    assert_eq!('\u{2800}', braille::into_braille(no_dots));
}

#[test]
fn test_into_char_buffer() {
    let pixel_buffer = vec![
        vec![true, true, true, true],
        vec![true, true, true, true],
        vec![true, false, false, true],
        vec![true, false, true, false],
        vec![false, false, false, false],
        vec![false, false, false, false],
    ];
    assert_eq!(
        vec!['\u{28FF}', '\u{2869}', '\u{2800}'],
        braille::into_char_buffer(&pixel_buffer)
    )
}

#[test]
fn screen_test_into_braille_all() {
    let all_dots = [[true, true, true, true], [true, true, true, true]];
    assert_eq!('\u{28FF}', Screen::into_braille(all_dots));
}

#[test]
fn screen_test_into_braille_some() {
    let some_dots = [[true, false, false, true], [true, false, true, false]];
    assert_eq!('\u{2869}', Screen::into_braille(some_dots));
}

#[test]
fn screen_test_into_braille_none() {
    let no_dots = [[false, false, false, false], [false, false, false, false]];
    assert_eq!('\u{2800}', Screen::into_braille(no_dots));
}

#[test]
fn viewport_test_into_braille_all() {
    let all_dots = [
        [
            Color(255, 255, 255),
            Color(255, 255, 255),
            Color(255, 255, 255),
            Color(255, 255, 255),
        ],
        [
            Color(255, 255, 255),
            Color(255, 255, 255),
            Color(255, 255, 255),
            Color(255, 255, 255),
        ],
    ];
    assert_eq!('\u{28FF}', Viewport::into_braille(all_dots));
}

#[test]
fn viewport_test_into_braille_some() {
    let some_dots = [
        [
            Color(255, 255, 255),
            Color(0, 0, 0),
            Color(0, 0, 0),
            Color(255, 255, 255),
        ],
        [
            Color(255, 255, 255),
            Color(0, 0, 0),
            Color(255, 255, 255),
            Color(0, 0, 0),
        ],
    ];
    assert_eq!('\u{2869}', Viewport::into_braille(some_dots));
}

#[test]
fn viewport_test_into_braille_none() {
    let no_dots = [
        [
            Color(0, 0, 0),
            Color(0, 0, 0),
            Color(0, 0, 0),
            Color(0, 0, 0),
        ],
        [
            Color(0, 0, 0),
            Color(0, 0, 0),
            Color(0, 0, 0),
            Color(0, 0, 0),
        ],
    ];
    assert_eq!('\u{2800}', Viewport::into_braille(no_dots));
}

#[test]
fn renderer2d_test_into_braille_all() {
    let all_dots = [[true, true, true, true], [true, true, true, true]];
    assert_eq!('\u{28FF}', braille::into_braille(all_dots));
}

#[test]
fn renderer2d_test_into_braille_some() {
    let some_dots = [[true, false, false, true], [true, false, true, false]];
    assert_eq!('\u{2869}', braille::into_braille(some_dots));
}

#[test]
fn renderer2d_test_into_braille_none() {
    let no_dots = [[false, false, false, false], [false, false, false, false]];
    assert_eq!('\u{2800}', braille::into_braille(no_dots));
}

#[test]
fn renderer3d_test_into_braille_all() {
    let all_dots = [[true, true, true, true], [true, true, true, true]];
    assert_eq!('\u{28FF}', braille::into_braille(all_dots));
}

#[test]
fn renderer3d_test_into_braille_some() {
    let some_dots = [[true, false, false, true], [true, false, true, false]];
    assert_eq!('\u{2869}', braille::into_braille(some_dots));
}

#[test]
fn renderer3d_test_into_braille_none() {
    let no_dots = [[false, false, false, false], [false, false, false, false]];
    assert_eq!('\u{2800}', braille::into_braille(no_dots));
}

#[test]
fn encode_glyph_all_lit() {
    assert_eq!('\u{28FF}', braille::encode_glyph([true; 8]));
}

#[test]
fn encode_glyph_all_unlit() {
    assert_eq!('\u{2800}', braille::encode_glyph([false; 8]));
}

#[test]
fn encode_glyph_mixed_pattern() {
    // lit = {left0, right0, right2, left3} in the standard dot order
    // [left0, left1, left2, right0, right1, right2, left3, right3].
    let dots = [true, false, false, true, false, true, true, false];
    assert_eq!('\u{2869}', braille::encode_glyph(dots));
}

#[test]
fn screen_size_is_dot_matrix() {
    let s = Screen::new(80, 24);
    assert_eq!((160, 96), s.get_size());
}

#[test]
fn screen_draw_chars_blank_grid() {
    let s = Screen::new(1, 1);
    let grid = vec![vec![false; 4], vec![false; 4]];
    assert_eq!(vec!['\u{2800}'], s.draw_chars(&grid));
}

#[test]
fn screen_draw_chars_scans_bottom_up() {
    // A 2x8 grid is two glyph rows; a single dot in the top-left
    // corner of the drawing (x = 0, highest y) shows up in the first
    // output glyph as the top-left dot.
    let s = Screen::new(1, 2);
    let mut grid = vec![vec![false; 8], vec![false; 8]];
    grid[0][7] = true;
    let chars = s.draw_chars(&grid);
    assert_eq!(vec!['\u{2801}', '\u{2800}'], chars);
}
