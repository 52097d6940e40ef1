use bren::fixed::{Vec3, FX_ONE};
use bren::obj::{load_obj, LoadError};

#[test]
fn load_simple_model() {
    let text = b"v 1 2 3\nv 4 5 6\nv 0 0 1\nf 1 2 3\n";
    let m = load_obj(text).unwrap();
    assert_eq!(3, m.vertex_buffer.len());
    assert_eq!(1, m.index_buffer.len());
    assert_eq!(
        Vec3 { x: FX_ONE, y: 2 * FX_ONE, z: 3 * FX_ONE },
        m.vertex_buffer[0].position
    );
    assert_eq!((1, 2, 3), m.index_buffer[0].indexes);
}

#[test]
fn load_decimal_coordinates() {
    let text = b"v 1.5 0 -2.25\n";
    let m = load_obj(text).unwrap();
    assert_eq!(
        Vec3 {
            x: FX_ONE + FX_ONE / 2,
            y: 0,
            z: -(2 * FX_ONE + FX_ONE / 4),
        },
        m.vertex_buffer[0].position
    );
}

#[test]
fn blank_and_unknown_lines_are_ignored() {
    let text = b"\n# a comment line\nvt 0.5 0.5\nv 1 1 1\n\ns off\n";
    let m = load_obj(text).unwrap();
    assert_eq!(1, m.vertex_buffer.len());
    assert_eq!(0, m.index_buffer.len());
}

#[test]
fn malformed_number_is_parse_error() {
    let text = b"v 1 x 3\n";
    assert_eq!(Err(LoadError::Parse { line: 0 }), load_obj(text).map(|_| ()));
}

#[test]
fn missing_coordinate_is_parse_error() {
    let text = b"v 1 2\n";
    assert_eq!(Err(LoadError::Parse { line: 0 }), load_obj(text).map(|_| ()));
}

#[test]
fn malformed_face_index_is_parse_error() {
    let text = b"v 0 0 0\nf 1 1 one\n";
    assert_eq!(Err(LoadError::Parse { line: 1 }), load_obj(text).map(|_| ()));
}

#[test]
fn face_index_out_of_range_is_index_error() {
    let text = b"v 0 0 0\nf 1 2 1\n";
    assert_eq!(Err(LoadError::Index { line: 1 }), load_obj(text).map(|_| ()));
}

#[test]
fn face_index_zero_is_index_error() {
    let text = b"v 0 0 0\nf 0 1 1\n";
    assert_eq!(Err(LoadError::Index { line: 1 }), load_obj(text).map(|_| ()));
}

#[test]
fn face_may_only_use_vertices_seen_so_far() {
    // The face on line 0 references vertices that only appear later.
    let text = b"f 1 1 1\nv 0 0 0\n";
    assert_eq!(Err(LoadError::Index { line: 0 }), load_obj(text).map(|_| ()));
}

#[test]
fn oversized_coordinate_is_parse_error() {
    let text = b"v 99999 0 0\n";
    assert_eq!(Err(LoadError::Parse { line: 0 }), load_obj(text).map(|_| ()));
}

#[test]
fn extra_tokens_are_ignored() {
    let text = b"v 1 2 3 9 9\nv 0 0 0\nv 0 0 0\nf 1 2 3 7\n";
    let m = load_obj(text).unwrap();
    assert_eq!(3, m.vertex_buffer.len());
    assert_eq!(1, m.index_buffer.len());
}

#[test]
fn crlf_lines_parse() {
    let text = b"v 1 0 0\r\nv 0 1 0\r\nv 0 0 1\r\nf 1 2 3\r\n";
    let m = load_obj(text).unwrap();
    assert_eq!(3, m.vertex_buffer.len());
    assert_eq!(1, m.index_buffer.len());
}
