use bren::fixed::{fx_mul, ndc_to_screen, to_pixel, Mat3, Vec3, FX_ONE};
use bren::renderer::camera_params_ok;
use bren::model::{Face, Model, Vertex};

fn one_vertex_model(x: i64, y: i64, z: i64) -> Model {
    Model::from_buffers(
        vec![Vertex {
            position: Vec3 { x, y, z },
        }],
        vec![],
    )
}

#[test]
fn fx_mul_exact() {
    assert_eq!(6 * FX_ONE, fx_mul(3 * FX_ONE, 2 * FX_ONE));
    assert_eq!(-6 * FX_ONE, fx_mul(-3 * FX_ONE, 2 * FX_ONE));
    // 1.5 * 0.5 = 0.75
    assert_eq!(FX_ONE / 2 + FX_ONE / 4, fx_mul(FX_ONE + FX_ONE / 2, FX_ONE / 2));
    assert_eq!(0, fx_mul(0, 12345));
}

#[test]
fn to_pixel_truncates_toward_zero() {
    assert_eq!(1, to_pixel(FX_ONE + FX_ONE / 2));
    assert_eq!(-1, to_pixel(-FX_ONE - FX_ONE / 2));
    assert_eq!(0, to_pixel(FX_ONE / 2));
    assert_eq!(0, to_pixel(-FX_ONE / 2));
}

#[test]
fn to_pixel_saturates() {
    assert_eq!(32767, to_pixel(1_000_000 * FX_ONE));
    assert_eq!(-32768, to_pixel(-1_000_000 * FX_ONE));
}

#[test]
fn translate_then_scale_order_is_rotate_scale_translate() {
    // The documented per-vertex order is rotate, then scale, then
    // translate: with scale 2 and translation 10, a vertex at x = 1
    // lands at 2 * 1 + 10 = 12, not at (1 + 10) * 2 = 22.
    let mut m = one_vertex_model(FX_ONE, 0, 0);
    m.translate(10 * FX_ONE, 0, 0);
    m.scale(2 * FX_ONE, FX_ONE, FX_ONE);
    let t = m.transform_and_get_vertex_at(0);
    assert_eq!(12 * FX_ONE, t.position.x);
    assert_ne!(22 * FX_ONE, t.position.x);
}

#[test]
fn setters_replace_not_accumulate() {
    let mut m = one_vertex_model(FX_ONE, 0, 0);
    m.translate(5 * FX_ONE, 0, 0);
    m.translate(7 * FX_ONE, 0, 0);
    m.scale(3 * FX_ONE, FX_ONE, FX_ONE);
    m.scale(FX_ONE, FX_ONE, FX_ONE);
    let t = m.transform_and_get_vertex_at(0);
    // The second translate and the second scale each replaced the
    // first wholesale.
    assert_eq!(8 * FX_ONE, t.position.x);
}

#[test]
fn zero_rotation_projects_like_no_rotation() {
    // Applying the identity rotation and then projecting reproduces
    // the same screen coordinates as never rotating at all.
    let mut a = one_vertex_model(FX_ONE + FX_ONE / 2, -2 * FX_ONE, 3 * FX_ONE);
    let b = one_vertex_model(FX_ONE + FX_ONE / 2, -2 * FX_ONE, 3 * FX_ONE);
    a.translate(4 * FX_ONE, 5 * FX_ONE, 0);
    a.rotate(Mat3::identity());
    let mut b = b;
    b.translate(4 * FX_ONE, 5 * FX_ONE, 0);
    let ta = a.transform_and_get_vertex_at(0);
    let tb = b.transform_and_get_vertex_at(0);
    assert_eq!(ta.position, tb.position);
    assert_eq!(to_pixel(ta.position.x), to_pixel(tb.position.x));
    assert_eq!(to_pixel(ta.position.y), to_pixel(tb.position.y));
}

#[test]
fn rotate_replaces_previous_rotation() {
    // A quarter turn around z, then the identity: only the identity
    // remains.
    let quarter = Mat3 {
        r0: Vec3 { x: 0, y: -FX_ONE, z: 0 },
        r1: Vec3 { x: FX_ONE, y: 0, z: 0 },
        r2: Vec3 { x: 0, y: 0, z: FX_ONE },
    };
    let mut m = one_vertex_model(FX_ONE, 0, 0);
    m.rotate(quarter);
    m.rotate(Mat3::identity());
    let t = m.transform_and_get_vertex_at(0);
    assert_eq!(FX_ONE, t.position.x);
    assert_eq!(0, t.position.y);
}

#[test]
fn rotation_matrix_applies() {
    let quarter = Mat3 {
        r0: Vec3 { x: 0, y: -FX_ONE, z: 0 },
        r1: Vec3 { x: FX_ONE, y: 0, z: 0 },
        r2: Vec3 { x: 0, y: 0, z: FX_ONE },
    };
    let mut m = one_vertex_model(FX_ONE, 0, 0);
    m.rotate(quarter);
    let t = m.transform_and_get_vertex_at(0);
    assert_eq!(0, t.position.x);
    assert_eq!(FX_ONE, t.position.y);
}

#[test]
fn vertex_at_returns_stored_vertex() {
    let m = one_vertex_model(3, 2, 1);
    let v = m.vertex_at(0);
    assert_eq!(Vec3 { x: 3, y: 2, z: 1 }, v.position);
}

#[test]
fn new_plane_topology() {
    let m = Model::new_plane(2, 2 * FX_ONE);
    assert_eq!(9, m.vertex_buffer.len());
    assert_eq!(8, m.index_buffer.len());
    // div_length = width / div = 1.0; offset = width / 2 = 1.0.
    assert_eq!(
        Vec3 { x: -FX_ONE, y: -FX_ONE, z: 0 },
        m.vertex_buffer[0].position
    );
    assert_eq!(
        Vec3 { x: FX_ONE, y: FX_ONE, z: 0 },
        m.vertex_buffer[8].position
    );
    // The first quad's two faces.
    assert_eq!(Face { indexes: (1, 4, 2) }, m.index_buffer[0]);
    assert_eq!(Face { indexes: (2, 4, 5) }, m.index_buffer[1]);
}

#[test]
fn new_plane_faces_in_range() {
    let m = Model::new_plane(3, FX_ONE);
    assert_eq!(16, m.vertex_buffer.len());
    assert_eq!(18, m.index_buffer.len());
    for f in m.index_buffer.iter() {
        assert!(1 <= f.indexes.0 && f.indexes.0 <= 16);
        assert!(1 <= f.indexes.1 && f.indexes.1 <= 16);
        assert!(1 <= f.indexes.2 && f.indexes.2 <= 16);
    }
}

#[test]
fn ndc_remap_covers_screen() {
    // screen = ndc * (dim / 2) + dim / 2
    assert_eq!(50, ndc_to_screen(0, 100));
    assert_eq!(100, ndc_to_screen(FX_ONE, 100));
    assert_eq!(0, ndc_to_screen(-FX_ONE, 100));
    assert_eq!(75, ndc_to_screen(FX_ONE / 2, 100));
}

#[test]
fn camera_parameter_admission() {
    assert!(camera_params_ok(FX_ONE, FX_ONE, FX_ONE, 1000 * FX_ONE));
    // Invalid aspect ratio.
    assert!(!camera_params_ok(0, FX_ONE, FX_ONE, 1000 * FX_ONE));
    assert!(!camera_params_ok(-FX_ONE, FX_ONE, FX_ONE, 1000 * FX_ONE));
    // Inverted near and far planes.
    assert!(!camera_params_ok(FX_ONE, FX_ONE, 1000 * FX_ONE, FX_ONE));
    // A non-positive near plane.
    assert!(!camera_params_ok(FX_ONE, FX_ONE, 0, 1000 * FX_ONE));
}
