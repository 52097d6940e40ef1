//! 3D models: vertex and face buffers plus one transform.
//!
//! A transform holds a translation, per-axis scale factors and a
//! rotation matrix; its setters replace the corresponding component
//! wholesale, never accumulate. A vertex is transformed in the fixed
//! order rotate, then scale, then translate.

use crate::fixed::coord_ok;
use crate::fixed::entry_ok;
use crate::fixed::fx_mul;
use crate::fixed::lemma_trunc_div_bound;
use crate::fixed::mat3_identity;
use crate::fixed::mat_ok;
use crate::fixed::rot_apply;
use crate::fixed::row_dot;
use crate::fixed::scale_apply;
use crate::fixed::scale_ok;
use crate::fixed::trans_ok;
use crate::fixed::translate_apply;
use crate::fixed::trunc_div;
use crate::fixed::vec_ok;
use crate::fixed::vec_view;
use crate::fixed::Mat3;
use crate::fixed::Vec3;
use crate::fixed::FX_ONE;
use vstd::prelude::*;

verus! {

/// A single point in 3D space, in 16.16 fixed point.
#[derive(Clone, Copy, Debug, PartialEq, Eq, Structural)]
pub struct Vertex {
    pub position: Vec3,
}

/// A triangular face: three 1-based indices into a model's vertex
/// buffer.
#[derive(Clone, Copy, Debug, PartialEq, Eq)]
pub struct Face {
    pub indexes: (usize, usize, usize),
}

/// A face's indices are 1-based and in range for a vertex buffer of
/// `n` entries.
pub open spec fn face_ok(f: Face, n: int) -> bool {
    &&& 1 <= f.indexes.0 <= n
    &&& 1 <= f.indexes.1 <= n
    &&& 1 <= f.indexes.2 <= n
}

/// The transform of a model: translation, per-axis scale and a
/// rotation matrix, each replaced wholesale by its setter.
#[derive(Clone, Copy, Debug, PartialEq, Eq, Structural)]
pub struct Transform {
    pub position: Vec3,
    pub scale: Vec3,
    pub rotation: Mat3,
}

/// All transform components within the ranges the arithmetic
/// contracts ask for.
pub open spec fn transform_ok(t: Transform) -> bool {
    &&& trans_ok(t.position.x as int) && trans_ok(t.position.y as int) && trans_ok(
        t.position.z as int,
    )
    &&& scale_ok(t.scale.x as int) && scale_ok(t.scale.y as int) && scale_ok(t.scale.z as int)
    &&& mat_ok(t.rotation)
}

/// A point taken through the whole transform: rotated about the local
/// origin first, then scaled, then translated, so that scaling and
/// translating do not distort the rotation axis.
pub open spec fn transformed_spec(t: Transform, p: (int, int, int)) -> (int, int, int) {
    translate_apply(t.position, scale_apply(t.scale, rot_apply(t.rotation, p)))
}

impl Transform {
    /// The identity transform: zero translation, unit scale, identity
    /// rotation.
    pub fn identity() -> (t: Transform)
        ensures
            t.position == (Vec3 { x: 0i64, y: 0i64, z: 0i64 }),
            t.scale == (Vec3 { x: FX_ONE as i64, y: FX_ONE as i64, z: FX_ONE as i64 }),
            t.rotation == mat3_identity(),
            transform_ok(t),
    {
        Transform {
            position: Vec3 { x: 0, y: 0, z: 0 },
            scale: Vec3 { x: FX_ONE, y: FX_ONE, z: FX_ONE },
            rotation: Mat3::identity(),
        }
    }
}

/// One matrix row applied to a vertex position: the fixed-point dot
/// product, with its magnitude bound for the following stages.
fn row_mul(r: Vec3, p: Vec3) -> (d: i64)
    requires
        entry_ok(r.x as int) && entry_ok(r.y as int) && entry_ok(r.z as int),
        vec_ok(p),
    ensures
        d as int == row_dot(r, vec_view(p)),
        -0x100_0000_0000 <= d <= 0x100_0000_0000,
{
    let tx = fx_mul(r.x, p.x);
    let ty = fx_mul(r.y, p.y);
    let tz = fx_mul(r.z, p.z);
    proof {
        assert(-0x20_0000_0000_0000 <= r.x * p.x <= 0x20_0000_0000_0000) by (nonlinear_arith)
            requires
                entry_ok(r.x as int) && coord_ok(p.x as int),
        ;
        assert(-0x20_0000_0000_0000 <= r.y * p.y <= 0x20_0000_0000_0000) by (nonlinear_arith)
            requires
                entry_ok(r.y as int) && coord_ok(p.y as int),
        ;
        assert(-0x20_0000_0000_0000 <= r.z * p.z <= 0x20_0000_0000_0000) by (nonlinear_arith)
            requires
                entry_ok(r.z as int) && coord_ok(p.z as int),
        ;
        lemma_trunc_div_bound(r.x * p.x, 65536, 0x20_0000_0000_0000);
        lemma_trunc_div_bound(r.y * p.y, 65536, 0x20_0000_0000_0000);
        lemma_trunc_div_bound(r.z * p.z, 65536, 0x20_0000_0000_0000);
    }
    tx + ty + tz
}

impl Vertex {
    /// The vertex taken through the transform, in the order rotate,
    /// scale, translate. The stored vertex is not changed; a
    /// transformed copy is returned.
    pub fn get_transformed(&self, transform: &Transform) -> (r: Vertex)
        requires
            vec_ok(self.position),
            transform_ok(*transform),
        ensures
            vec_view(r.position) == transformed_spec(*transform, vec_view(self.position)),
            -0x41_0000_0000_0000 <= r.position.x <= 0x41_0000_0000_0000,
            -0x41_0000_0000_0000 <= r.position.y <= 0x41_0000_0000_0000,
            -0x41_0000_0000_0000 <= r.position.z <= 0x41_0000_0000_0000,
    {
        let rx = row_mul(transform.rotation.r0, self.position);
        let ry = row_mul(transform.rotation.r1, self.position);
        let rz = row_mul(transform.rotation.r2, self.position);
        let sx = fx_mul(rx, transform.scale.x);
        let sy = fx_mul(ry, transform.scale.y);
        let sz = fx_mul(rz, transform.scale.z);
        Vertex {
            position: Vec3 {
                x: sx + transform.position.x,
                y: sy + transform.position.y,
                z: sz + transform.position.z,
            },
        }
    }
}

/// A 3D object: a vertex buffer, a face buffer of 1-based index
/// triples into it, and one transform.
pub struct Model {
    pub vertex_buffer: Vec<Vertex>,
    pub index_buffer: Vec<Face>,
    pub transform: Transform,
}

impl Model {
    /// The current transform, for contracts.
    pub open spec fn spec_transform(&self) -> Transform {
        self.transform
    }

    /// Buffers and transform are in range: every face's indices are
    /// 1-based and valid, every vertex coordinate and transform
    /// component small enough for the exact arithmetic.
    pub open spec fn wf(&self) -> bool {
        &&& forall|i: int|
            0 <= i < self.index_buffer@.len() ==> face_ok(
                #[trigger] self.index_buffer@[i],
                self.vertex_buffer@.len() as int,
            )
        &&& forall|i: int|
            0 <= i < self.vertex_buffer@.len() ==> vec_ok(
                (#[trigger] self.vertex_buffer@[i]).position,
            )
        &&& transform_ok(self.spec_transform())
    }

    /// Builds a model from buffers that are already in range, with
    /// the identity transform.
    pub fn from_buffers(vertex_buffer: Vec<Vertex>, index_buffer: Vec<Face>) -> (m: Model)
        requires
            forall|i: int|
                0 <= i < index_buffer@.len() ==> face_ok(
                    #[trigger] index_buffer@[i],
                    vertex_buffer@.len() as int,
                ),
            forall|i: int|
                0 <= i < vertex_buffer@.len() ==> vec_ok((#[trigger] vertex_buffer@[i]).position),
        ensures
            m.wf(),
            m.vertex_buffer == vertex_buffer,
            m.index_buffer == index_buffer,
            m.spec_transform().position == (Vec3 { x: 0i64, y: 0i64, z: 0i64 }),
            m.spec_transform().scale == (Vec3 {
                x: FX_ONE as i64,
                y: FX_ONE as i64,
                z: FX_ONE as i64,
            }),
            m.spec_transform().rotation == mat3_identity(),
    {
        Model { vertex_buffer, index_buffer, transform: Transform::identity() }
    }

    /// Replaces the translation with `(x, y, z)`; earlier
    /// translations do not accumulate.
    pub fn translate(&mut self, x: i64, y: i64, z: i64)
        requires
            old(self).wf(),
            trans_ok(x as int) && trans_ok(y as int) && trans_ok(z as int),
        ensures
            final(self).wf(),
            final(self).spec_transform().position == (Vec3 { x, y, z }),
            final(self).spec_transform().scale == old(self).spec_transform().scale,
            final(self).spec_transform().rotation == old(self).spec_transform().rotation,
            final(self).vertex_buffer == old(self).vertex_buffer,
            final(self).index_buffer == old(self).index_buffer,
    {
        self.transform.position = Vec3 { x, y, z };
    }

    /// Replaces the per-axis scale with `(x, y, z)`; earlier scales
    /// do not accumulate.
    pub fn scale(&mut self, x: i64, y: i64, z: i64)
        requires
            old(self).wf(),
            scale_ok(x as int) && scale_ok(y as int) && scale_ok(z as int),
        ensures
            final(self).wf(),
            final(self).spec_transform().scale == (Vec3 { x, y, z }),
            final(self).spec_transform().position == old(self).spec_transform().position,
            final(self).spec_transform().rotation == old(self).spec_transform().rotation,
            final(self).vertex_buffer == old(self).vertex_buffer,
            final(self).index_buffer == old(self).index_buffer,
    {
        self.transform.scale = Vec3 { x, y, z };
    }

    /// Replaces the rotation with the given matrix; earlier rotations
    /// do not accumulate. An output stage computes the matrix from
    /// Euler angles; zero angles give the identity matrix.
    pub fn rotate(&mut self, m: Mat3)
        requires
            old(self).wf(),
            mat_ok(m),
        ensures
            final(self).wf(),
            final(self).spec_transform().rotation == m,
            final(self).spec_transform().position == old(self).spec_transform().position,
            final(self).spec_transform().scale == old(self).spec_transform().scale,
            final(self).vertex_buffer == old(self).vertex_buffer,
            final(self).index_buffer == old(self).index_buffer,
    {
        self.transform.rotation = m;
    }

    /// The vertex at a 0-based index.
    pub fn vertex_at(&self, index: usize) -> (v: Vertex)
        requires
            index < self.vertex_buffer@.len(),
        ensures
            v == self.vertex_buffer@[index as int],
    {
        self.vertex_buffer[index]
    }

    /// The vertex at a 0-based index, taken through the model's
    /// transform: rotate, then scale, then translate.
    pub fn transform_and_get_vertex_at(&self, index: usize) -> (r: Vertex)
        requires
            self.wf(),
            index < self.vertex_buffer@.len(),
        ensures
            vec_view(r.position) == transformed_spec(
                self.spec_transform(),
                vec_view(self.vertex_buffer@[index as int].position),
            ),
            -0x41_0000_0000_0000 <= r.position.x <= 0x41_0000_0000_0000,
            -0x41_0000_0000_0000 <= r.position.y <= 0x41_0000_0000_0000,
            -0x41_0000_0000_0000 <= r.position.z <= 0x41_0000_0000_0000,
    {
        let v = self.vertex_buffer[index];
        v.get_transformed(&self.transform)
    }
}

/// The coordinate of a plane grid line stays within the plane's
/// extent: `xi` steps of the truncated division step stay below the
/// width bound.
proof fn lemma_plane_coord_bound(xi: int, div: int, dl: int, width: int)
    requires
        1 <= div,
        0 <= xi <= div,
        -0x800_0000 <= width <= 0x800_0000,
        dl == trunc_div(width, div),
    ensures
        -0x800_0000 <= xi * dl <= 0x800_0000,
{
    lemma_trunc_div_bound(width, div, 0x800_0000);
    let q = 0x800_0000int / div;
    vstd::arithmetic::div_mod::lemma_fundamental_div_mod(0x800_0000, div);
    vstd::arithmetic::div_mod::lemma_remainder_lower(0x800_0000, div);
    assert(div * q <= 0x800_0000);
    assert(xi * dl <= 0x800_0000) by (nonlinear_arith)
        requires
            0 <= xi <= div && -q <= dl <= q && div * q <= 0x800_0000,
    ;
    assert(-0x800_0000 <= xi * dl) by (nonlinear_arith)
        requires
            0 <= xi <= div && -q <= dl <= q && div * q <= 0x800_0000,
    ;
}

impl Model {
    /// Builds a subdivided square plane in the `z = 0` plane,
    /// `div x div` quads of two triangles each, centered on the
    /// origin: grid line `i` sits at `i * (width / div) - width / 2`
    /// on its axis (all divisions truncating). The vertex at grid
    /// position `(x, y)` is entry `x * (div + 1) + y`, and quad
    /// `(x, y)` contributes faces `2 * (y * div + x)` and the entry
    /// after it, wound as the two triangles of the quad.
    pub fn new_plane(div: i16, width: i64) -> (m: Model)
        requires
            1 <= div <= 1000,
            -0x800_0000 <= width <= 0x800_0000,
        ensures
            m.wf(),
            m.spec_transform().position == (Vec3 { x: 0i64, y: 0i64, z: 0i64 }),
            m.spec_transform().scale == (Vec3 {
                x: FX_ONE as i64,
                y: FX_ONE as i64,
                z: FX_ONE as i64,
            }),
            m.spec_transform().rotation == mat3_identity(),
            m.vertex_buffer@.len() == (div + 1) * (div + 1),
            m.index_buffer@.len() == 2 * div * div,
            forall|xi: int, yi: int|
                0 <= xi <= div && 0 <= yi <= div ==> {
                    let v = #[trigger] m.vertex_buffer@[xi * (div + 1) + yi];
                    &&& v.position.x as int == xi * trunc_div(width as int, div as int) - trunc_div(
                        width as int,
                        2,
                    )
                    &&& v.position.y as int == yi * trunc_div(width as int, div as int) - trunc_div(
                        width as int,
                        2,
                    )
                    &&& v.position.z == 0
                },
            forall|xi: int, yi: int|
                0 <= xi < div && 0 <= yi < div ==> {
                    let curr = xi + 1 + yi * (div + 1);
                    let f0 = #[trigger] m.index_buffer@[2 * (yi * div + xi)];
                    let f1 = m.index_buffer@[2 * (yi * div + xi) + 1];
                    &&& f0.indexes.0 == curr
                    &&& f0.indexes.1 == curr + div + 1
                    &&& f0.indexes.2 == curr + 1
                    &&& f1.indexes.0 == curr + 1
                    &&& f1.indexes.1 == curr + div + 1
                    &&& f1.indexes.2 == curr + div + 2
                },
    {
        let divu: usize = div as usize;
        let divl: i64 = div as i64;
        let dl: i64 = crate::fixed::div_trunc(width, divl);
        let off: i64 = crate::fixed::div_trunc(width, 2);
        proof {
            lemma_trunc_div_bound(width as int, divl as int, 0x800_0000);
            lemma_trunc_div_bound(width as int, 2, 0x800_0000);
        }
        let mut vertex_buffer: Vec<Vertex> = Vec::new();
        let mut xi: usize = 0;
        while xi <= divu
            invariant
                divu == div as int,
                divl == div as int,
                1 <= div <= 1000,
                -0x800_0000 <= width <= 0x800_0000,
                dl as int == trunc_div(width as int, div as int),
                off as int == trunc_div(width as int, 2),
                -0x800_0000 <= dl <= 0x800_0000,
                -0x800_0000 <= off <= 0x800_0000,
                0 <= xi <= divu + 1,
                vertex_buffer@.len() == xi * (divu + 1),
                forall|k: int|
                    0 <= k < vertex_buffer@.len() ==> {
                        let v = #[trigger] vertex_buffer@[k];
                        &&& v.position.x as int == (k / (divu + 1)) * (dl as int) - off
                        &&& v.position.y as int == (k % (divu + 1)) * (dl as int) - off
                        &&& v.position.z == 0
                        &&& vec_ok(v.position)
                    },
            decreases divu + 1 - xi,
        {
            proof {
                lemma_plane_coord_bound(xi as int, div as int, dl as int, width as int);
            }
            let xv: i64 = (xi as i64) * dl;
            let mut yi: usize = 0;
            while yi <= divu
                invariant
                    divu == div as int,
                    divl == div as int,
                    1 <= div <= 1000,
                    -0x800_0000 <= width <= 0x800_0000,
                    dl as int == trunc_div(width as int, div as int),
                    off as int == trunc_div(width as int, 2),
                    -0x800_0000 <= dl <= 0x800_0000,
                    -0x800_0000 <= off <= 0x800_0000,
                    0 <= xi <= divu,
                    xv == xi * dl,
                    -0x800_0000 <= xv <= 0x800_0000,
                    0 <= yi <= divu + 1,
                    vertex_buffer@.len() == xi * (divu + 1) + yi,
                    forall|k: int|
                        0 <= k < vertex_buffer@.len() ==> {
                            let v = #[trigger] vertex_buffer@[k];
                            &&& v.position.x as int == (k / (divu + 1)) * (dl as int) - off
                            &&& v.position.y as int == (k % (divu + 1)) * (dl as int) - off
                            &&& v.position.z == 0
                            &&& vec_ok(v.position)
                        },
                decreases divu + 1 - yi,
            {
                proof {
                    lemma_plane_coord_bound(yi as int, div as int, dl as int, width as int);
                    vstd::arithmetic::div_mod::lemma_fundamental_div_mod_converse(
                        xi as int * (divu as int + 1) + yi as int,
                        divu as int + 1,
                        xi as int,
                        yi as int,
                    );
                }
                let yv: i64 = (yi as i64) * dl;
                vertex_buffer.push(Vertex { position: Vec3 { x: xv - off, y: yv - off, z: 0 } });
                yi = yi + 1;
            }
            let ghost prev = xi as int;
            xi = xi + 1;
            assert((prev + 1) * (divu + 1) == prev * (divu + 1) + (divu + 1)) by (nonlinear_arith);
        }
        assert(vertex_buffer@.len() == (divu + 1) * (divu + 1));
        let n_vertices: usize = vertex_buffer.len();
        let mut index_buffer: Vec<Face> = Vec::new();
        let mut yi: usize = 0;
        while yi < divu
            invariant
                divu == div as int,
                1 <= div <= 1000,
                n_vertices == (divu + 1) * (divu + 1),
                0 <= yi <= divu,
                index_buffer@.len() == 2 * (yi * divu),
                forall|p: int|
                    0 <= p < yi * divu ==> {
                        let curr = (p % (divu as int)) + 1 + (p / (divu as int)) * (divu + 1);
                        let f0 = #[trigger] index_buffer@[2 * p];
                        let f1 = index_buffer@[2 * p + 1];
                        &&& f0.indexes.0 == curr
                        &&& f0.indexes.1 == curr + divu + 1
                        &&& f0.indexes.2 == curr + 1
                        &&& f1.indexes.0 == curr + 1
                        &&& f1.indexes.1 == curr + divu + 1
                        &&& f1.indexes.2 == curr + divu + 2
                        &&& face_ok(f0, n_vertices as int)
                        &&& face_ok(f1, n_vertices as int)
                    },
            decreases divu - yi,
        {
            let mut xi2: usize = 0;
            while xi2 < divu
                invariant
                    divu == div as int,
                    1 <= div <= 1000,
                    n_vertices == (divu + 1) * (divu + 1),
                    0 <= yi < divu,
                    0 <= xi2 <= divu,
                    index_buffer@.len() == 2 * (yi * divu + xi2),
                    forall|p: int|
                        0 <= p < yi * divu + xi2 ==> {
                            let curr = (p % (divu as int)) + 1 + (p / (divu as int)) * (divu + 1);
                            let f0 = #[trigger] index_buffer@[2 * p];
                            let f1 = index_buffer@[2 * p + 1];
                            &&& f0.indexes.0 == curr
                            &&& f0.indexes.1 == curr + divu + 1
                            &&& f0.indexes.2 == curr + 1
                            &&& f1.indexes.0 == curr + 1
                            &&& f1.indexes.1 == curr + divu + 1
                            &&& f1.indexes.2 == curr + divu + 2
                            &&& face_ok(f0, n_vertices as int)
                            &&& face_ok(f1, n_vertices as int)
                        },
                decreases divu - xi2,
            {
                proof {
                    assert(yi * divu + xi2 < divu * divu) by (nonlinear_arith)
                        requires
                            0 <= yi < divu as int && 0 <= xi2 < divu as int,
                    ;
                    assert(yi * (divu + 1) <= (divu - 1) * (divu + 1)) by (nonlinear_arith)
                        requires
                            0 <= yi <= divu as int - 1 && divu as int >= 1,
                    ;
                    assert((divu - 1) * (divu + 1) + 2 * divu + 2 == (divu + 1) * (divu + 1))
                        by (nonlinear_arith);
                    vstd::arithmetic::div_mod::lemma_fundamental_div_mod_converse(
                        yi as int * (divu as int) + xi2 as int,
                        divu as int,
                        yi as int,
                        xi2 as int,
                    );
                }
                let curr: usize = (xi2 + 1) + yi * (divu + 1);
                index_buffer.push(Face { indexes: (curr, curr + divu + 1, curr + 1) });
                index_buffer.push(Face { indexes: (curr + 1, curr + divu + 1, curr + divu + 2) });
                xi2 = xi2 + 1;
            }
            let ghost prevy = yi as int;
            yi = yi + 1;
            assert(prevy * (divu as int) + divu == (prevy + 1) * (divu as int)) by (nonlinear_arith);
        }
        assert(index_buffer@.len() == 2 * ((divu as int) * (divu as int)));
        assert(2 * ((divu as int) * (divu as int)) == 2 * (div as int) * (div as int))
            by (nonlinear_arith)
            requires
                divu == div as int,
        ;
        let m = Model {
            vertex_buffer,
            index_buffer,
            transform: Transform::identity(),
        };
        proof {
            assert forall|xi3: int, yi3: int| 0 <= xi3 <= div && 0 <= yi3 <= div implies {
                let v = #[trigger] m.vertex_buffer@[xi3 * (div + 1) + yi3];
                &&& v.position.x as int == xi3 * trunc_div(width as int, div as int) - trunc_div(
                    width as int,
                    2,
                )
                &&& v.position.y as int == yi3 * trunc_div(width as int, div as int) - trunc_div(
                    width as int,
                    2,
                )
                &&& v.position.z == 0
            } by {
                assert(0 <= xi3 * (div + 1) + yi3 < (divu as int + 1) * (divu as int + 1))
                    by (nonlinear_arith)
                    requires
                        0 <= xi3 <= div as int && 0 <= yi3 <= div as int && divu == div as int,
                ;
                vstd::arithmetic::div_mod::lemma_fundamental_div_mod_converse(
                    xi3 * (divu as int + 1) + yi3,
                    divu as int + 1,
                    xi3,
                    yi3,
                );
            }
            assert forall|xi3: int, yi3: int| 0 <= xi3 < div && 0 <= yi3 < div implies {
                let curr = xi3 + 1 + yi3 * (div + 1);
                let f0 = #[trigger] m.index_buffer@[2 * (yi3 * div + xi3)];
                let f1 = m.index_buffer@[2 * (yi3 * div + xi3) + 1];
                &&& f0.indexes.0 == curr
                &&& f0.indexes.1 == curr + div + 1
                &&& f0.indexes.2 == curr + 1
                &&& f1.indexes.0 == curr + 1
                &&& f1.indexes.1 == curr + div + 1
                &&& f1.indexes.2 == curr + div + 2
            } by {
                assert(0 <= yi3 * (div as int) + xi3 < (divu as int) * (divu as int))
                    by (nonlinear_arith)
                    requires
                        0 <= xi3 < div as int && 0 <= yi3 < div as int && divu == div as int,
                ;
                vstd::arithmetic::div_mod::lemma_fundamental_div_mod_converse(
                    yi3 * (divu as int) + xi3,
                    divu as int,
                    yi3,
                    xi3,
                );
            }
            assert(m.vertex_buffer@.len() == (div + 1) * (div + 1)) by (nonlinear_arith)
                requires
                    m.vertex_buffer@.len() == (divu as int + 1) * (divu as int + 1) && divu
                        == div as int,
            ;
            let dd = (divu as int) * (divu as int);
            assert forall|i: int| 0 <= i < m.index_buffer@.len() implies face_ok(
                #[trigger] m.index_buffer@[i],
                m.vertex_buffer@.len() as int,
            ) by {
                let p = i / 2;
                vstd::arithmetic::div_mod::lemma_fundamental_div_mod(i, 2);
                vstd::arithmetic::div_mod::lemma_fundamental_div_mod_converse(
                    2 * dd - 1,
                    2,
                    dd - 1,
                    1,
                );
                vstd::arithmetic::div_mod::lemma_div_is_ordered(i, 2 * dd - 1, 2);
                vstd::arithmetic::div_mod::lemma_div_pos_is_pos(i, 2);
                if i % 2 == 0 {
                    assert(face_ok(m.index_buffer@[2 * p], m.vertex_buffer@.len() as int));
                } else {
                    assert(face_ok(m.index_buffer@[2 * p + 1], m.vertex_buffer@.len() as int));
                }
            }
        }
        m
    }
}

/// Applying a zero rotation and then projecting gives the same screen
/// coordinates as applying no rotation at all: with the identity
/// matrix the rotation stage is exactly the identity, the whole
/// pipeline collapses to scale-then-translate of the raw point, and
/// the projected pixel coordinates agree exactly.
pub proof fn lemma_identity_rotation_projects_same(t: Transform, p: (int, int, int))
    requires
        t.rotation == mat3_identity(),
    ensures
        transformed_spec(t, p) == translate_apply(t.position, scale_apply(t.scale, p)),
        crate::fixed::pixel_of(transformed_spec(t, p).0) == crate::fixed::pixel_of(
            translate_apply(t.position, scale_apply(t.scale, p)).0,
        ),
        crate::fixed::pixel_of(transformed_spec(t, p).1) == crate::fixed::pixel_of(
            translate_apply(t.position, scale_apply(t.scale, p)).1,
        ),
{
    crate::fixed::lemma_identity_rotation(p);
}

} // verus!
