//! Topology of the tesseract that the demo renders: its sixteen corners,
//! its twenty-four square faces and their split into triangles.

use vstd::prelude::*;

verus! {

/// A corner as the signs of its four coordinates (x, y, z, w), each -1 or 1.
pub type Corner = (i8, i8, i8, i8);

/// Weight of an axis in a corner's index: x is bit 0, y bit 1, z bit 2, w bit 3.
pub open spec fn axis_weight(axis: int) -> int {
    if axis == 0 {
        1
    } else if axis == 1 {
        2
    } else if axis == 2 {
        4
    } else {
        8
    }
}

/// Coordinate of corner `k` along `axis`: 1 where the axis bit of `k` is set, -1 elsewhere.
pub open spec fn corner_coord(k: int, axis: int) -> int {
    if (k / axis_weight(axis)) % 2 == 1 {
        1
    } else {
        -1
    }
}

/// The corner with index `k`, as a tuple of coordinate signs.
pub open spec fn spec_corner(k: int) -> Corner {
    (
        corner_coord(k, 0) as i8,
        corner_coord(k, 1) as i8,
        corner_coord(k, 2) as i8,
        corner_coord(k, 3) as i8,
    )
}

/// The sixteen corners of the tesseract, in the order the mesh indexes them:
/// corner `k` has coordinate 1 on the axes whose bit is set in `k` and -1 on the others.
pub fn tesseract_corners() -> (corners: Vec<Corner>)
    ensures
        corners.len() == 16,
        forall|k: int| 0 <= k < 16 ==> #[trigger] corners[k] == spec_corner(k),
{
    let corners: Vec<Corner> = vec![
        // outer cube (w = -1), bottom
        (-1, -1, -1, -1),
        (1, -1, -1, -1),
        (-1, 1, -1, -1),
        (1, 1, -1, -1),
        // outer cube, top
        (-1, -1, 1, -1),
        (1, -1, 1, -1),
        (-1, 1, 1, -1),
        (1, 1, 1, -1),
        // inner cube (w = 1), bottom
        (-1, -1, -1, 1),
        (1, -1, -1, 1),
        (-1, 1, -1, 1),
        (1, 1, -1, 1),
        // inner cube, top
        (-1, -1, 1, 1),
        (1, -1, 1, 1),
        (-1, 1, 1, 1),
        (1, 1, 1, 1),
    ];
    assert forall|k: int| 0 <= k < 16 implies #[trigger] corners[k] == spec_corner(k) by {
        assert(0 <= k < 16);
    }
    corners
}


/// A square face, as its four corner indices in "Z" order: the first corner
/// steps to the second along one axis and to the third along another, and the
/// fourth is opposite the first.
pub type Face = (usize, usize, usize, usize);

/// The faces of the outer cube (w = -1), as viewed from outside.
pub open spec fn spec_cube_faces() -> Seq<Face> {
    seq![(0, 1, 2, 3), (6, 7, 4, 5), (4, 5, 0, 1), (7, 6, 3, 2), (6, 4, 2, 0), (5, 7, 1, 3)]
}

/// `face` with `offset` added to each of its corner indices.
pub open spec fn spec_shift_face(face: Face, offset: int) -> Face {
    (
        (face.0 + offset) as usize,
        (face.1 + offset) as usize,
        (face.2 + offset) as usize,
        (face.3 + offset) as usize,
    )
}

/// The faces that join each edge of the outer cube to the same edge of the inner cube.
pub open spec fn spec_connecting_faces() -> Seq<Face> {
    seq![
        (0, 1, 8, 9),
        (3, 2, 11, 10),
        (2, 0, 10, 8),
        (1, 3, 9, 11),
        (4, 5, 12, 13),
        (7, 6, 15, 14),
        (6, 4, 14, 12),
        (5, 7, 13, 15),
        (4, 12, 0, 8),
        (5, 13, 1, 9),
        (6, 14, 2, 10),
        (7, 15, 3, 11),
    ]
}

/// All faces of the tesseract in mesh order: the outer cube, the inner cube
/// (the outer one moved to w = 1) and the faces that connect them.
pub open spec fn spec_tesseract_faces() -> Seq<Face> {
    spec_cube_faces() + spec_cube_faces().map_values(|f: Face| spec_shift_face(f, 8)) + spec_connecting_faces()
}

/// The faces of the outer cube (w = -1).
pub fn cube_faces() -> (faces: Vec<Face>)
    ensures
        faces@ == spec_cube_faces(),
{
    let faces: Vec<Face> = vec![
        (0, 1, 2, 3), // bottom
        (6, 7, 4, 5), // top
        (4, 5, 0, 1), // front
        (7, 6, 3, 2), // back
        (6, 4, 2, 0), // left
        (5, 7, 1, 3), // right
    ];
    assert(faces@ =~= spec_cube_faces());
    faces
}

/// The faces between the outer cube (w = -1) and the inner cube (w = 1).
pub fn connecting_faces() -> (faces: Vec<Face>)
    ensures
        faces@ == spec_connecting_faces(),
{
    let faces: Vec<Face> = vec![
        (0, 1, 8, 9), // bottom front
        (3, 2, 11, 10), // bottom back
        (2, 0, 10, 8), // bottom left
        (1, 3, 9, 11), // bottom right
        (4, 5, 12, 13), // top front
        (7, 6, 15, 14), // top back
        (6, 4, 14, 12), // top left
        (5, 7, 13, 15), // top right
        (4, 12, 0, 8), // front left
        (5, 13, 1, 9), // front right
        (6, 14, 2, 10), // back left
        (7, 15, 3, 11), // back right
    ];
    assert(faces@ =~= spec_connecting_faces());
    faces
}

/// Each face of `faces` with `offset` added to all its corner indices.
pub fn shift_faces(faces: &Vec<Face>, offset: usize) -> (shifted: Vec<Face>)
    requires
        forall|i: int|
            0 <= i < faces.len() ==> {
                &&& faces[i].0 + offset <= usize::MAX
                &&& faces[i].1 + offset <= usize::MAX
                &&& faces[i].2 + offset <= usize::MAX
                &&& faces[i].3 + offset <= usize::MAX
            },
    ensures
        shifted@ == faces@.map_values(|f: Face| spec_shift_face(f, offset as int)),
        shifted.len() == faces.len(),
        forall|i: int|
            #![trigger faces@[i]]
            0 <= i < faces.len() ==> {
                &&& shifted@[i].0 == faces@[i].0 + offset
                &&& shifted@[i].1 == faces@[i].1 + offset
                &&& shifted@[i].2 == faces@[i].2 + offset
                &&& shifted@[i].3 == faces@[i].3 + offset
            },
{
    let mut shifted: Vec<Face> = Vec::new();
    let mut i: usize = 0;
    while i < faces.len()
        invariant
            i <= faces.len(),
            shifted@ == faces@.take(i as int).map_values(|f: Face| spec_shift_face(f, offset as int)),
            forall|j: int|
                0 <= j < faces.len() ==> {
                    &&& faces[j].0 + offset <= usize::MAX
                    &&& faces[j].1 + offset <= usize::MAX
                    &&& faces[j].2 + offset <= usize::MAX
                    &&& faces[j].3 + offset <= usize::MAX
                },
        decreases faces.len() - i,
    {
        let f = faces[i];
        shifted.push((f.0 + offset, f.1 + offset, f.2 + offset, f.3 + offset));
        assert(faces@.take(i + 1) =~= faces@.take(i as int).push(f));
        i = i + 1;
    }
    assert(faces@.take(faces.len() as int) =~= faces@);
    shifted
}

/// The twenty-four faces of the tesseract in mesh order.
pub fn tesseract_faces() -> (faces: Vec<Face>)
    ensures
        faces@ == spec_tesseract_faces(),
        faces.len() == 24,
{
    let mut faces = cube_faces();
    let mut inner = shift_faces(&faces, 8);
    let mut connecting = connecting_faces();
    faces.append(&mut inner);
    faces.append(&mut connecting);
    assert(faces@ =~= spec_tesseract_faces());
    faces
}


/// Corners `u` and `v` have different coordinates along `axis` and equal
/// coordinates along every other axis: they are the two ends of an edge parallel to `axis`.
pub open spec fn differs_only_along(u: int, v: int, axis: int) -> bool {
    &&& (corner_coord(u, 0) != corner_coord(v, 0)) == (axis == 0)
    &&& (corner_coord(u, 1) != corner_coord(v, 1)) == (axis == 1)
    &&& (corner_coord(u, 2) != corner_coord(v, 2)) == (axis == 2)
    &&& (corner_coord(u, 3) != corner_coord(v, 3)) == (axis == 3)
}

/// `face` lists the corners of a square of the tesseract parallel to axes `s` and `t`,
/// in "Z" order: first to second along `s`, first to third along `t`, second to
/// fourth along `t`, third to fourth along `s`.
pub open spec fn is_z_square(face: Face, s: int, t: int) -> bool {
    &&& 0 <= s < 4
    &&& 0 <= t < 4
    &&& s != t
    &&& face.0 < 16 && face.1 < 16 && face.2 < 16 && face.3 < 16
    &&& differs_only_along(face.0 as int, face.1 as int, s)
    &&& differs_only_along(face.0 as int, face.2 as int, t)
    &&& differs_only_along(face.1 as int, face.3 as int, t)
    &&& differs_only_along(face.2 as int, face.3 as int, s)
}

/// `face` is a square face of the tesseract, listed in "Z" order.
pub open spec fn is_square_face(face: Face) -> bool {
    exists|s: int, t: int| is_z_square(face, s, t)
}

/// Corner index `k` is one of the corners of `face`.
pub open spec fn face_has(face: Face, k: usize) -> bool {
    face.0 == k || face.1 == k || face.2 == k || face.3 == k
}

/// The two faces have the same set of corners.
pub open spec fn same_corners(p: Face, q: Face) -> bool {
    &&& face_has(q, p.0) && face_has(q, p.1) && face_has(q, p.2) && face_has(q, p.3)
    &&& face_has(p, q.0) && face_has(p, q.1) && face_has(p, q.2) && face_has(p, q.3)
}

/// The axes along which each face of the tesseract extends, in mesh order.
spec fn face_axes() -> Seq<(int, int)> {
    seq![
        (0, 1), (0, 1), (0, 2), (0, 2), (1, 2), (1, 2),
        (0, 1), (0, 1), (0, 2), (0, 2), (1, 2), (1, 2),
        (0, 3), (0, 3), (1, 3), (1, 3), (0, 3), (0, 3), (1, 3), (1, 3),
        (3, 2), (3, 2), (3, 2), (3, 2),
    ]
}

/// Every face of the mesh is a square of the tesseract listed in "Z" order, so the
/// two triangles that split it along its second and third corners cover it exactly.
pub proof fn lemma_faces_are_squares()
    ensures
        spec_tesseract_faces().len() == 24,
        forall|i: int| 0 <= i < 24 ==> #[trigger] is_square_face(spec_tesseract_faces()[i]),
{
    let faces = spec_tesseract_faces();
    let axes = face_axes();
    assert forall|i: int| 0 <= i < 24 implies #[trigger] is_square_face(faces[i]) by {
        assert(is_z_square(faces[i], axes[i].0, axes[i].1));
    }
}

/// No two faces of the mesh share the same corners: the mesh holds each of the
/// tesseract's twenty-four squares once.
#[verifier::spinoff_prover]
#[verifier::rlimit(50)]
pub proof fn lemma_faces_distinct()
    ensures
        forall|i: int, j: int|
            0 <= i < 24 && 0 <= j < 24 && i != j ==> !same_corners(
                #[trigger] spec_tesseract_faces()[i],
                #[trigger] spec_tesseract_faces()[j],
            ),
{
}


/// Component along `axis` (0, 1 or 2 for x, y, z) of the vector from corner `u` to corner `v`.
pub open spec fn edge_component(u: int, v: int, axis: int) -> int {
    corner_coord(v, axis) - corner_coord(u, axis)
}

/// Component along `axis` (0, 1 or 2) of the cross product of a face's first two edges,
/// first corner to second and first corner to third, in x, y, z: the normal that the
/// winding of its first triangle gives it.
pub open spec fn winding_normal(face: Face, axis: int) -> int {
    let a = face.0 as int;
    let b = face.1 as int;
    let c = face.2 as int;
    let p = if axis == 0 {
        1
    } else if axis == 1 {
        2
    } else {
        0
    };
    let q = if axis == 0 {
        2
    } else if axis == 1 {
        0
    } else {
        1
    };
    edge_component(a, b, p) * edge_component(a, c, q) - edge_component(a, b, q) * edge_component(
        a,
        c,
        p,
    )
}

/// All four corners of the face have the same coordinate along `axis`.
pub open spec fn lies_across(face: Face, axis: int) -> bool {
    &&& corner_coord(face.0 as int, axis) == corner_coord(face.1 as int, axis)
    &&& corner_coord(face.0 as int, axis) == corner_coord(face.2 as int, axis)
    &&& corner_coord(face.0 as int, axis) == corner_coord(face.3 as int, axis)
}

/// The winding normal of a cube face points to the centre of its cube: along the axis
/// the face lies across it is opposite to the face's coordinate there, along the
/// other two axes it is zero.
pub open spec fn wound_toward_center(face: Face) -> bool {
    &&& winding_normal(face, 0) == if lies_across(face, 0) {
        -4 * corner_coord(face.0 as int, 0)
    } else {
        0
    }
    &&& winding_normal(face, 1) == if lies_across(face, 1) {
        -4 * corner_coord(face.0 as int, 1)
    } else {
        0
    }
    &&& winding_normal(face, 2) == if lies_across(face, 2) {
        -4 * corner_coord(face.0 as int, 2)
    } else {
        0
    }
}

/// The face listed from its fourth corner: its first three corners are the corners of the
/// face's second triangle, `(d, c, b)`.
pub open spec fn reversed(face: Face) -> Face {
    (face.3, face.2, face.1, face.0)
}

/// The turn from axis `s` to axis `t` in x, y, z: 1 for x to y, y to z and z to x, -1 the
/// other way.
pub open spec fn turn(s: int, t: int) -> int {
    if (s == 0 && t == 1) || (s == 1 && t == 2) || (s == 2 && t == 0) {
        1
    } else {
        -1
    }
}

/// A corner coordinate is 1 or -1.
proof fn lemma_coord_sign(k: int, axis: int)
    ensures
        corner_coord(k, axis) == 1 || corner_coord(k, axis) == -1,
{
}

/// Listed from its fourth corner, a "Z" square is still a "Z" square along the same axes.
proof fn lemma_reversed_z_square(face: Face, s: int, t: int)
    requires
        is_z_square(face, s, t),
    ensures
        is_z_square(reversed(face), s, t),
{
}

/// The winding normal of a "Z" square parallel to two of x, y, z, along axis `x`: along the
/// third axis it has length 4 and its sign is the turn from `s` to `t` times the first
/// corner's coordinates along `s` and `t`, along `s` and `t` it is zero; the face lies
/// across exactly that third axis.
#[verifier::spinoff_prover]
proof fn lemma_winding_of_z_square(face: Face, s: int, t: int, x: int)
    requires
        is_z_square(face, s, t),
        s < 3,
        t < 3,
        0 <= x < 3,
    ensures
        winding_normal(face, x) == if x != s && x != t {
            4 * turn(s, t) * corner_coord(face.0 as int, s) * corner_coord(face.0 as int, t)
        } else {
            0
        },
        lies_across(face, x) == (x != s && x != t),
{
    let a = face.0 as int;
    let b = face.1 as int;
    let c = face.2 as int;
    let d = face.3 as int;
    let cs = corner_coord(a, s);
    let ct = corner_coord(a, t);
    assert forall|y: int| 0 <= y < 3 implies {
        &&& edge_component(a, b, y) == if y == s {
            -2 * cs
        } else {
            0
        }
        &&& edge_component(a, c, y) == if y == t {
            -2 * ct
        } else {
            0
        }
        &&& corner_coord(b, y) == corner_coord(a, y) || y == s
        &&& corner_coord(c, y) == corner_coord(a, y) || y == t
        &&& corner_coord(d, y) == corner_coord(a, y) || y == s || y == t
    } by {
        lemma_coord_sign(a, y);
        lemma_coord_sign(b, y);
        lemma_coord_sign(c, y);
        lemma_coord_sign(d, y);
    }
    let p = if x == 0 {
        1int
    } else if x == 1 {
        2
    } else {
        0
    };
    let q = if x == 0 {
        2int
    } else if x == 1 {
        0
    } else {
        1
    };
    let u_p = edge_component(a, b, p);
    let u_q = edge_component(a, b, q);
    let v_p = edge_component(a, c, p);
    let v_q = edge_component(a, c, q);
    assert(winding_normal(face, x) == u_p * v_q - u_q * v_p);
    if x != s && x != t {
        if p == s {
            assert(q == t && turn(s, t) == 1);
            assert(u_q == 0 && v_p == 0);
            assert(u_p * v_q == 4 * cs * ct) by (nonlinear_arith)
                requires
                    u_p == -2 * cs,
                    v_q == -2 * ct,
            ;
        } else {
            assert(p == t && q == s && turn(s, t) == -1);
            assert(u_p == 0 && v_q == 0);
            assert(u_q * v_p == 4 * cs * ct) by (nonlinear_arith)
                requires
                    u_q == -2 * cs,
                    v_p == -2 * ct,
            ;
        }
        assert(4 * turn(s, t) * cs * ct == turn(s, t) * (4 * cs * ct)) by (nonlinear_arith);
        assert(lies_across(face, x));
    } else {
        assert(p != x && q != x);
        if x == s {
            assert(u_p == 0 && u_q == 0);
            assert(corner_coord(b, x) != corner_coord(a, x));
        } else {
            assert(v_p == 0 && v_q == 0);
            assert(corner_coord(c, x) != corner_coord(a, x));
        }
        assert(!lies_across(face, x));
    }
}

/// Whether the turn from `s` to `t`, times corner `k`'s coordinates on `s`, `t` and the
/// third axis, is -1: an odd number of the four factors is 1.
pub open spec fn turns_inward(k: int, s: int, t: int) -> bool {
    let r = 3 - s - t;
    ((turn(s, t) == 1) != (corner_coord(k, s) == 1)) != ((corner_coord(k, t) == 1) != (
    corner_coord(k, r) == 1))
}

/// The winding normal of a cube face points to the centre of its cube when the turn
/// from its first axis to its second, times its first corner's coordinates on them, is
/// opposite to its coordinate on the third axis. The face's second triangle then points
/// the same way.
proof fn lemma_z_square_wound_toward_center(face: Face, s: int, t: int)
    requires
        is_z_square(face, s, t),
        s < 3,
        t < 3,
        turns_inward(face.0 as int, s, t),
    ensures
        wound_toward_center(face),
        wound_toward_center(reversed(face)),
{
    let a = face.0 as int;
    let d = face.3 as int;
    let r = 3 - s - t;
    lemma_reversed_z_square(face, s, t);
    lemma_winding_of_z_square(face, s, t, 0);
    lemma_winding_of_z_square(face, s, t, 1);
    lemma_winding_of_z_square(face, s, t, 2);
    lemma_winding_of_z_square(reversed(face), s, t, 0);
    lemma_winding_of_z_square(reversed(face), s, t, 1);
    lemma_winding_of_z_square(reversed(face), s, t, 2);
    lemma_coord_sign(a, s);
    lemma_coord_sign(a, t);
    lemma_coord_sign(a, r);
    assert(corner_coord(d, s) == -corner_coord(a, s));
    assert(corner_coord(d, t) == -corner_coord(a, t));
    assert(corner_coord(d, r) == corner_coord(a, r));
    let cs = corner_coord(a, s);
    let ct = corner_coord(a, t);
    let cr = corner_coord(a, r);
    let tn = turn(s, t);
    assert(tn == 1 || tn == -1);
    assert(cs == 1 || cs == -1);
    assert(ct == 1 || ct == -1);
    assert(cr == 1 || cr == -1);
    assert(((tn == 1) != (cs == 1)) != ((ct == 1) != (cr == 1)));
    assert(tn * cs * ct == -cr) by (nonlinear_arith)
        requires
            tn == 1 || tn == -1,
            cs == 1 || cs == -1,
            ct == 1 || ct == -1,
            cr == 1 || cr == -1,
            ((tn == 1) != (cs == 1)) != ((ct == 1) != (cr == 1)),
    ;
    assert(4 * turn(s, t) * cs * ct == -4 * cr) by (nonlinear_arith)
        requires
            tn * cs * ct == -cr,
            tn == turn(s, t),
    ;
    assert(4 * turn(s, t) * (-cs) * (-ct) == -4 * cr) by (nonlinear_arith)
        requires
            4 * turn(s, t) * cs * ct == -4 * cr,
    ;
    assert(winding_normal(face, r) == -4 * cr);
    assert(winding_normal(face, 0) == if lies_across(face, 0) {
        -4 * corner_coord(face.0 as int, 0)
    } else {
        0
    });
    assert(winding_normal(face, 1) == if lies_across(face, 1) {
        -4 * corner_coord(face.0 as int, 1)
    } else {
        0
    });
    assert(winding_normal(face, 2) == if lies_across(face, 2) {
        -4 * corner_coord(face.0 as int, 2)
    } else {
        0
    });
    let rf = reversed(face);
    assert(winding_normal(rf, 0) == if lies_across(rf, 0) {
        -4 * corner_coord(rf.0 as int, 0)
    } else {
        0
    });
    assert(winding_normal(rf, 1) == if lies_across(rf, 1) {
        -4 * corner_coord(rf.0 as int, 1)
    } else {
        0
    });
    assert(winding_normal(rf, 2) == if lies_across(rf, 2) {
        -4 * corner_coord(rf.0 as int, 2)
    } else {
        0
    });
}

/// Both triangles of cube face `i` are wound toward the centre of its cube.
#[verifier::spinoff_prover]
proof fn lemma_cube_face_wound(i: int)
    requires
        0 <= i < 12,
    ensures
        wound_toward_center(spec_tesseract_faces()[i]),
        wound_toward_center(reversed(spec_tesseract_faces()[i])),
{
    let face = spec_tesseract_faces()[i];
    let s = face_axes()[i].0;
    let t = face_axes()[i].1;
    assert(is_z_square(face, s, t));
    assert(s < 3 && t < 3);
    assert(turns_inward(face.0 as int, s, t));
    lemma_z_square_wound_toward_center(face, s, t);
}

/// The faces of the outer and of the inner cube are wound consistently: both triangles
/// of each turn the same way as seen from outside its cube.
pub proof fn lemma_cube_faces_wound_consistently()
    ensures
        forall|i: int| 0 <= i < 12 ==> #[trigger] wound_toward_center(spec_tesseract_faces()[i]),
        forall|i: int| 0 <= i < 12 ==> #[trigger] wound_toward_center(reversed(spec_tesseract_faces()[i])),
{
    assert forall|i: int| 0 <= i < 12 implies #[trigger] wound_toward_center(spec_tesseract_faces()[i]) by {
        lemma_cube_face_wound(i);
    }
    assert forall|i: int| 0 <= i < 12 implies #[trigger] wound_toward_center(
        reversed(spec_tesseract_faces()[i]),
    ) by {
        lemma_cube_face_wound(i);
    }
}

/// A triangle, as three corner indices.
pub type Triangle = (usize, usize, usize);

/// The two triangles of each face, in order: face `(a, b, c, d)` gives `(a, b, c)`
/// and then `(d, c, b)`, which meet along the diagonal from `b` to `c`.
pub open spec fn spec_triangulate(faces: Seq<Face>) -> Seq<Triangle> {
    Seq::new(
        2 * faces.len(),
        |k: int|
            {
                let f = faces[k / 2];
                if k % 2 == 0 {
                    (f.0, f.1, f.2)
                } else {
                    (f.3, f.2, f.1)
                }
            },
    )
}

/// Splits every face into its two triangles, keeping the order of the faces.
pub fn triangulate(faces: &Vec<Face>) -> (triangles: Vec<Triangle>)
    requires
        2 * faces.len() <= usize::MAX,
    ensures
        triangles@ == spec_triangulate(faces@),
        triangles.len() == 2 * faces.len(),
        forall|i: int|
            #![trigger faces@[i]]
            0 <= i < faces.len() ==> {
                &&& triangles@[2 * i] == (faces@[i].0, faces@[i].1, faces@[i].2)
                &&& triangles@[2 * i + 1] == (faces@[i].3, faces@[i].2, faces@[i].1)
            },
{
    let mut triangles: Vec<Triangle> = Vec::new();
    let mut i: usize = 0;
    while i < faces.len()
        invariant
            i <= faces.len(),
            triangles@ == spec_triangulate(faces@.take(i as int)),
        decreases faces.len() - i,
    {
        let f = faces[i];
        triangles.push((f.0, f.1, f.2));
        triangles.push((f.3, f.2, f.1));
        assert(triangles@ =~= spec_triangulate(faces@.take(i + 1)));
        i = i + 1;
    }
    assert(faces@.take(faces.len() as int) =~= faces@);
    proof {
        lemma_triangulate_splits_faces(faces@);
    }
    triangles
}

/// Corner `j` (0, 1 or 2) of a triangle.
pub open spec fn triangle_corner(t: Triangle, j: int) -> usize {
    if j == 0 {
        t.0
    } else if j == 1 {
        t.1
    } else {
        t.2
    }
}

/// The corners of all triangles, three per triangle, in order.
pub open spec fn spec_flatten(triangles: Seq<Triangle>) -> Seq<usize> {
    Seq::new(3 * triangles.len(), |m: int| triangle_corner(triangles[m / 3], m % 3))
}

/// Lists the corners of the triangles one after the other, as a vertex buffer does.
pub fn flatten_triangles(triangles: &Vec<Triangle>) -> (corners: Vec<usize>)
    requires
        3 * triangles.len() <= usize::MAX,
    ensures
        corners@ == spec_flatten(triangles@),
        corners.len() == 3 * triangles.len(),
        forall|k: int|
            #![trigger triangles@[k]]
            0 <= k < triangles.len() ==> {
                &&& corners@[3 * k] == triangles@[k].0
                &&& corners@[3 * k + 1] == triangles@[k].1
                &&& corners@[3 * k + 2] == triangles@[k].2
            },
{
    let mut corners: Vec<usize> = Vec::new();
    let mut i: usize = 0;
    while i < triangles.len()
        invariant
            i <= triangles.len(),
            corners@ == spec_flatten(triangles@.take(i as int)),
        decreases triangles.len() - i,
    {
        let t = triangles[i];
        corners.push(t.0);
        corners.push(t.1);
        corners.push(t.2);
        assert(corners@ =~= spec_flatten(triangles@.take(i + 1)));
        i = i + 1;
    }
    assert(triangles@.take(triangles.len() as int) =~= triangles@);
    proof {
        lemma_flatten_lists_corners(triangles@);
    }
    corners
}

/// The three colours that the faces are painted with.
#[derive(PartialEq, Eq, Structural, Clone, Copy, Debug)]
pub enum FaceColor {
    LightBlue,
    MediumPurple,
    FloralWhite,
}

/// The colour table of the faces: six light blue, six medium purple, twelve floral white.
pub open spec fn spec_palette() -> Seq<FaceColor> {
    Seq::new(
        24,
        |i: int|
            if i < 6 {
                FaceColor::LightBlue
            } else if i < 12 {
                FaceColor::MediumPurple
            } else {
                FaceColor::FloralWhite
            },
    )
}

/// The colour table of the faces: the outer cube light blue, the inner cube
/// medium purple, the connecting faces floral white.
pub fn face_palette() -> (palette: Vec<FaceColor>)
    ensures
        palette@ == spec_palette(),
{
    let a = FaceColor::LightBlue;
    let b = FaceColor::MediumPurple;
    let c = FaceColor::FloralWhite;
    let palette: Vec<FaceColor> = vec![
        a, a, a, a, a, a,
        b, b, b, b, b, b,
        c, c, c, c, c, c, c, c, c, c, c, c,
    ];
    assert(palette@ =~= spec_palette());
    palette
}

/// The colour of each triangle: face `i` takes entry `i` of the palette, taken
/// cyclically, and both its triangles take the colour of the face.
pub open spec fn spec_triangle_colors(face_count: nat, palette: Seq<FaceColor>) -> Seq<FaceColor> {
    Seq::new(2 * face_count, |k: int| palette[(k / 2) % (palette.len() as int)])
}

/// Colours the two triangles of each of `face_count` faces with the face's palette entry.
pub fn triangle_colors(face_count: usize, palette: &Vec<FaceColor>) -> (colors: Vec<FaceColor>)
    requires
        palette.len() > 0,
        2 * face_count <= usize::MAX,
    ensures
        colors@ == spec_triangle_colors(face_count as nat, palette@),
        colors.len() == 2 * face_count,
        forall|i: int|
            0 <= i < face_count ==> {
                &&& colors@[2 * i] == palette@[i % (palette.len() as int)]
                &&& colors@[2 * i + 1] == palette@[#[trigger] (i % (palette.len() as int))]
            },
{
    let mut colors: Vec<FaceColor> = Vec::new();
    let mut i: usize = 0;
    while i < face_count
        invariant
            i <= face_count,
            palette.len() > 0,
            colors@ == spec_triangle_colors(i as nat, palette@),
        decreases face_count - i,
    {
        let c = palette[i % palette.len()];
        colors.push(c);
        colors.push(c);
        assert(colors@ =~= spec_triangle_colors((i + 1) as nat, palette@));
        i = i + 1;
    }
    proof {
        assert forall|i: int| 0 <= i < face_count implies {
            &&& colors@[2 * i] == palette@[i % (palette.len() as int)]
            &&& colors@[2 * i + 1] == palette@[#[trigger] (i % (palette.len() as int))]
        } by {
            assert((2 * i) / 2 == i);
            assert((2 * i + 1) / 2 == i);
        }
    }
    colors
}


/// The tesseract mesh as the renderer consumes it.
pub struct Mesh {
    /// Corner indices, three per triangle, two triangles per face.
    pub corners: Vec<usize>,
    /// One colour per triangle.
    pub colors: Vec<FaceColor>,
}

/// The triangles of the tesseract mesh.
pub open spec fn spec_mesh_triangles() -> Seq<Triangle> {
    spec_triangulate(spec_tesseract_faces())
}

/// The corner indices of the tesseract mesh, three per triangle.
pub open spec fn spec_mesh_corners() -> Seq<usize> {
    spec_flatten(spec_mesh_triangles())
}

/// The triangle colours of the tesseract mesh.
pub open spec fn spec_mesh_colors() -> Seq<FaceColor> {
    spec_triangle_colors(spec_tesseract_faces().len(), spec_palette())
}

/// Builds the tesseract mesh: every face split into two triangles, their corners
/// listed in order, and each triangle coloured after its face.
pub fn hypercube_mesh() -> (mesh: Mesh)
    ensures
        mesh.corners@ == spec_mesh_corners(),
        mesh.colors@ == spec_mesh_colors(),
        mesh.corners.len() == 2 * 24 * 3,
        mesh.colors.len() == 2 * 24,
        forall|i: int|
            #![trigger spec_tesseract_faces()[i]]
            0 <= i < 24 ==> {
                let f = spec_tesseract_faces()[i];
                &&& mesh.corners@[6 * i] == f.0
                &&& mesh.corners@[6 * i + 1] == f.1
                &&& mesh.corners@[6 * i + 2] == f.2
                &&& mesh.corners@[6 * i + 3] == f.3
                &&& mesh.corners@[6 * i + 4] == f.2
                &&& mesh.corners@[6 * i + 5] == f.1
            },
        forall|k: int|
            0 <= k < 48 ==> #[trigger] mesh.colors@[k] == if k < 12 {
                FaceColor::LightBlue
            } else if k < 24 {
                FaceColor::MediumPurple
            } else {
                FaceColor::FloralWhite
            },
{
    let faces = tesseract_faces();
    let palette = face_palette();
    let triangles = triangulate(&faces);
    let corners = flatten_triangles(&triangles);
    let colors = triangle_colors(faces.len(), &palette);
    proof {
        assert forall|i: int| #![trigger spec_tesseract_faces()[i]] 0 <= i < 24 implies {
            let f = spec_tesseract_faces()[i];
            &&& corners@[6 * i] == f.0
            &&& corners@[6 * i + 1] == f.1
            &&& corners@[6 * i + 2] == f.2
            &&& corners@[6 * i + 3] == f.3
            &&& corners@[6 * i + 4] == f.2
            &&& corners@[6 * i + 5] == f.1
        } by {
            assert(faces@[i] == spec_tesseract_faces()[i]);
            let t0 = triangles@[2 * i];
            let t1 = triangles@[2 * i + 1];
            assert(3 * (2 * i) == 6 * i);
            assert(3 * (2 * i + 1) == 6 * i + 3);
        }
        lemma_mesh_colors();
    }
    Mesh { corners, colors }
}

/// Splitting faces into triangles keeps their order and gives face `(a, b, c, d)` the
/// triangles `(a, b, c)` and `(d, c, b)`, two per face and nothing else.
pub proof fn lemma_triangulate_splits_faces(faces: Seq<Face>)
    ensures
        spec_triangulate(faces).len() == 2 * faces.len(),
        forall|i: int|
            #![trigger faces[i]]
            0 <= i < faces.len() ==> {
                &&& spec_triangulate(faces)[2 * i] == (faces[i].0, faces[i].1, faces[i].2)
                &&& spec_triangulate(faces)[2 * i + 1] == (faces[i].3, faces[i].2, faces[i].1)
            },
{
    assert forall|i: int| #![trigger faces[i]] 0 <= i < faces.len() implies {
        &&& spec_triangulate(faces)[2 * i] == (faces[i].0, faces[i].1, faces[i].2)
        &&& spec_triangulate(faces)[2 * i + 1] == (faces[i].3, faces[i].2, faces[i].1)
    } by {
        assert((2 * i) / 2 == i && (2 * i) % 2 == 0);
        assert((2 * i + 1) / 2 == i && (2 * i + 1) % 2 == 1);
    }
}

/// Flattening lists every triangle's three corners in their order, one triangle after
/// the other: corner `j` of triangle `k` lands at position `3 k + j`.
pub proof fn lemma_flatten_lists_corners(triangles: Seq<Triangle>)
    ensures
        spec_flatten(triangles).len() == 3 * triangles.len(),
        forall|k: int|
            #![trigger triangles[k]]
            0 <= k < triangles.len() ==> {
                &&& spec_flatten(triangles)[3 * k] == triangles[k].0
                &&& spec_flatten(triangles)[3 * k + 1] == triangles[k].1
                &&& spec_flatten(triangles)[3 * k + 2] == triangles[k].2
            },
{
    assert forall|k: int| #![trigger triangles[k]] 0 <= k < triangles.len() implies {
        &&& spec_flatten(triangles)[3 * k] == triangles[k].0
        &&& spec_flatten(triangles)[3 * k + 1] == triangles[k].1
        &&& spec_flatten(triangles)[3 * k + 2] == triangles[k].2
    } by {
        assert((3 * k) / 3 == k && (3 * k) % 3 == 0);
        assert((3 * k + 1) / 3 == k && (3 * k + 1) % 3 == 1);
        assert((3 * k + 2) / 3 == k && (3 * k + 2) % 3 == 2);
    }
}

/// Splitting faces into triangles and listing their corners puts face `i` at positions
/// `6 i` to `6 i + 5`, as its corners `a, b, c, d, c, b`.
pub proof fn lemma_face_corners_in_mesh(faces: Seq<Face>)
    ensures
        spec_flatten(spec_triangulate(faces)).len() == 6 * faces.len(),
        forall|i: int|
            #![trigger faces[i]]
            0 <= i < faces.len() ==> {
                let f = faces[i];
                let corners = spec_flatten(spec_triangulate(faces));
                &&& corners[6 * i] == f.0
                &&& corners[6 * i + 1] == f.1
                &&& corners[6 * i + 2] == f.2
                &&& corners[6 * i + 3] == f.3
                &&& corners[6 * i + 4] == f.2
                &&& corners[6 * i + 5] == f.1
            },
{
    let tris = spec_triangulate(faces);
    let corners = spec_flatten(tris);
    lemma_triangulate_splits_faces(faces);
    lemma_flatten_lists_corners(tris);
    assert forall|i: int| #![trigger faces[i]] 0 <= i < faces.len() implies {
        let f = faces[i];
        &&& corners[6 * i] == f.0
        &&& corners[6 * i + 1] == f.1
        &&& corners[6 * i + 2] == f.2
        &&& corners[6 * i + 3] == f.3
        &&& corners[6 * i + 4] == f.2
        &&& corners[6 * i + 5] == f.1
    } by {
        let t0 = tris[2 * i];
        let t1 = tris[2 * i + 1];
        assert(3 * (2 * i) == 6 * i);
        assert(3 * (2 * i + 1) == 6 * i + 3);
    }
}

/// The mesh draws every face of the tesseract, in order, each as its six corners
/// `a, b, c, d, c, b`: face `i` takes positions `6 i` to `6 i + 5`.
#[verifier::spinoff_prover]
pub proof fn lemma_mesh_corners_follow_faces()
    ensures
        spec_mesh_corners().len() == 144,
        forall|i: int|
            #![trigger spec_tesseract_faces()[i]]
            0 <= i < 24 ==> {
                let f = spec_tesseract_faces()[i];
                &&& spec_mesh_corners()[6 * i] == f.0
                &&& spec_mesh_corners()[6 * i + 1] == f.1
                &&& spec_mesh_corners()[6 * i + 2] == f.2
                &&& spec_mesh_corners()[6 * i + 3] == f.3
                &&& spec_mesh_corners()[6 * i + 4] == f.2
                &&& spec_mesh_corners()[6 * i + 5] == f.1
            },
{
    lemma_faces_are_squares();
    lemma_face_corners_in_mesh(spec_tesseract_faces());
}

/// The mesh fills the renderer's fixed buffers exactly (two triangles of three
/// corners for each of twenty-four faces, one colour per triangle) and every corner
/// index names one of the sixteen corners.
pub proof fn lemma_mesh_fits_buffers()
    ensures
        spec_mesh_corners().len() == 2 * 24 * 3,
        spec_mesh_colors().len() == 2 * 24,
        forall|m: int| 0 <= m < spec_mesh_corners().len() ==> #[trigger] spec_mesh_corners()[m] < 16,
{
    let faces = spec_tesseract_faces();
    assert forall|i: int| 0 <= i < 24 implies {
        let f = #[trigger] faces[i];
        f.0 < 16 && f.1 < 16 && f.2 < 16 && f.3 < 16
    } by {
        lemma_faces_are_squares();
        assert(is_square_face(faces[i]));
    }
}

/// Face `i` of the mesh is drawn as triangles `2 i` and `2 i + 1`; as the face is a
/// square in "Z" order, they meet along its diagonal and together cover its four corners.
pub proof fn lemma_triangles_cover_faces()
    ensures
        forall|i: int|
            0 <= i < 24 ==> {
                let f = #[trigger] spec_tesseract_faces()[i];
                &&& spec_mesh_triangles()[2 * i] == (f.0, f.1, f.2)
                &&& spec_mesh_triangles()[2 * i + 1] == (f.3, f.2, f.1)
                &&& is_square_face(f)
            },
{
    lemma_faces_are_squares();
    let faces = spec_tesseract_faces();
    assert forall|i: int| 0 <= i < 24 implies {
        let f = #[trigger] faces[i];
        &&& spec_mesh_triangles()[2 * i] == (f.0, f.1, f.2)
        &&& spec_mesh_triangles()[2 * i + 1] == (f.3, f.2, f.1)
        &&& is_square_face(f)
    } by {
        assert((2 * i) / 2 == i);
        assert((2 * i + 1) / 2 == i);
    }
}

/// Both triangles of a face take its colour: the outer cube is light blue, the
/// inner cube medium purple and the faces between them floral white.
pub proof fn lemma_mesh_colors()
    ensures
        forall|k: int|
            0 <= k < 48 ==> #[trigger] spec_mesh_colors()[k] == if k < 12 {
                FaceColor::LightBlue
            } else if k < 24 {
                FaceColor::MediumPurple
            } else {
                FaceColor::FloralWhite
            },
{
}

/// The inner cube is the outer cube moved along w: face `6 + i` is face `i` with 8
/// added to every corner index, and adding 8 to a corner index keeps its x, y and z
/// and turns its w from -1 to 1.
pub proof fn lemma_inner_cube_is_outer_moved()
    ensures
        forall|i: int|
            0 <= i < 6 ==> #[trigger] spec_tesseract_faces()[6 + i] == spec_shift_face(
                spec_tesseract_faces()[i],
                8,
            ),
        forall|k: int|
            0 <= k < 8 ==> {
                &&& corner_coord(k + 8, 0) == corner_coord(k, 0)
                &&& corner_coord(k + 8, 1) == corner_coord(k, 1)
                &&& corner_coord(k + 8, 2) == corner_coord(k, 2)
                &&& #[trigger] corner_coord(k, 3) == -1
                &&& corner_coord(k + 8, 3) == 1
            },
{
}

} // verus!
