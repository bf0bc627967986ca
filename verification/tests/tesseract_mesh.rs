use hyperdemo::tesseract::{
    connecting_faces, cube_faces, face_palette, flatten_triangles, hypercube_mesh, shift_faces,
    tesseract_corners, tesseract_faces, triangle_colors, triangulate, Face, FaceColor,
};

fn corner_of(k: usize) -> (i8, i8, i8, i8) {
    let s = |bit: usize| if (k >> bit) & 1 == 1 { 1 } else { -1 };
    (s(0), s(1), s(2), s(3))
}

#[test]
fn corners_are_bit_patterns() {
    let corners = tesseract_corners();
    assert_eq!(corners.len(), 16);
    for k in 0..16 {
        assert_eq!(corners[k], corner_of(k));
    }
    assert_eq!(corners[0], (-1, -1, -1, -1));
    assert_eq!(corners[5], (1, -1, 1, -1));
    assert_eq!(corners[15], (1, 1, 1, 1));
}

#[test]
fn face_tables() {
    assert_eq!(
        cube_faces(),
        vec![(0, 1, 2, 3), (6, 7, 4, 5), (4, 5, 0, 1), (7, 6, 3, 2), (6, 4, 2, 0), (5, 7, 1, 3)]
    );
    let connecting = connecting_faces();
    assert_eq!(connecting.len(), 12);
    assert_eq!(connecting[0], (0, 1, 8, 9));
    assert_eq!(connecting[11], (7, 15, 3, 11));
    let shifted = shift_faces(&cube_faces(), 8);
    assert_eq!(shifted[0], (8, 9, 10, 11));
    assert_eq!(shifted[5], (13, 15, 9, 11));
    let faces = tesseract_faces();
    assert_eq!(faces.len(), 24);
    assert_eq!(faces[6], (8, 9, 10, 11));
    assert_eq!(faces[12], (0, 1, 8, 9));
}

fn one_axis(u: usize, v: usize) -> Option<usize> {
    let d = u ^ v;
    if d.count_ones() == 1 {
        Some(d.trailing_zeros() as usize)
    } else {
        None
    }
}

#[test]
fn every_face_is_a_z_square() {
    for f in tesseract_faces() {
        let s = one_axis(f.0, f.1).expect("first edge");
        let t = one_axis(f.0, f.2).expect("second edge");
        assert_ne!(s, t);
        assert_eq!(one_axis(f.1, f.3), Some(t));
        assert_eq!(one_axis(f.2, f.3), Some(s));
    }
}

#[test]
fn faces_are_distinct() {
    let faces = tesseract_faces();
    let key = |f: &Face| {
        let mut v = vec![f.0, f.1, f.2, f.3];
        v.sort();
        v
    };
    for i in 0..faces.len() {
        for j in 0..faces.len() {
            if i != j {
                assert_ne!(key(&faces[i]), key(&faces[j]));
            }
        }
    }
}

#[test]
fn triangulation_and_flattening() {
    let tris = triangulate(&vec![(0, 1, 2, 3), (4, 5, 0, 1)]);
    assert_eq!(tris, vec![(0, 1, 2), (3, 2, 1), (4, 5, 0), (1, 0, 5)]);
    let flat = flatten_triangles(&tris);
    assert_eq!(flat, vec![0, 1, 2, 3, 2, 1, 4, 5, 0, 1, 0, 5]);
    assert!(triangulate(&vec![]).is_empty());
}

#[test]
fn palette_and_triangle_colors() {
    let palette = face_palette();
    assert_eq!(palette.len(), 24);
    assert_eq!(palette[5], FaceColor::LightBlue);
    assert_eq!(palette[6], FaceColor::MediumPurple);
    assert_eq!(palette[12], FaceColor::FloralWhite);
    let colors = triangle_colors(3, &vec![FaceColor::LightBlue, FaceColor::FloralWhite]);
    assert_eq!(
        colors,
        vec![
            FaceColor::LightBlue,
            FaceColor::LightBlue,
            FaceColor::FloralWhite,
            FaceColor::FloralWhite,
            FaceColor::LightBlue,
            FaceColor::LightBlue,
        ]
    );
}

#[test]
fn mesh_fits_the_triangle_buffers() {
    let mesh = hypercube_mesh();
    assert_eq!(mesh.corners.len(), 2 * 24 * 3);
    assert_eq!(mesh.colors.len(), 2 * 24);
    assert!(mesh.corners.iter().all(|&c| c < 16));
    assert_eq!(&mesh.corners[0..6], &[0, 1, 2, 3, 2, 1]);
    assert_eq!(&mesh.corners[138..144], &[7, 15, 3, 11, 3, 15]);
    assert_eq!(mesh.colors[11], FaceColor::LightBlue);
    assert_eq!(mesh.colors[12], FaceColor::MediumPurple);
    assert_eq!(mesh.colors[23], FaceColor::MediumPurple);
    assert_eq!(mesh.colors[24], FaceColor::FloralWhite);
    assert_eq!(mesh.colors[47], FaceColor::FloralWhite);
}

#[test]
fn cube_faces_are_wound_toward_their_centre() {
    let corners = tesseract_corners();
    let faces = tesseract_faces();
    for f in &faces[0..12] {
        let p = |k: usize| {
            let c = corners[k];
            [c.0 as i32, c.1 as i32, c.2 as i32]
        };
        let (a, b, c) = (p(f.0), p(f.1), p(f.2));
        let u = [b[0] - a[0], b[1] - a[1], b[2] - a[2]];
        let v = [c[0] - a[0], c[1] - a[1], c[2] - a[2]];
        let n = [u[1] * v[2] - u[2] * v[1], u[2] * v[0] - u[0] * v[2], u[0] * v[1] - u[1] * v[0]];
        for axis in 0..3 {
            let across = [f.0, f.1, f.2, f.3].iter().all(|&k| p(k)[axis] == a[axis]);
            let expected = if across { -4 * a[axis] } else { 0 };
            assert_eq!(n[axis], expected);
        }
    }
}
