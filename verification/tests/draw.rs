use monolith::arena::Arena;
use monolith::draw::texture::Texture;
use monolith::draw::{
    make_lines, make_quads, make_rect, quads_to_triangles, triangles_to_quads, Element,
    ElementType, Mesh, VertexData,
};
use monolith::math::{Vec2u, Vec3u, Vec4u};

#[test]
fn test_vertex_data() {
    let mut arena = Arena::new(1024);

    let positions = arena.allocate::<Vec3u>(10).unwrap();
    let normals = arena.allocate::<Vec3u>(10).unwrap();
    let texcoords = arena.allocate::<Vec2u>(10).unwrap();

    let vertices = VertexData::new(positions, normals, texcoords);

    assert_eq!(vertices.len(), 10);
    assert_eq!(vertices.is_empty(), false);
    assert_eq!(vertices.is_valid(), true);

    assert_eq!(vertices.positions().len(), 10);
    assert_eq!(vertices.normals().len(), 10);
    assert_eq!(vertices.texcoords().len(), 10);
}

#[test]
fn test_mesh() {
    let mut arena = Arena::new(1024);

    let positions = arena.allocate::<Vec3u>(10).unwrap();
    let normals = arena.allocate::<Vec3u>(10).unwrap();
    let texcoords = arena.allocate::<Vec2u>(10).unwrap();
    let indices = arena.allocate::<u32>(10).unwrap();

    let vertices = VertexData::new(positions, normals, texcoords);

    let mesh = Mesh::new(vertices, Element::Point(indices));

    assert_eq!(mesh.len(), 10);
    assert_eq!(mesh.is_empty(), false);
    assert_eq!(mesh.is_valid(), true);

    assert_eq!(mesh.positions().len(), 10);
    assert_eq!(mesh.normals().len(), 10);
    assert_eq!(mesh.texcoords().len(), 10);
    assert_eq!(
        match mesh.elements() {
            Element::Point(_) => true,
            _ => false,
        },
        true
    );
    assert_eq!(
        match mesh.elements() {
            Element::Point(indices) => indices.len(),
            _ => 0,
        },
        10
    );
    assert_eq!(mesh.elements().kind(), ElementType::Point);
    assert_eq!(mesh.elements().len(), 10);
    assert_eq!(mesh.vertices().len(), 10);
}

#[test]
fn vertex_data_with_unequal_buffers_is_not_valid() {
    let mut arena = Arena::new(1024);
    let positions = arena.allocate::<Vec3u>(3).unwrap();
    let normals = arena.allocate::<Vec3u>(2).unwrap();
    let texcoords = arena.allocate::<Vec2u>(3).unwrap();
    assert!(!VertexData::new(positions, normals, texcoords).is_valid());

    let positions = arena.allocate::<Vec3u>(3).unwrap();
    let normals = arena.allocate::<Vec3u>(3).unwrap();
    let texcoords = arena.allocate::<Vec2u>(4).unwrap();
    assert!(!VertexData::new(positions, normals, texcoords).is_valid());

    let positions = arena.allocate::<Vec3u>(0).unwrap();
    let normals = arena.allocate::<Vec3u>(0).unwrap();
    let texcoords = arena.allocate::<Vec2u>(0).unwrap();
    let empty = VertexData::new(positions, normals, texcoords);
    assert!(empty.is_valid());
    assert!(empty.is_empty());
}

#[test]
fn quads_split_into_triangles() {
    let mut arena = Arena::new(256);
    let quads = arena
        .push_slice(&[Vec4u::new(0, 1, 2, 3), Vec4u::new(4, 5, 6, 6), Vec4u::new(7, 8, 9, 10)])
        .unwrap();
    assert_eq!(arena.occupied(), 48);
    let triangles = quads_to_triangles(&mut arena, &quads).unwrap();
    assert_eq!(triangles.len(), 6);
    assert_eq!(triangles.address(), 48);
    assert_eq!(arena.occupied(), 48 + 6 * 12);
    let read = arena.read(&triangles).unwrap();
    assert_eq!(
        read,
        vec![
            Vec3u::new(0, 1, 3),
            Vec3u::new(2, 3, 1),
            Vec3u::new(4, 5, 6),
            Vec3u::new(7, 8, 10),
            Vec3u::new(9, 10, 8),
            Vec3u::new(0, 0, 0),
        ]
    );
    // the quads are as they were
    assert_eq!(arena.get(&quads, 1), Some(Vec4u::new(4, 5, 6, 6)));
}

#[test]
fn quads_to_triangles_fails_without_room() {
    let mut arena = Arena::new(60);
    let quads = arena.push_slice(&[Vec4u::new(0, 1, 2, 3), Vec4u::new(4, 5, 6, 6)]).unwrap();
    assert!(quads_to_triangles(&mut arena, &quads).is_none());
    assert_eq!(arena.occupied(), 32);
}

#[test]
fn triangles_widen_into_quads() {
    let mut arena = Arena::new(256);
    let triangles = arena.push_slice(&[Vec3u::new(0, 1, 2), Vec3u::new(3, 4, 5)]).unwrap();
    let quads = triangles_to_quads(&mut arena, triangles).unwrap();
    assert_eq!(quads.len(), 2);
    assert_eq!(quads.address(), 24);
    assert_eq!(arena.occupied(), 24 + 32);
    assert_eq!(arena.read(&quads).unwrap(), vec![Vec4u::new(0, 1, 2, 2), Vec4u::new(3, 4, 5, 5)]);
    // and split back into the triangles they came from
    let back = quads_to_triangles(&mut arena, &quads).unwrap();
    assert_eq!(back.len(), 4);
    assert_eq!(arena.get(&back, 0), Some(Vec3u::new(0, 1, 2)));
    assert_eq!(arena.get(&back, 1), Some(Vec3u::new(3, 4, 5)));
}

#[test]
fn triangles_to_quads_fails_without_room() {
    let mut arena = Arena::new(30);
    let triangles = arena.push_slice(&[Vec3u::new(0, 1, 2), Vec3u::new(3, 4, 5)]).unwrap();
    assert!(triangles_to_quads(&mut arena, triangles).is_none());
    assert_eq!(arena.occupied(), 24);
}

#[test]
fn a_texture_takes_a_byte_for_each_channel() {
    let mut arena = Arena::new(100);
    let texture = Texture::new(&mut arena, 4, 3, 2).unwrap();
    assert_eq!(texture.width(), 4);
    assert_eq!(texture.height(), 3);
    assert_eq!(texture.channels(), 2);
    assert_eq!(arena.occupied(), 24);
    assert_eq!(texture.data(&arena).len(), 24);
    assert_eq!(texture.slice().len(), 24);
    texture.put(&mut arena, 5, 0x7f);
    assert_eq!(texture.data(&arena)[5], 0x7f);
    assert_eq!(texture.data(&arena)[4], 0);
    // the next one does not fit
    assert!(Texture::new(&mut arena, 4, 5, 4).is_none());
    assert_eq!(arena.occupied(), 24);
    assert!(Texture::new(&mut arena, 19, 4, 1).is_some());
    assert!(arena.is_full());
}

#[test]
fn a_texture_too_large_to_count_fails() {
    let mut arena = Arena::new(16);
    assert!(Texture::new(&mut arena, u32::MAX, u32::MAX, u32::MAX).is_none());
    assert_eq!(arena.occupied(), 0);
    // an extent of zero takes nothing, whatever the others are
    let empty = Texture::new(&mut arena, u32::MAX, u32::MAX, 0).unwrap();
    assert_eq!(empty.slice().len(), 0);
    assert_eq!(arena.occupied(), 0);
}

#[test]
fn test_make_quad() {
    let mut arena = Arena::new(1024);

    let mesh = make_quads(&mut arena, Vec2u::new(1, 1)).unwrap();

    assert_eq!(mesh.len(), 4);
    assert_eq!(mesh.is_empty(), false);
    assert_eq!(mesh.is_valid(), true);

    assert_eq!(mesh.positions().len(), 4);
    assert_eq!(mesh.normals().len(), 4);
    assert_eq!(mesh.texcoords().len(), 4);
    assert_eq!(
        match mesh.elements() {
            Element::Quad(_) => true,
            _ => false,
        },
        true
    );
    assert_eq!(
        match mesh.elements() {
            Element::Quad(indices) => indices.len(),
            _ => 0,
        },
        1
    );
    match mesh.elements() {
        Element::Quad(indices) => {
            assert_eq!(arena.read(indices).unwrap(), vec![Vec4u::new(0, 1, 3, 2)]);
        },
        _ => unreachable!(),
    }
    assert_eq!(arena.occupied(), 4 * 12 + 4 * 12 + 4 * 8 + 16);
}

#[test]
fn a_grid_of_quads_is_numbered_row_by_row() {
    let mut arena = Arena::new(4096);
    arena.push(1u8).unwrap();
    let mesh = make_quads(&mut arena, Vec2u::new(3, 2)).unwrap();
    assert_eq!(mesh.len(), 12);
    assert_eq!(mesh.positions().address(), 4);
    assert_eq!(mesh.normals().address(), 4 + 144);
    assert_eq!(mesh.texcoords().address(), 4 + 288);
    assert_eq!(mesh.elements().len(), 6);
    assert_eq!(mesh.elements().kind(), ElementType::Quad);
    match mesh.elements() {
        Element::Quad(indices) => {
            assert_eq!(indices.address(), 4 + 288 + 96);
            assert_eq!(
                arena.read(indices).unwrap(),
                vec![
                    Vec4u::new(0, 1, 5, 4),
                    Vec4u::new(1, 2, 6, 5),
                    Vec4u::new(2, 3, 7, 6),
                    Vec4u::new(4, 5, 9, 8),
                    Vec4u::new(5, 6, 10, 9),
                    Vec4u::new(6, 7, 11, 10),
                ]
            );
        },
        _ => unreachable!(),
    }
    assert_eq!(arena.occupied(), 4 + 288 + 96 + 96);
}

#[test]
fn make_rect_is_a_grid_of_quads() {
    let mut arena = Arena::new(1024);
    let mesh = make_rect(&mut arena, Vec2u::new(2, 1)).unwrap();
    assert_eq!(mesh.len(), 6);
    match mesh.elements() {
        Element::Quad(indices) => {
            assert_eq!(
                arena.read(indices).unwrap(),
                vec![Vec4u::new(0, 1, 4, 3), Vec4u::new(1, 2, 5, 4)]
            );
        },
        _ => unreachable!(),
    }
}

#[test]
fn a_grid_without_cells_has_vertices_only() {
    let mut arena = Arena::new(1024);
    let mesh = make_quads(&mut arena, Vec2u::new(0, 3)).unwrap();
    assert_eq!(mesh.len(), 4);
    assert_eq!(mesh.elements().len(), 0);
    assert_eq!(arena.occupied(), 4 * 32);
}

#[test]
fn make_quads_keeps_what_it_reserved_before_it_failed() {
    // room for the positions and the normals, not for the texture coordinates
    let mut arena = Arena::new(100);
    assert!(make_quads(&mut arena, Vec2u::new(1, 1)).is_none());
    assert_eq!(arena.occupied(), 96);
    // room for everything but the quads
    let mut arena = Arena::new(4 * 32 + 15);
    assert!(make_quads(&mut arena, Vec2u::new(1, 1)).is_none());
    assert_eq!(arena.occupied(), 128);
    // no room for the positions
    let mut arena = Arena::new(47);
    assert!(make_quads(&mut arena, Vec2u::new(1, 1)).is_none());
    assert_eq!(arena.occupied(), 0);
    // room for all
    let mut arena = Arena::new(4 * 32 + 16);
    assert!(make_quads(&mut arena, Vec2u::new(1, 1)).is_some());
    assert!(arena.is_full());
}

#[test]
fn rows_of_lines_are_numbered_row_by_row() {
    let mut arena = Arena::new(1024);
    let mesh = make_lines(&mut arena, Vec2u::new(2, 2)).unwrap();
    assert_eq!(mesh.len(), 6);
    assert!(mesh.is_valid());
    assert_eq!(mesh.elements().kind(), ElementType::Line);
    match mesh.elements() {
        Element::Line(indices) => {
            // positions, normals, texture coordinates and radii come first
            assert_eq!(indices.address(), 6 * (12 + 12 + 8 + 4));
            assert_eq!(
                arena.read(indices).unwrap(),
                vec![
                    Vec2u::new(0, 1),
                    Vec2u::new(1, 2),
                    Vec2u::new(3, 4),
                    Vec2u::new(4, 5),
                ]
            );
        },
        _ => unreachable!(),
    }
    assert_eq!(arena.occupied(), 6 * 36 + 4 * 8);
}

#[test]
fn make_lines_fails_without_room() {
    let mut arena = Arena::new(6 * 36 + 31);
    assert!(make_lines(&mut arena, Vec2u::new(2, 2)).is_none());
    assert_eq!(arena.occupied(), 6 * 36);
    let mut arena = Arena::new(64);
    let empty = make_lines(&mut arena, Vec2u::new(5, 0)).unwrap();
    assert!(empty.is_empty());
    assert_eq!(empty.elements().len(), 0);
    assert_eq!(arena.occupied(), 0);
}
