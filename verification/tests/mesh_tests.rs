use soft_render::point::Vec3;
use soft_render::mesh::Model;
use soft_render::mesh::Vertex;

fn sample() -> Model {
    let mut m = Model::new();
    m.vertices.push(Vertex::new(0, 0, 0));
    m.vertices.push(Vertex::new(400, 200, 100));
    m.vertices.push(Vertex::new(100, -50, 60));
    m
}

fn faces(m: &Model) -> Vec<Vec<usize>> {
    m.faces.iter().map(|f| f.indices.clone()).collect()
}

#[test]
fn new_model_is_empty() {
    let m = Model::new();
    assert!(m.vertices.is_empty());
    assert!(m.faces.is_empty());
    let zero = Vec3 { x: 0, y: 0, z: 0 };
    assert_eq!(m.get_bounding_box(), (zero, zero));
    assert_eq!(m.get_center(), zero);
    assert_eq!(m.get_scale(), 0);
}

#[test]
fn vertex_new_keeps_coordinates() {
    assert_eq!(Vertex::new(1, -2, 3).position, Vec3 { x: 1, y: -2, z: 3 });
}

#[test]
fn bounding_box_center_and_scale() {
    let m = sample();
    assert_eq!(
        m.get_bounding_box(),
        (Vec3 { x: 0, y: -50, z: 0 }, Vec3 { x: 400, y: 200, z: 100 })
    );
    assert_eq!(m.get_center(), Vec3 { x: 200, y: 75, z: 50 });
    assert_eq!(m.get_scale(), 400);
}

#[test]
fn bounding_box_of_one_vertex() {
    let mut m = Model::new();
    m.vertices.push(Vertex::new(-7, 8, -9));
    let p = Vec3 { x: -7, y: 8, z: -9 };
    assert_eq!(m.get_bounding_box(), (p, p));
    assert_eq!(m.get_center(), p);
    assert_eq!(m.get_scale(), 0);
    // No extent: normalizing leaves it where it is.
    m.normalize(1000);
    assert_eq!(m.vertices[0].position, p);
}

#[test]
fn center_rounds_toward_zero_and_scale_is_wide() {
    let mut m = Model::new();
    m.vertices.push(Vertex::new(-4, 0, i32::MIN));
    m.vertices.push(Vertex::new(1, 3, i32::MAX));
    assert_eq!(m.get_center(), Vec3 { x: -1, y: 1, z: 0 });
    assert_eq!(m.get_scale(), i32::MAX as i64 - i32::MIN as i64);
}

#[test]
fn normalize_centers_and_resizes() {
    let mut m = sample();
    m.faces.push(soft_render::mesh::Face { indices: vec![0, 1, 2] });
    m.normalize(800);
    let got: Vec<Vec3> = m.vertices.iter().map(|v| v.position).collect();
    assert_eq!(
        got,
        vec![
            Vec3 { x: -400, y: -150, z: -100 },
            Vec3 { x: 400, y: 250, z: 100 },
            Vec3 { x: -200, y: -250, z: 20 },
        ]
    );
    assert_eq!(m.get_scale(), 800);
    assert_eq!(faces(&m), vec![vec![0, 1, 2]]);
}

#[test]
fn normalize_rounds_toward_zero() {
    let mut m = Model::new();
    m.vertices.push(Vertex::new(0, 0, 0));
    m.vertices.push(Vertex::new(400, 0, 0));
    // Offsets -200 and 200 times 3 / 400 = -1.5 and 1.5.
    m.normalize(3);
    assert_eq!(m.vertices[0].position.x, -1);
    assert_eq!(m.vertices[1].position.x, 1);
    // A negative size mirrors the mesh.
    let mut n = Model::new();
    n.vertices.push(Vertex::new(0, 0, 0));
    n.vertices.push(Vertex::new(10, 0, 0));
    n.normalize(-20);
    assert_eq!((n.vertices[0].position.x, n.vertices[1].position.x), (10, -10));
}

#[test]
fn normalize_at_the_extremes() {
    let mut m = Model::new();
    m.vertices.push(Vertex::new(i32::MIN, -1, 0));
    m.vertices.push(Vertex::new(i32::MAX, 0, 0));
    m.normalize(i32::MAX);
    assert_eq!(m.vertices[0].position.x, -1073741823);
    assert_eq!(m.vertices[1].position.x, 1073741823);
    let mut tiny = Model::new();
    tiny.vertices.push(Vertex::new(-1, 0, 0));
    tiny.vertices.push(Vertex::new(0, 0, 0));
    tiny.normalize(-i32::MAX);
    assert_eq!(tiny.vertices[0].position.x, i32::MAX);
    assert_eq!(tiny.vertices[1].position.x, 0);
}

#[test]
fn a_triangle_line_gives_one_face() {
    let mut m = Model::new();
    m.push_face(&vec![1, 2, 3]);
    assert_eq!(faces(&m), vec![vec![0, 1, 2]]);
    m.push_face(&vec![7, 5, 9]);
    assert_eq!(faces(&m), vec![vec![0, 1, 2], vec![6, 4, 8]]);
    assert!(m.vertices.is_empty());
}

#[test]
fn a_quad_line_gives_two_faces() {
    let mut m = Model::new();
    m.push_face(&vec![1, 2, 3, 4]);
    assert_eq!(faces(&m), vec![vec![0, 1, 2], vec![0, 2, 3]]);
}

#[test]
fn longer_lines_give_the_first_triangle_only() {
    let mut m = Model::new();
    m.push_face(&vec![1, 2, 3, 4, 5]);
    assert_eq!(faces(&m), vec![vec![0, 1, 2]]);
}

#[test]
fn short_lines_give_nothing() {
    let mut m = Model::new();
    m.push_face(&vec![]);
    m.push_face(&vec![1]);
    m.push_face(&vec![1, 2]);
    m.push_face(&vec![0, 1, 2]);
    assert!(m.faces.is_empty());
}

#[test]
fn zero_corners_are_passed_over() {
    let mut m = Model::new();
    m.push_face(&vec![0, 4, 0, 5, 6, 0]);
    assert_eq!(faces(&m), vec![vec![3, 4, 5]]);
    m.push_face(&vec![1, 0, 2, 3, 4]);
    assert_eq!(faces(&m), vec![vec![3, 4, 5], vec![0, 1, 2], vec![0, 2, 3]]);
    m.push_face(&vec![usize::MAX, 1, 1]);
    assert_eq!(faces(&m)[3], vec![usize::MAX - 1, 0, 0]);
}
