use raytracer::mesh::parse_mesh;
use raytracer::mesh::parse_vertex_index;
use raytracer::mesh::MeshError;

#[test]
fn index_takes_part_before_slash() {
    assert_eq!(parse_vertex_index("12/3/4"), Some(11));
    assert_eq!(parse_vertex_index("12//4"), Some(11));
    assert_eq!(parse_vertex_index("7/"), Some(6));
}

#[test]
fn index_is_shifted_to_zero_based() {
    assert_eq!(parse_vertex_index("1"), Some(0));
    assert_eq!(parse_vertex_index("42"), Some(41));
}

#[test]
fn index_accepts_plus_sign() {
    assert_eq!(parse_vertex_index("+5"), Some(4));
    assert_eq!(parse_vertex_index("+"), None);
}

#[test]
fn index_zero_is_invalid() {
    assert_eq!(parse_vertex_index("0"), None);
    assert_eq!(parse_vertex_index("0/1"), None);
}

#[test]
fn index_rejects_garbage() {
    assert_eq!(parse_vertex_index(""), None);
    assert_eq!(parse_vertex_index("/2"), None);
    assert_eq!(parse_vertex_index("x"), None);
    assert_eq!(parse_vertex_index("1x"), None);
    assert_eq!(parse_vertex_index("-1"), None);
    assert_eq!(parse_vertex_index(" 1"), None);
}

#[test]
fn index_rejects_overflow() {
    assert_eq!(parse_vertex_index("99999999999999999999999999"), None);
    // usize::MAX itself is still representable and becomes usize::MAX - 1.
    let max = format!("{}", usize::MAX);
    assert_eq!(parse_vertex_index(&max), Some(usize::MAX - 1));
}

#[test]
fn parses_vertices_and_faces() {
    let text = b"v 0 0 1\nv 1.5 0 0\nv 0 -1 0\nf 1 2 3\n";
    let mesh = parse_mesh(text).unwrap();
    assert_eq!(mesh.vertices.len(), 3);
    assert_eq!(mesh.faces.len(), 1);
    assert_eq!(mesh.vertices[1].x, b"1.5".to_vec());
    assert_eq!(mesh.vertices[2].y, b"-1".to_vec());
    assert_eq!(mesh.faces[0].a, 0);
    assert_eq!(mesh.faces[0].b, 1);
    assert_eq!(mesh.faces[0].c, 2);
}

#[test]
fn face_indices_drop_slash_attributes() {
    let text = b"v 0 0 0\nv 1 0 0\nv 0 1 0\nf 1/4/7 2/5/8 3/6/9\n";
    let mesh = parse_mesh(text).unwrap();
    assert_eq!(mesh.faces[0].a, 0);
    assert_eq!(mesh.faces[0].b, 1);
    assert_eq!(mesh.faces[0].c, 2);
}

#[test]
fn other_line_tags_are_skipped() {
    let text = b"# comment\no monkey\nvn 0 0 1\nvt 0 1\ns off\nv 1 2 3\n\n";
    let mesh = parse_mesh(text).unwrap();
    assert_eq!(mesh.vertices.len(), 1);
    assert_eq!(mesh.faces.len(), 0);
}

#[test]
fn tag_must_be_first_field() {
    // A leading space makes the first field empty, so the line is skipped.
    let text = b" v 1 2 3\n";
    let mesh = parse_mesh(text).unwrap();
    assert_eq!(mesh.vertices.len(), 0);
}

#[test]
fn crlf_line_endings_are_stripped() {
    let text = b"v 1 2 3\r\nv 4 5 6\r\nv 7 8 9\r\nf 1 2 3\r\n";
    let mesh = parse_mesh(text).unwrap();
    assert_eq!(mesh.vertices.len(), 3);
    assert_eq!(mesh.vertices[0].z, b"3".to_vec());
    assert_eq!(mesh.faces.len(), 1);
}

#[test]
fn missing_final_newline_is_fine() {
    let text = b"v 1 2 3";
    let mesh = parse_mesh(text).unwrap();
    assert_eq!(mesh.vertices.len(), 1);
}

#[test]
fn empty_description_is_an_empty_mesh() {
    let mesh = parse_mesh(b"").unwrap();
    assert_eq!(mesh.vertices.len(), 0);
    assert_eq!(mesh.faces.len(), 0);
}

#[test]
fn vertex_needs_exactly_three_fields() {
    assert_eq!(parse_mesh(b"v 1 2\n").unwrap_err(), MeshError::VertexFieldCount);
    assert_eq!(parse_mesh(b"v 1 2 3 4\n").unwrap_err(), MeshError::VertexFieldCount);
    assert_eq!(parse_mesh(b"v\n").unwrap_err(), MeshError::VertexFieldCount);
    // A trailing space leaves an empty fourth field.
    assert_eq!(parse_mesh(b"v 1 2 3 \n").unwrap_err(), MeshError::VertexFieldCount);
}

#[test]
fn face_needs_exactly_three_fields() {
    let prefix = b"v 0 0 0\nv 1 0 0\nv 0 1 0\n";
    let mut two = prefix.to_vec();
    two.extend_from_slice(b"f 1 2\n");
    assert_eq!(parse_mesh(&two).unwrap_err(), MeshError::FaceFieldCount);
    let mut four = prefix.to_vec();
    four.extend_from_slice(b"f 1 2 3 1\n");
    assert_eq!(parse_mesh(&four).unwrap_err(), MeshError::FaceFieldCount);
}

#[test]
fn face_index_must_be_numeric_and_positive() {
    let text = b"v 0 0 0\nv 1 0 0\nv 0 1 0\nf 1 2 x\n";
    assert_eq!(parse_mesh(text).unwrap_err(), MeshError::InvalidFaceIndex);
    let zero = b"v 0 0 0\nv 1 0 0\nv 0 1 0\nf 0 1 2\n";
    assert_eq!(parse_mesh(zero).unwrap_err(), MeshError::InvalidFaceIndex);
}

#[test]
fn face_may_only_reference_earlier_vertices() {
    let text = b"v 0 0 0\nv 1 0 0\nv 0 1 0\nf 1 2 4\n";
    assert_eq!(parse_mesh(text).unwrap_err(), MeshError::FaceIndexOutOfRange);
    let early = b"f 1 2 3\nv 0 0 0\nv 1 0 0\nv 0 1 0\n";
    assert_eq!(parse_mesh(early).unwrap_err(), MeshError::FaceIndexOutOfRange);
}

#[test]
fn first_error_wins() {
    let text = b"v 1 2\nf 1 2 3 4\n";
    assert_eq!(parse_mesh(text).unwrap_err(), MeshError::VertexFieldCount);
}

#[test]
fn coordinate_fields_are_verbatim() {
    // The parser does not interpret coordinates; even non-numeric fields are
    // handed through for the front end to reject.
    let text = b"v a b c\n";
    let mesh = parse_mesh(text).unwrap();
    assert_eq!(mesh.vertices[0].x, b"a".to_vec());
    assert_eq!(mesh.vertices[0].y, b"b".to_vec());
    assert_eq!(mesh.vertices[0].z, b"c".to_vec());
}

#[test]
fn double_space_makes_an_empty_field() {
    assert_eq!(parse_mesh(b"v 1  2 3\n").unwrap_err(), MeshError::VertexFieldCount);
}
