use soft_render::mesh::Model;
use soft_render::obj::parse_fields;
use soft_render::obj::parse_index;
use soft_render::obj::parse_line;
use soft_render::obj::split_fields;
use soft_render::obj::Field;
use soft_render::obj::InvalidFaceIndex;
use soft_render::obj::ObjLine;

fn texts(line: &str) -> Vec<String> {
    split_fields(line.as_bytes())
        .iter()
        .map(|f| String::from_utf8(line.as_bytes()[f.start..f.end].to_vec()).unwrap())
        .collect()
}

fn index(text: &str) -> Option<usize> {
    parse_index(text.as_bytes(), 0, text.len())
}

fn face(line: &str) -> Result<Vec<usize>, String> {
    match parse_line(line.as_bytes()) {
        Ok(ObjLine::Face(corners)) => Ok(corners),
        Err(e) => Err(String::from_utf8(line.as_bytes()[e.field.start..e.field.end].to_vec()).unwrap()),
        other => panic!("no face line: {:?}", other),
    }
}

fn is_skipped(line: &str) -> bool {
    matches!(parse_line(line.as_bytes()), Ok(ObjLine::Skip))
}

#[test]
fn fields_are_split_at_white_space() {
    assert_eq!(texts("v 1.0 2.5 -3"), vec!["v", "1.0", "2.5", "-3"]);
    assert_eq!(texts("  f\t1/2/3 \r\n"), vec!["f", "1/2/3"]);
    assert_eq!(texts("\x0b a \x0c b "), vec!["a", "b"]);
    assert_eq!(texts("one"), vec!["one"]);
    assert!(texts("").is_empty());
    assert!(texts(" \t \r\n").is_empty());
    assert_eq!(
        split_fields(b"  ab c"),
        vec![Field { start: 2, end: 4 }, Field { start: 5, end: 6 }]
    );
}

#[test]
fn numbers_are_decimal() {
    assert_eq!(index("0"), Some(0));
    assert_eq!(index("12"), Some(12));
    assert_eq!(index("007"), Some(7));
    assert_eq!(index("+7"), Some(7));
    assert_eq!(index("4294967295"), Some(4294967295));
    assert_eq!(index(&usize::MAX.to_string()), Some(usize::MAX));
    assert_eq!(parse_index(b"a12b", 1, 3), Some(12));
}

#[test]
fn what_is_no_number_is_refused() {
    for text in ["", "+", "-1", "-0", "1a", "a1", "1.5", " 1", "1 ", "++1", "1+", "0x10"] {
        assert_eq!(index(text), None, "{:?}", text);
        assert_eq!(index(text), text.parse::<usize>().ok());
    }
    assert_eq!(index("18446744073709551616"), None);
    assert_eq!(index("99999999999999999999999"), None);
    assert_eq!(parse_index(b"12", 1, 1), None);
}

#[test]
fn numbers_agree_with_the_standard_parser() {
    for text in ["1", "+1", "10", "18446744073709551615", "18446744073709551614", "000", "+0"] {
        assert_eq!(index(text), text.parse::<usize>().ok(), "{:?}", text);
    }
}

#[test]
fn vertex_lines_give_their_coordinate_fields() {
    let line = b" v  1.5 -2 3e2 extra";
    match parse_line(line) {
        Ok(ObjLine::Vertex(x, y, z)) => {
            assert_eq!(&line[x.start..x.end], b"1.5");
            assert_eq!(&line[y.start..y.end], b"-2");
            assert_eq!(&line[z.start..z.end], b"3e2");
        },
        other => panic!("no vertex line: {:?}", other),
    }
    assert!(is_skipped("v 1 2"));
    assert!(is_skipped("v"));
}

#[test]
fn other_lines_are_skipped() {
    for line in ["", "   ", "# a comment", "#f 1 2 3", "vn 0 0 1", "vt 0 1", "o name", "F 1 2 3",
        "ff 1 2 3", "#", "g", "s off"]
    {
        assert!(is_skipped(line), "{:?}", line);
    }
}

#[test]
fn face_lines_give_their_corners() {
    assert_eq!(face("f 1 2 3"), Ok(vec![1, 2, 3]));
    assert_eq!(face("f 1/2/3 4//5 6/7"), Ok(vec![1, 4, 6]));
    assert_eq!(face("  f\t10 20 30 40  "), Ok(vec![10, 20, 30, 40]));
    assert_eq!(face("f"), Ok(vec![]));
    assert_eq!(face("f 0 1 2"), Ok(vec![0, 1, 2]));
    assert_eq!(face("f +1/x 2/-1 3/"), Ok(vec![1, 2, 3]));
}

#[test]
fn face_lines_fail_at_the_first_bad_corner() {
    assert_eq!(face("f 1 x 3"), Err("x".to_string()));
    assert_eq!(face("f 1 2 -3 y"), Err("-3".to_string()));
    assert_eq!(face("f /1 2 3"), Err("/1".to_string()));
    assert_eq!(face("f 1 2 99999999999999999999/1"), Err("99999999999999999999/1".to_string()));
    assert_eq!(face("f 1.0 2 3"), Err("1.0".to_string()));
    let line = b"f 1 bad";
    assert_eq!(
        parse_line(line).unwrap_err(),
        InvalidFaceIndex { field: Field { start: 4, end: 7 } }
    );
}

#[test]
fn fields_can_be_read_by_themselves() {
    let line = b"f 3 2 1";
    let fields = split_fields(line);
    match parse_fields(line, &fields) {
        Ok(ObjLine::Face(corners)) => assert_eq!(corners, vec![3, 2, 1]),
        other => panic!("no face line: {:?}", other),
    }
}

#[test]
fn a_file_of_faces_fills_a_model() {
    let text = "# a square and a triangle\nv 0 0 0\nf 1 2 3 4\n\nf 5/1 6/2 7/3\nf 1 2\nvn 0 0 1\nf 0 8 9 10\n";
    let mut model = Model::new();
    let mut vertices = 0;
    for line in text.lines() {
        match parse_line(line.as_bytes()).unwrap() {
            ObjLine::Skip => {},
            ObjLine::Vertex(..) => vertices += 1,
            ObjLine::Face(corners) => model.push_face(&corners),
        }
    }
    assert_eq!(vertices, 1);
    let faces: Vec<Vec<usize>> = model.faces.iter().map(|f| f.indices.clone()).collect();
    assert_eq!(faces, vec![vec![0, 1, 2], vec![0, 2, 3], vec![4, 5, 6], vec![7, 8, 9]]);
}
