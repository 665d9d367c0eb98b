use stl_mesh::tokens::{check_whitespace, tokenize};
use stl_mesh::{Mesh, ParseError, Scalar, Triangle, Vertex};

fn coord(v: f32) -> Scalar {
    Scalar::from_bits(v.to_bits())
}

fn vertex(x: f32, y: f32, z: f32) -> Vertex {
    [coord(x), coord(y), coord(z)]
}

fn word(token: &Vec<char>) -> String {
    token.iter().collect()
}

fn decode(text: &str) -> Vec<Option<Scalar>> {
    tokenize(text).iter().map(|t| word(t).parse::<f32>().ok().map(coord)).collect()
}

fn read(text: &str) -> Result<Mesh, ParseError> {
    Mesh::from_ascii(text.to_string(), &decode(text))
}

fn error_of(text: &str) -> Option<ParseError> {
    read(text).err()
}

const TWO_FACETS: &str = "solid part
  facet normal 0 0 1
    outer loop
      vertex 0 0 -1
      vertex 0 0 1
      vertex 1 0 0
    endloop
  endfacet
  facet normal 0 1 0
    outer loop
      vertex -1.5 2e1 .25
      vertex 4. -0.0 1E-2
      vertex 7 8 9
    endloop
  endfacet
endsolid part
";

#[test]
fn tokenize_agrees_with_split_whitespace() {
    let texts = [
        "",
        " ",
        "a",
        " a",
        "a ",
        "  solid  x\n\tfacet\r\nnormal 0 0 1  ",
        "vertex\u{a0}1\u{2003}2\u{3000}3\u{85}endloop\u{1680}x\u{2028}y\u{2029}z\u{202f}w\u{205f}v",
        "a\u{b}b\u{c}c",
        "no\u{200b}break \u{feff}mark",
        TWO_FACETS,
    ];
    for text in texts {
        let ours: Vec<String> = tokenize(text).iter().map(word).collect();
        let theirs: Vec<String> = text.split_whitespace().map(|t| t.to_string()).collect();
        assert_eq!(ours, theirs, "{:?}", text);
    }
}

#[test]
fn whitespace_agrees_with_char_is_whitespace() {
    let mut code: u32 = 0;
    while code <= 0x3100 {
        if let Some(c) = char::from_u32(code) {
            assert_eq!(check_whitespace(c), c.is_whitespace(), "{:?}", c);
        }
        code += 1;
    }
    assert!(!check_whitespace('\u{feff}'));
    assert!(!check_whitespace('\u{10ffff}'));
}

#[test]
fn parse() {
    let mesh = read(TWO_FACETS).unwrap();
    assert_eq!(mesh.triangles.len(), 2);
}

#[test]
fn triangles_come_in_facet_order_with_their_vertices() {
    let mesh = read(TWO_FACETS).unwrap();
    assert_eq!(mesh.triangles.len(), 2);
    assert_eq!(
        mesh.triangles[0].vertices,
        [vertex(0.0, 0.0, -1.0), vertex(0.0, 0.0, 1.0), vertex(1.0, 0.0, 0.0)]
    );
    assert_eq!(
        mesh.triangles[1].vertices,
        [vertex(-1.5, 20.0, 0.25), vertex(4.0, -0.0, 0.01), vertex(7.0, 8.0, 9.0)]
    );
}

#[test]
fn facet_count_is_triangle_count() {
    let mut text = String::from("solid s\n");
    for k in 0..7 {
        text.push_str(&format!(
            "facet normal 0 0 0 outer loop vertex {} 0 0 vertex 0 {} 0 vertex 0 0 {} endloop endfacet\n",
            k, k, k
        ));
    }
    text.push_str("endsolid s\n");
    let mesh = read(&text).unwrap();
    assert_eq!(mesh.triangles.len(), 7);
    for k in 0..7 {
        let f = k as f32;
        assert_eq!(
            mesh.triangles[k].vertices,
            [vertex(f, 0.0, 0.0), vertex(0.0, f, 0.0), vertex(0.0, 0.0, f)]
        );
    }
}

#[test]
fn edges_follow_winding_order() {
    let a = vertex(1.0, 2.0, 3.0);
    let b = vertex(4.0, 5.0, 6.0);
    let c = vertex(7.0, 8.0, 9.0);
    let t = Triangle::new([a, b, c]);
    assert_eq!(t.vertices, [a, b, c]);
    assert_eq!(t.lines, [(a, b), (b, c), (c, a)]);
    let mesh = read(TWO_FACETS).unwrap();
    for t in &mesh.triangles {
        assert_eq!(t.lines[0], (t.vertices[0], t.vertices[1]));
        assert_eq!(t.lines[1], (t.vertices[1], t.vertices[2]));
        assert_eq!(t.lines[2], (t.vertices[2], t.vertices[0]));
    }
}

#[test]
fn parsing_twice_gives_the_same_triangles() {
    let first = read(TWO_FACETS).unwrap();
    let second = read(TWO_FACETS).unwrap();
    assert_eq!(first.triangles.len(), second.triangles.len());
    for k in 0..first.triangles.len() {
        assert_eq!(first.triangles[k].vertices, second.triangles[k].vertices);
        assert_eq!(first.triangles[k].lines, second.triangles[k].lines);
    }
}

#[test]
fn empty_text_is_the_empty_mesh() {
    assert_eq!(read("").unwrap().triangles.len(), 0);
    assert_eq!(read("solid nothing\nendsolid nothing\n").unwrap().triangles.len(), 0);
    assert_eq!(Mesh::new().triangles.len(), 0);
}

#[test]
fn malformed_number_is_a_numeric_format_error() {
    assert_eq!(error_of("vertex abc 0 0"), Some(ParseError::NumericFormat));
    assert_eq!(
        error_of("outer loop vertex 0 0 0 vertex 1 x 1 vertex 2 2 2 endloop"),
        Some(ParseError::NumericFormat)
    );
    assert_eq!(error_of("vertex 0 0 1,5"), Some(ParseError::NumericFormat));
}

#[test]
fn vertex_without_three_tokens_is_a_numeric_format_error() {
    assert_eq!(error_of("vertex"), Some(ParseError::NumericFormat));
    assert_eq!(error_of("vertex 1 2"), Some(ParseError::NumericFormat));
    assert_eq!(error_of("vertex 1 2 endloop"), Some(ParseError::NumericFormat));
    assert!(read("vertex 1 2 3").is_ok());
}

#[test]
fn closing_a_loop_too_early_is_a_structural_underflow() {
    assert_eq!(error_of("endloop"), Some(ParseError::StructuralUnderflow));
    assert_eq!(
        error_of("vertex 0 0 0 vertex 1 1 1 endloop"),
        Some(ParseError::StructuralUnderflow)
    );
    assert_eq!(
        error_of("vertex 0 0 0 vertex 1 1 1 vertex 2 2 2 endloop endloop"),
        Some(ParseError::StructuralUnderflow)
    );
}

#[test]
fn the_first_fault_decides_the_error() {
    assert_eq!(error_of("endloop vertex abc 0 0"), Some(ParseError::StructuralUnderflow));
    assert_eq!(error_of("vertex abc 0 0 endloop"), Some(ParseError::NumericFormat));
}

#[test]
fn surplus_vertices_stay_pending_for_the_next_loop() {
    let text = "vertex 0 0 0 vertex 1 1 1 vertex 2 2 2 vertex 3 3 3 endloop \
                vertex 4 4 4 vertex 5 5 5 endloop";
    let mesh = read(text).unwrap();
    assert_eq!(mesh.triangles.len(), 2);
    assert_eq!(
        mesh.triangles[0].vertices,
        [vertex(0.0, 0.0, 0.0), vertex(1.0, 1.0, 1.0), vertex(2.0, 2.0, 2.0)]
    );
    assert_eq!(
        mesh.triangles[1].vertices,
        [vertex(3.0, 3.0, 3.0), vertex(4.0, 4.0, 4.0), vertex(5.0, 5.0, 5.0)]
    );
}

#[test]
fn keywords_are_matched_exactly() {
    let mesh = read("Vertex a b c vertexes x ENDLOOP endloops").unwrap();
    assert_eq!(mesh.triangles.len(), 0);
}

#[test]
fn tokens_without_an_entry_denote_no_number() {
    let tokens = tokenize("vertex 1 2 3");
    let short = vec![None, Some(coord(1.0)), Some(coord(2.0))];
    assert_eq!(Mesh::from_tokens(&tokens, &short).err(), Some(ParseError::NumericFormat));
    let full = vec![None, Some(coord(1.0)), Some(coord(2.0)), Some(coord(3.0))];
    assert!(Mesh::from_tokens(&tokens, &full).is_ok());
}

#[test]
fn a_value_for_a_malformed_token_is_not_consulted() {
    let tokens = tokenize("vertex abc 0 0");
    let forged = vec![None, Some(coord(1.0)), Some(coord(0.0)), Some(coord(0.0))];
    assert_eq!(Mesh::from_tokens(&tokens, &forged).err(), Some(ParseError::NumericFormat));
    let all: Vec<Option<Scalar>> = vec![Some(coord(5.0)); 4];
    let mesh = Mesh::from_tokens(&tokenize("vertex 1 2 3 endsolid"), &all).unwrap();
    assert_eq!(mesh.triangles.len(), 0);
}
