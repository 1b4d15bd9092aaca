use software_renderer::fixed_point::Fixed;
use software_renderer::obj::{import_obj_line, parse_decimal, parse_int, parse_number, parse_obj_line, split_fields, ObjFace, ObjLine};
use software_renderer::types::{Mesh, TextureUV, Vec3};

fn fx(v: f64) -> Fixed {
    Fixed::from_bits((v * 65536.0).round() as i64)
}

#[test]
fn decimals_round_toward_zero() {
    assert_eq!(parse_decimal(b"1.5"), Some(fx(1.5)));
    assert_eq!(parse_decimal(b"-0.25"), Some(fx(-0.25)));
    assert_eq!(parse_decimal(b"+2"), Some(fx(2.0)));
    assert_eq!(parse_decimal(b".5"), Some(fx(0.5)));
    assert_eq!(parse_decimal(b"3."), Some(fx(3.0)));
    assert_eq!(parse_decimal(b"0.1").unwrap().bits, 6553);
    assert_eq!(parse_decimal(b"-0.1").unwrap().bits, -6553);
}

#[test]
fn malformed_decimals_are_rejected() {
    assert_eq!(parse_decimal(b""), None);
    assert_eq!(parse_decimal(b"-"), None);
    assert_eq!(parse_decimal(b"."), None);
    assert_eq!(parse_decimal(b"1.2.3"), None);
    assert_eq!(parse_decimal(b"1234567890123456789"), None);
}

#[test]
fn integers_fit_in_i32() {
    assert_eq!(parse_int(b"42"), Some(42));
    assert_eq!(parse_int(b"-7"), Some(-7));
    assert_eq!(parse_int(b"2147483647"), Some(i32::MAX));
    assert_eq!(parse_int(b"2147483648"), None);
    assert_eq!(parse_int(b"4a"), None);
    assert_eq!(parse_int(b""), None);
}

#[test]
fn fields_split_like_str_split() {
    let s = b"f 1/2 3/4  5";
    let f = split_fields(s, b' ');
    let parts: Vec<&[u8]> = f.iter().map(|&(a, b)| &s[a..b]).collect();
    let expected: Vec<&[u8]> = "f 1/2 3/4  5".split(' ').map(|p| p.as_bytes()).collect();
    assert_eq!(parts, expected);
}

#[test]
fn obj_lines_are_read() {
    assert_eq!(parse_obj_line(b"v 1.0 -2.5 0.5"), ObjLine::Vertex(Vec3 { x: fx(1.0), y: fx(-2.5), z: fx(0.5) }));
    assert_eq!(parse_obj_line(b"vt 0.25 0.75"), ObjLine::TextureCoord(TextureUV { u: fx(0.25), v: fx(0.25) }));
    assert_eq!(
        parse_obj_line(b"f 1/1 2/3/9 3/2"),
        ObjLine::Face(ObjFace { a: 1, b: 2, c: 3, a_uv: 1, b_uv: 3, c_uv: 2 })
    );
    assert_eq!(parse_obj_line(b"f 1 2 3"), ObjLine::Skip);
    assert_eq!(parse_obj_line(b"v 1 2"), ObjLine::Skip);
    assert_eq!(parse_obj_line(b"# comment"), ObjLine::Skip);
    assert_eq!(parse_obj_line(b"vn 0 0 1"), ObjLine::Skip);
}

#[test]
fn obj_lines_build_a_mesh() {
    let mut mesh = Mesh { vertices: vec![], triangles: vec![] };
    let mut uvs = vec![];
    for line in ["v 0 0 0", "v 1 0 0", "v 0 1 0", "vt 0 0", "vt 1 1", "f 1/1 2/2 3/1", "f 1/1 2/2 3/3"] {
        import_obj_line(&mut mesh, &mut uvs, line.as_bytes());
    }
    assert_eq!(mesh.vertices.len(), 3);
    assert_eq!(uvs.len(), 2);
    assert_eq!(mesh.triangles.len(), 1);
    let t = mesh.triangles[0];
    assert_eq!((t.a, t.b, t.c), (1, 2, 3));
    assert_eq!(t.a_uv, TextureUV { u: fx(0.0), v: fx(1.0) });
    assert_eq!(t.b_uv, TextureUV { u: fx(1.0), v: fx(0.0) });
}

#[test]
fn numbers_accept_an_exponent() {
    assert_eq!(parse_number(b"1e5"), Some(fx(100000.0)));
    assert_eq!(parse_number(b"1.00001e5"), Some(fx(100001.0)));
    assert_eq!(parse_number(b"-2.5E-1"), Some(fx(-0.25)));
    assert_eq!(parse_number(b"7e+0"), Some(fx(7.0)));
    assert_eq!(parse_number(b"1.5"), Some(fx(1.5)));
    assert_eq!(parse_number(b"1e20").unwrap().bits, i64::MAX);
    assert_eq!(parse_number(b"-1e20").unwrap().bits, i64::MIN);
    assert_eq!(parse_number(b"1e-30").unwrap().bits, 0);
    assert_eq!(parse_number(b"e5"), None);
    assert_eq!(parse_number(b"1e"), None);
    assert_eq!(parse_number(b"1e5e2"), None);
    assert_eq!(parse_decimal(b"1e5"), None);
}

#[test]
fn vertex_lines_accept_exponents() {
    assert_eq!(parse_obj_line(b"v 1e0 -2.5e-1 5E-1"), ObjLine::Vertex(Vec3 { x: fx(1.0), y: fx(-0.25), z: fx(0.5) }));
}
