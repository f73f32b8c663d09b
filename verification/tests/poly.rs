use cairn_core::poly::{parse_poly, PolyError};

const SQUARE: &str = "test\n1\n   0.0 0.0\n   0.0 10.0\n   10.0 10.0\n   10.0 0.0\n   0.0 0.0\nEND\nEND\n";

fn pairs(v: &[(&str, &str)]) -> Vec<(String, String)> {
    v.iter().map(|(a, b)| (a.to_string(), b.to_string())).collect()
}

/// West, south, east, north over the outer rings' coordinates.
fn bounds(shape: &cairn_core::poly::PolyText) -> (f64, f64, f64, f64) {
    let mut b = (f64::MAX, f64::MAX, f64::MIN, f64::MIN);
    for (lon, lat) in shape.outers.iter().flatten() {
        let (lon, lat): (f64, f64) = (lon.parse().unwrap(), lat.parse().unwrap());
        b = (b.0.min(lon), b.1.min(lat), b.2.max(lon), b.3.max(lat));
    }
    b
}

#[test]
fn parses_a_single_ring() {
    let shape = parse_poly(SQUARE).unwrap();
    assert_eq!(shape.name, "test");
    assert_eq!(shape.outers.len(), 1);
    assert_eq!(bounds(&shape), (0.0, 0.0, 10.0, 10.0));
    assert!(shape.holes.is_empty());
    assert_eq!(
        shape.outers[0],
        pairs(&[("0.0", "0.0"), ("0.0", "10.0"), ("10.0", "10.0"), ("10.0", "0.0"), ("0.0", "0.0")])
    );
}

#[test]
fn a_bang_ring_is_a_hole() {
    let text = SQUARE.replace("END\nEND", "END\n!2\n   4.0 4.0\n   4.0 6.0\n   6.0 6.0\n   6.0 4.0\n   4.0 4.0\nEND\nEND");
    let shape = parse_poly(&text).unwrap();
    assert_eq!(shape.holes.len(), 1);
    assert_eq!(shape.outers.len(), 1);
    assert_eq!(shape.holes[0][1], ("4.0".to_string(), "6.0".to_string()));
}

#[test]
fn unterminated_and_empty_texts_are_refused() {
    assert_eq!(parse_poly("test\n1\n 0.0 0.0\n 1.0 1.0\n"), Err(PolyError::Unclosed { ring: "1".into() }));
    assert_eq!(parse_poly(""), Err(PolyError::Empty));
    assert_eq!(parse_poly("  \n\n"), Err(PolyError::Empty));
}

#[test]
fn malformed_rings_are_refused() {
    assert_eq!(
        parse_poly("x\n1\n 0 0\n 1\nEND\nEND\n"),
        Err(PolyError::NotAPair { line: "1".into() })
    );
    assert_eq!(
        parse_poly("x\n1\n 0 0\n 1 1\nEND\nEND\n"),
        Err(PolyError::TooFewPoints { ring: "1".into() })
    );
    assert_eq!(
        parse_poly("x\n!1\n 0 0\n 1 1\n 2 2\nEND\nEND\n"),
        Err(PolyError::NoOuterRing)
    );
}

#[test]
fn case_blank_lines_and_line_endings_do_not_matter() {
    let text = "shape\r\n\r\nouter\r\n 5.5  45.1 extra\r\n 6 45\r\n 6 46\r\nend\r\n";
    let shape = parse_poly(text).unwrap();
    assert_eq!(shape.name, "shape");
    assert_eq!(shape.outers[0], pairs(&[("5.5", "45.1"), ("6", "45"), ("6", "46")]));
}

#[test]
fn coordinates_must_read_as_numbers() {
    assert_eq!(
        parse_poly("x\n1\n 0 0\n east 1\n 2 2\nEND\nEND\n"),
        Err(PolyError::BadLongitude { line: "east 1".into() })
    );
    assert_eq!(
        parse_poly("x\n1\n 0 0\n 1 1,5\n 2 2\nEND\nEND\n"),
        Err(PolyError::BadLatitude { line: "1 1,5".into() })
    );
    // a bad number is reported where it stands, before the ring turns out to be unclosed
    assert_eq!(parse_poly("x\n1\n 0 0\n 1 x\n"), Err(PolyError::BadLatitude { line: "1 x".into() }));
}

#[test]
fn the_number_grammar_is_the_one_f64_reads() {
    let samples = [
        "1", "1.", ".5", ".", "-.5e3", "1e", "1e+", "1E-7", "+1e+07", "inf", "-Infinity", "NaN", "+nan", "infinit",
        "0x10", "1_0", "", "+", "-", "1.2.3", "e5", "1e5.5", " 1", "1f", "00012.000", "-0", "INF", "infinityy",
        "\u{0661}", "5.72", "45.18",
    ];
    for s in samples {
        assert_eq!(cairn_core::text::is_float_text(s), s.parse::<f64>().is_ok(), "{s:?}");
    }
}

#[test]
fn an_unterminated_ring_is_an_error() {
    assert!(parse_poly("test\n1\n 0.0 0.0\n 1.0 1.0\n").is_err());
    assert!(parse_poly("").is_err());
}
