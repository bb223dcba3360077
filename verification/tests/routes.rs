use buildings_core::routes::{glb_tile_request, parse_u32, parse_u8, TileParam, TileRequest, SERVED_ZOOM};

#[test]
fn served_tile_is_accepted() {
    assert_eq!(
        glb_tile_request(Some("14"), Some("14552"), Some("6451")),
        TileRequest::Tile { z: 14, x: 14552, y: 6451 }
    );
    assert_eq!(SERVED_ZOOM, 14);
}

#[test]
fn missing_parameter_is_a_bad_request() {
    assert_eq!(glb_tile_request(None, Some("1"), Some("2")), TileRequest::BadRequest);
    assert_eq!(glb_tile_request(Some("14"), None, Some("2")), TileRequest::BadRequest);
    assert_eq!(glb_tile_request(Some("x"), Some("1"), None), TileRequest::BadRequest);
}

#[test]
fn malformed_parameters_are_named_in_order() {
    assert_eq!(glb_tile_request(Some("z"), Some("q"), Some("2")), TileRequest::Invalid(TileParam::Z));
    assert_eq!(glb_tile_request(Some("256"), Some("1"), Some("2")), TileRequest::Invalid(TileParam::Z));
    assert_eq!(glb_tile_request(Some("13"), Some("-1"), Some("2")), TileRequest::Invalid(TileParam::X));
    assert_eq!(
        glb_tile_request(Some("14"), Some("1"), Some("4294967296")),
        TileRequest::Invalid(TileParam::Y)
    );
}

#[test]
fn other_zoom_levels_are_not_served() {
    assert_eq!(glb_tile_request(Some("13"), Some("1"), Some("2")), TileRequest::NotServed);
    assert_eq!(glb_tile_request(Some("0"), Some("0"), Some("0")), TileRequest::NotServed);
    assert_eq!(
        glb_tile_request(Some("+14"), Some("007"), Some("+0")),
        TileRequest::Tile { z: 14, x: 7, y: 0 }
    );
}

#[test]
fn parsing_agrees_with_std() {
    let cases = [
        "", "+", "-", "0", "00", "+0", "-0", "1", "+1", "++1", "9", "10", "99", "255", "256", "0255", "+255",
        "1000", " 1", "1 ", "1a", "a1", "12345", "65535", "4294967295", "4294967296", "+4294967295",
        "004294967295", "99999999999", "18446744073709551616", "١", "1_000",
    ];
    for c in cases {
        assert_eq!(parse_u8(c), c.parse::<u8>().ok(), "u8 {c:?}");
        assert_eq!(parse_u32(c), c.parse::<u32>().ok(), "u32 {c:?}");
    }
    for v in 0u32..=1000 {
        let s = format!("{v}");
        assert_eq!(parse_u32(&s), Some(v));
        assert_eq!(parse_u8(&s), u8::try_from(v).ok());
    }
}
