use roloc::HexColor;

#[test]
fn hex_string_is_uppercase_and_padded() {
    assert_eq!(HexColor { r: 10, g: 20, b: 30 }.to_hex_string(), "#0A141E");
    assert_eq!(HexColor { r: 0, g: 0, b: 0 }.to_hex_string(), "#000000");
    assert_eq!(HexColor { r: 255, g: 171, b: 1 }.to_hex_string(), "#FFAB01");
}

#[test]
fn hex_string_shape_for_all_gray_levels() {
    for v in 0..=255u8 {
        let s = HexColor { r: v, g: 255 - v, b: v / 2 }.to_hex_string();
        assert_eq!(s.len(), 7);
        assert!(s.starts_with('#'));
        assert!(s[1..].chars().all(|ch| ch.is_ascii_digit() || ('A'..='F').contains(&ch)));
    }
}
