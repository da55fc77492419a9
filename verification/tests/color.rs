use mermaid_canvas::color::{hex_rgb_exec, radix16_u8_exec, to_hex, parse_hex, parse_rgb};

fn chars(s: &str) -> Vec<char> {
    s.chars().collect()
}

#[test]
fn hex_short_form_doubles_each_digit() {
    assert_eq!(hex_rgb_exec("#000"), Some((0, 0, 0)));
    assert_eq!(hex_rgb_exec("#fA3"), Some((0xff, 0xaa, 0x33)));
}

#[test]
fn hex_long_form_reads_pairs() {
    assert_eq!(hex_rgb_exec("#ffffff"), Some((255, 255, 255)));
    assert_eq!(hex_rgb_exec("#808080"), Some((128, 128, 128)));
    assert_eq!(hex_rgb_exec("#123456"), Some((0x12, 0x34, 0x56)));
}

#[test]
fn hex_rejects_other_shapes() {
    assert_eq!(hex_rgb_exec("not-a-color"), None);
    assert_eq!(hex_rgb_exec("nope"), None);
    assert_eq!(hex_rgb_exec("#12345"), None);
    assert_eq!(hex_rgb_exec("#ff000080"), None);
    assert_eq!(hex_rgb_exec("#gg0000"), None);
    assert_eq!(hex_rgb_exec("#"), None);
}

#[test]
fn hex_channel_with_plus_sign_reads() {
    assert_eq!(hex_rgb_exec("#+f+f+f"), Some((15, 15, 15)));
}

#[test]
fn radix16_reads_bytes() {
    assert_eq!(radix16_u8_exec(&chars("ff")), Some(255));
    assert_eq!(radix16_u8_exec(&chars("0A")), Some(10));
    assert_eq!(radix16_u8_exec(&chars("+7")), Some(7));
    assert_eq!(radix16_u8_exec(&chars("100")), None);
    assert_eq!(radix16_u8_exec(&chars("")), None);
    assert_eq!(radix16_u8_exec(&chars("+")), None);
    assert_eq!(radix16_u8_exec(&chars("-1")), None);
    assert_eq!(radix16_u8_exec(&chars("0x1")), None);
}

#[test]
fn to_hex_writes_lower_case_pairs() {
    assert_eq!(to_hex(255, 0, 171), "#ff00ab");
    assert_eq!(to_hex(1, 2, 3), "#010203");
}

#[test]
fn hex_round_trip_on_samples() {
    for (r, g, b) in [(0u8, 0u8, 0u8), (255, 255, 255), (18, 52, 86), (171, 205, 239)] {
        assert_eq!(hex_rgb_exec(&to_hex(r, g, b)), Some((r, g, b)));
    }
}

#[test]
fn test_hex_3digit() {
    assert_eq!(parse_hex("fff"), Some((255, 255, 255, 255)));
}

#[test]
fn test_hex_6digit() {
    assert_eq!(parse_hex("ff0000"), Some((255, 0, 0, 255)));
}

#[test]
fn test_hex_8digit() {
    let c = parse_hex("ff000080").unwrap();
    assert_eq!(c.3, 128);
}

#[test]
fn test_rgb() {
    assert_eq!(parse_rgb("255, 128, 0"), Some((255, 128, 0)));
}

#[test]
fn test_invalid() {
    assert_eq!(parse_hex("gg"), None);
}

#[test]
fn canvas_hex_rejects_bad_digits_and_lengths() {
    assert_eq!(parse_hex("12345"), None);
    assert_eq!(parse_hex("ffff0g"), None);
    assert_eq!(parse_hex("é1"), None);
    assert_eq!(parse_hex("a1B2c3"), Some((0xa1, 0xb2, 0xc3, 255)));
    assert_eq!(parse_hex("123"), Some((0x11, 0x22, 0x33, 255)));
}

#[test]
fn canvas_rgb_needs_three_byte_channels() {
    assert_eq!(parse_rgb("1,2"), None);
    assert_eq!(parse_rgb("1,2,3,4"), None);
    assert_eq!(parse_rgb("256,0,0"), None);
    assert_eq!(parse_rgb(" +7 ,\t8, 9 "), Some((7, 8, 9)));
    assert_eq!(parse_rgb("-1,0,0"), None);
    assert_eq!(parse_rgb("a,0,0"), None);
}

#[test]
fn hex_with_multibyte_characters_reads_as_nothing() {
    assert_eq!(hex_rgb_exec("#é1"), None);
    assert_eq!(hex_rgb_exec("#1é234"), None);
    assert_eq!(hex_rgb_exec("#€123"), None);
    assert_eq!(parse_hex("€123"), None);
    assert_eq!(parse_hex("1€23"), None);
    assert_eq!(parse_hex("12€34"), None);
}
