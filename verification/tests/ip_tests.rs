use flatnet::ip::{format_ip, parse_ip};

#[test]
fn addresses_render_in_dotted_decimal() {
    assert_eq!(format_ip(0x0A640101), "10.100.1.1");
    assert_eq!(format_ip(0), "0.0.0.0");
    assert_eq!(format_ip(u32::MAX), "255.255.255.255");
}

#[test]
fn parsing_inverts_rendering() {
    for ip in [0u32, 1, 0x0A570102, 0x0A6401FE, u32::MAX] {
        assert_eq!(parse_ip(format_ip(ip).as_str()), Some(ip));
    }
}

#[test]
fn only_canonical_texts_parse() {
    assert_eq!(parse_ip("10.100.1.10"), Some(0x0A64010A));
    assert_eq!(parse_ip("invalid"), None);
    assert_eq!(parse_ip(""), None);
    assert_eq!(parse_ip("10.100.1"), None);
    assert_eq!(parse_ip("10.100.1.10.3"), None);
    assert_eq!(parse_ip("10.100.1.256"), None);
    assert_eq!(parse_ip("10.100.01.1"), None);
    assert_eq!(parse_ip("10.100.1.1/24"), None);
}
