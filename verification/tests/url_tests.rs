use satellite_imagery_downloader::url::build_url;
use satellite_imagery_downloader::url::format_decimal;

fn bytes(s: &str) -> Vec<u8> {
    s.as_bytes().to_vec()
}

#[test]
fn substitutes_all_three_placeholders() {
    let template = bytes("https://mt.example.com/vt/lyrs=s&x={x}&y={y}&z={z}");
    let url = build_url(&template, 4202, 2672, 13);
    assert_eq!(url, bytes("https://mt.example.com/vt/lyrs=s&x=4202&y=2672&z=13"));
}

#[test]
fn substitutes_zero_indices() {
    let template = bytes("t/{z}/{x}/{y}.png");
    let url = build_url(&template, 0, 0, 0);
    assert_eq!(url, bytes("t/0/0/0.png"));
}

#[test]
fn substitutes_negative_indices_with_sign() {
    let template = bytes("{x},{y},{z}");
    let url = build_url(&template, -5, -120, 2);
    assert_eq!(url, bytes("-5,-120,2"));
}

#[test]
fn leaves_template_without_placeholders_unchanged() {
    let template = bytes("https://example.com/static.png");
    let url = build_url(&template, 1, 2, 3);
    assert_eq!(url, template);
}

#[test]
fn replaces_only_the_first_occurrence() {
    let template = bytes("{x}{x}{y}");
    let url = build_url(&template, 7, 8, 9);
    assert_eq!(url, bytes("7{x}8"));
}

#[test]
fn formats_decimal_extremes() {
    assert_eq!(format_decimal(0), bytes("0"));
    assert_eq!(format_decimal(10), bytes("10"));
    assert_eq!(format_decimal(-1), bytes("-1"));
    assert_eq!(format_decimal(i64::MAX), bytes("9223372036854775807"));
    assert_eq!(format_decimal(i64::MIN), bytes("-9223372036854775808"));
}
