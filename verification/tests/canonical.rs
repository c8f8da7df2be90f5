use touch_icon::icon::IconRequest;
use touch_icon::parser::parse_icon_path;

#[test]
fn canonical_path_bytes() {
    let icon = IconRequest { width: 60, height: 60, precomposed: false };
    assert_eq!(icon.canonical_path(), b"apple-touch-icon-60x60.png".to_vec());
}

#[test]
fn canonical_path_keeps_precomposed_marker() {
    let icon = IconRequest { width: 57, height: 57, precomposed: true };
    assert_eq!(
        icon.canonical_path(),
        b"apple-touch-icon-57x57-precomposed.png".to_vec()
    );
}

#[test]
fn parse_then_rerender_then_reparse_is_identity() {
    let first = parse_icon_path(b"apple-touch-icon-120x120.png").unwrap();
    let canonical = first.canonical_path();
    let second = parse_icon_path(&canonical).unwrap();
    assert_eq!(first, second);
}

#[test]
fn unsized_parse_rerenders_to_sized_canonical_form() {
    let first = parse_icon_path(b"apple-touch-icon.png").unwrap();
    let canonical = first.canonical_path();
    assert_eq!(canonical, b"apple-touch-icon-60x60.png".to_vec());
    let second = parse_icon_path(&canonical).unwrap();
    assert_eq!(first, second);
}

#[test]
fn precomposed_round_trip_keeps_the_flag() {
    let first = parse_icon_path(b"apple-touch-icon-152x152-precomposed.png").unwrap();
    let canonical = first.canonical_path();
    assert_eq!(
        canonical,
        b"apple-touch-icon-152x152-precomposed.png".to_vec()
    );
    let second = parse_icon_path(&canonical).unwrap();
    assert_eq!(first, second);
}

#[test]
fn zero_dimension_round_trip() {
    let first = parse_icon_path(b"apple-touch-icon-0x0.png").unwrap();
    let canonical = first.canonical_path();
    let second = parse_icon_path(&canonical).unwrap();
    assert_eq!(first, second);
}
