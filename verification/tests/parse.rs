use touch_icon::icon::{IconRequest, ParseError};
use touch_icon::parser::parse_icon_path;

#[test]
fn unsized_path_defaults_to_sixty() {
    let r = parse_icon_path(b"apple-touch-icon.png");
    assert_eq!(
        r,
        Ok(IconRequest { width: 60, height: 60, precomposed: false })
    );
}

#[test]
fn sized_path_yields_its_digits() {
    let r = parse_icon_path(b"apple-touch-icon-57x57.png");
    assert_eq!(
        r,
        Ok(IconRequest { width: 57, height: 57, precomposed: false })
    );
}

#[test]
fn sized_path_keeps_distinct_dimensions() {
    let r = parse_icon_path(b"apple-touch-icon-180x120.png");
    assert_eq!(
        r,
        Ok(IconRequest { width: 180, height: 120, precomposed: false })
    );
}

#[test]
fn precomposed_sized_path() {
    let r = parse_icon_path(b"apple-touch-icon-120x120-precomposed.png");
    assert_eq!(
        r,
        Ok(IconRequest { width: 120, height: 120, precomposed: true })
    );
}

#[test]
fn precomposed_unsized_path() {
    let r = parse_icon_path(b"apple-touch-icon-precomposed.png");
    assert_eq!(
        r,
        Ok(IconRequest { width: 60, height: 60, precomposed: true })
    );
}

#[test]
fn unrelated_path_is_no_match() {
    assert_eq!(parse_icon_path(b"/favicon.ico"), Err(ParseError::NoMatch));
}

#[test]
fn empty_path_is_no_match() {
    assert_eq!(parse_icon_path(b""), Err(ParseError::NoMatch));
}

#[test]
fn leading_slash_is_not_stripped_here() {
    // The caller normalizes the path; with the slash still on, no match.
    assert_eq!(
        parse_icon_path(b"/apple-touch-icon.png"),
        Err(ParseError::NoMatch)
    );
}

#[test]
fn trailing_bytes_after_png_still_match() {
    // The pattern is anchored only at the start of the path.
    let r = parse_icon_path(b"apple-touch-icon-76x76.png?v=2");
    assert_eq!(
        r,
        Ok(IconRequest { width: 76, height: 76, precomposed: false })
    );
}

#[test]
fn half_open_size_groups_do_not_match() {
    assert_eq!(
        parse_icon_path(b"apple-touch-icon-12.png"),
        Err(ParseError::NoMatch)
    );
    assert_eq!(
        parse_icon_path(b"apple-touch-icon-12x.png"),
        Err(ParseError::NoMatch)
    );
    assert_eq!(
        parse_icon_path(b"apple-touch-icon-x12.png"),
        Err(ParseError::NoMatch)
    );
}

#[test]
fn missing_png_suffix_is_no_match() {
    assert_eq!(
        parse_icon_path(b"apple-touch-icon-120x120"),
        Err(ParseError::NoMatch)
    );
    assert_eq!(
        parse_icon_path(b"apple-touch-icon"),
        Err(ParseError::NoMatch)
    );
}

#[test]
fn digit_group_above_u32_overflows() {
    assert_eq!(
        parse_icon_path(b"apple-touch-icon-4294967296x10.png"),
        Err(ParseError::IntegerOverflow)
    );
    assert_eq!(
        parse_icon_path(b"apple-touch-icon-10x99999999999999999999.png"),
        Err(ParseError::IntegerOverflow)
    );
}

#[test]
fn largest_representable_digit_group() {
    let r = parse_icon_path(b"apple-touch-icon-4294967295x4294967295.png");
    assert_eq!(
        r,
        Ok(IconRequest { width: 4294967295, height: 4294967295, precomposed: false })
    );
}

#[test]
fn leading_zeros_are_plain_decimal() {
    let r = parse_icon_path(b"apple-touch-icon-0060x060.png");
    assert_eq!(
        r,
        Ok(IconRequest { width: 60, height: 60, precomposed: false })
    );
}

#[test]
fn zero_dimensions_parse_but_do_not_validate() {
    let r = parse_icon_path(b"apple-touch-icon-0x0.png");
    assert_eq!(
        r,
        Ok(IconRequest { width: 0, height: 0, precomposed: false })
    );
    assert!(r.unwrap().validate().is_err());
}
