use touch_icon::icon::{IconRequest, ValidationError};

fn icon(width: u32, height: u32) -> IconRequest {
    IconRequest { width, height, precomposed: false }
}

#[test]
fn zero_width_is_invalid_width() {
    assert_eq!(icon(0, 60).validate(), Err(ValidationError::InvalidWidth));
}

#[test]
fn zero_height_is_invalid_height() {
    assert_eq!(icon(60, 0).validate(), Err(ValidationError::InvalidHeight));
}

#[test]
fn width_above_limit_is_invalid_width() {
    assert_eq!(icon(501, 501).validate(), Err(ValidationError::InvalidWidth));
}

#[test]
fn height_above_limit_is_invalid_height() {
    assert_eq!(icon(500, 501).validate(), Err(ValidationError::InvalidHeight));
}

#[test]
fn non_square_is_invalid_aspect() {
    assert_eq!(icon(180, 120).validate(), Err(ValidationError::InvalidAspect));
}

#[test]
fn width_is_checked_before_height_and_aspect() {
    // Width and height are both out of range and differ: width wins.
    assert_eq!(icon(0, 501).validate(), Err(ValidationError::InvalidWidth));
}

#[test]
fn upper_boundary_is_inclusive() {
    assert_eq!(icon(500, 500).validate(), Ok(()));
}

#[test]
fn lower_boundary_is_inclusive() {
    assert_eq!(icon(1, 1).validate(), Ok(()));
}

#[test]
fn error_messages() {
    assert_eq!(ValidationError::InvalidWidth.message(), "invalid width");
    assert_eq!(ValidationError::InvalidHeight.message(), "invalid height");
    assert_eq!(ValidationError::InvalidAspect.message(), "invalid size");
}
