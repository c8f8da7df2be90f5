//! The request value type and its validation rules.

use vstd::prelude::*;

verus! {

/// A parsed touch-icon request: the pixel dimensions asked for and whether
/// the path carried the historical `-precomposed` marker (informational
/// only; it never changes which image is served).
#[derive(Clone, Copy, Debug, PartialEq, Eq, Structural)]
pub struct IconRequest {
    pub width: u32,
    pub height: u32,
    pub precomposed: bool,
}

/// Why a path failed to parse.
#[derive(Clone, Copy, Debug, PartialEq, Eq, Structural)]
pub enum ParseError {
    /// The path does not have the shape
    /// `apple-touch-icon(-<W>x<H>)?(-precomposed)?.png`.
    NoMatch,
    /// A digit group in the path denotes a value above `u32::MAX`.
    IntegerOverflow,
}

/// Why a parsed request was rejected by validation.
#[derive(Clone, Copy, Debug, PartialEq, Eq, Structural)]
pub enum ValidationError {
    InvalidWidth,
    InvalidHeight,
    InvalidAspect,
}

/// The validation rule: width is checked first, then height, then squareness,
/// so exactly one error is surfaced when several dimensions are bad.
pub open spec fn spec_validate(icon: IconRequest) -> Result<(), ValidationError> {
    if icon.width < 1 || icon.width > 500 {
        Err(ValidationError::InvalidWidth)
    } else if icon.height < 1 || icon.height > 500 {
        Err(ValidationError::InvalidHeight)
    } else if icon.width != icon.height {
        Err(ValidationError::InvalidAspect)
    } else {
        Ok(())
    }
}

impl IconRequest {
    /// Acceptable dimensions: square and between 1 and 500 pixels inclusive.
    pub open spec fn is_valid(self) -> bool {
        1 <= self.width <= 500 && self.width == self.height
    }

    /// Accepts exactly the requests with valid dimensions; on rejection the
    /// error singles out the first failing check.
    pub fn validate(&self) -> (r: Result<(), ValidationError>)
        ensures
            r == spec_validate(*self),
            r is Ok <==> self.is_valid(),
    {
        if self.width < 1 || self.width > 500 {
            return Err(ValidationError::InvalidWidth);
        }
        if self.height < 1 || self.height > 500 {
            return Err(ValidationError::InvalidHeight);
        }
        if self.width != self.height {
            return Err(ValidationError::InvalidAspect);
        }
        Ok(())
    }
}

impl ValidationError {
    /// The error text served in the body of a rejection response.
    pub fn message(&self) -> (m: &'static str)
        ensures
            *self is InvalidWidth ==> m@ == "invalid width"@,
            *self is InvalidHeight ==> m@ == "invalid height"@,
            *self is InvalidAspect ==> m@ == "invalid size"@,
    {
        match self {
            ValidationError::InvalidWidth => "invalid width",
            ValidationError::InvalidHeight => "invalid height",
            ValidationError::InvalidAspect => "invalid size",
        }
    }
}

} // verus!
