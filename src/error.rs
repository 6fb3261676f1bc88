use vstd::prelude::*;

verus! {

/// Why a component of a version could not be read as a number.
#[derive(Debug, Clone, Copy, PartialEq, Eq, Structural)]
pub enum IntErrorKind {
    /// The component is empty.
    Empty,
    /// The component holds a character other than the digits `0` to `9`.
    InvalidDigit,
    /// The component is a number above 65535.
    PosOverflow,
}

/// Why a text is not a version.
#[derive(Debug, Clone, Copy, PartialEq, Eq, Structural)]
pub enum VersionError {
    /// A component could not be read as a 16-bit number.
    ParseIntError(IntErrorKind),
    /// The text does not have exactly three dot-separated components.
    InvalidFormat,
}

/// The message that describes a failed number read.
pub open spec fn int_error_text(k: IntErrorKind) -> Seq<char> {
    match k {
        IntErrorKind::Empty => "cannot parse integer from empty string"@,
        IntErrorKind::InvalidDigit => "invalid digit found in string"@,
        IntErrorKind::PosOverflow => "number too large to fit in target type"@,
    }
}

/// The message that describes a version error.
pub open spec fn version_error_text(e: VersionError) -> Seq<char> {
    match e {
        VersionError::ParseIntError(k) => "Parse error: "@ + int_error_text(k),
        VersionError::InvalidFormat => "Invalid version format"@,
    }
}

impl IntErrorKind {
    /// The message that describes this error.
    pub fn description(&self) -> (r: &'static str)
        ensures
            r@ == int_error_text(*self),
    {
        match self {
            IntErrorKind::Empty => "cannot parse integer from empty string",
            IntErrorKind::InvalidDigit => "invalid digit found in string",
            IntErrorKind::PosOverflow => "number too large to fit in target type",
        }
    }
}

impl VersionError {
    /// The message that describes this error: `Invalid version format`, or
    /// `Parse error: ` followed by what went wrong with the number.
    pub fn to_string(&self) -> (r: String)
        ensures
            r@ == version_error_text(*self),
    {
        match self {
            VersionError::ParseIntError(k) => {
                let mut r = "Parse error: ".to_owned();
                r.append(k.description());
                r
            },
            VersionError::InvalidFormat => "Invalid version format".to_owned(),
        }
    }
}

impl From<IntErrorKind> for VersionError {
    /// Wraps a failed number read.
    fn from(k: IntErrorKind) -> (r: Self)
        ensures
            r == VersionError::ParseIntError(k),
    {
        VersionError::ParseIntError(k)
    }
}

impl vstd::std_specs::convert::FromSpecImpl<IntErrorKind> for VersionError {
    open spec fn obeys_from_spec() -> bool {
        true
    }

    open spec fn from_spec(k: IntErrorKind) -> VersionError {
        VersionError::ParseIntError(k)
    }
}

} // verus!
