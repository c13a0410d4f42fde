//! Why a pattern could not be rendered.
use vstd::prelude::*;
use vstd::string::*;

verus! {

/// The ways in which rendering a date by a pattern fails.
#[derive(Debug, PartialEq, Eq)]
pub enum FormatError {
    /// A piece of the pattern is neither a section nor a separator; it is
    /// carried verbatim.
    PartNotSupported(String),
    /// The pattern holds no part at all.
    NoPartFound,
}

impl FormatError {
    /// A sentence describing the error for a reader.
    pub fn message(&self) -> (r: String)
        ensures
            match self {
                FormatError::PartNotSupported(s) => r@ == "Part not supported: "@ + s@,
                FormatError::NoPartFound => r@ == "No part found"@,
            },
    {
        match self {
            FormatError::PartNotSupported(s) => {
                let head = String::from_str("Part not supported: ");
                head.concat(s.as_str())
            },
            FormatError::NoPartFound => String::from_str("No part found"),
        }
    }
}

} // verus!
