//! The error kinds of the pipeline.
use vstd::prelude::*;
use vstd::string::*;

verus! {

/// What can go wrong between a pixel buffer and a mesh.
#[derive(Debug, Clone)]
pub enum Error {
    /// A ring has no extent along an axis, so that its bounding box is empty.
    InvalidBoundingBox,
    /// Fewer points than a closed ring needs.
    NotEnoughPoints,
    /// The triangle list does not describe a mesh over the given vertices.
    TriangulationFailed,
    /// A pixel buffer does not match the image dimensions.
    InvalidDimensions,
    /// Any other failure, with its message.
    Custom(String),
}

/// The text shown for each error kind.
pub open spec fn message_of(e: Error) -> Seq<char> {
    match e {
        Error::InvalidBoundingBox => "Invalid bounding box"@,
        Error::NotEnoughPoints => "Not enough points to form a polygon"@,
        Error::TriangulationFailed => "Triangulation failed"@,
        Error::InvalidDimensions => "Buffer does not match image dimensions"@,
        Error::Custom(msg) => msg@,
    }
}

impl Error {
    /// An error that carries a free-form message.
    pub fn custom(msg: &str) -> (e: Error)
        ensures
            e is Custom,
            e->Custom_0@ == msg@,
    {
        Error::Custom(String::from_str(msg))
    }

    /// The human-readable message of this error.
    pub fn message(&self) -> (text: String)
        ensures
            text@ == message_of(*self),
    {
        match self {
            Error::InvalidBoundingBox => String::from_str("Invalid bounding box"),
            Error::NotEnoughPoints => String::from_str("Not enough points to form a polygon"),
            Error::TriangulationFailed => String::from_str("Triangulation failed"),
            Error::InvalidDimensions => String::from_str("Buffer does not match image dimensions"),
            Error::Custom(msg) => msg.clone(),
        }
    }
}

} // verus!
