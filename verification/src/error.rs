use vstd::prelude::*;

verus! {

/// Why a height map could not be built.
#[derive(Clone, Copy, Debug, PartialEq, Eq, Structural)]
pub enum HeightMapError {
    /// The image has no grey values to read: a pixel's grey value is no
    /// number, the sample format is unknown, or there is not one value for
    /// each pixel.
    Undecodable,
    /// The samples do not form a square.
    NotSquare,
    /// There are no samples at all.
    Empty,
    /// The side of the square is larger than a height map can record.
    TooLarge,
    /// The source map is flat, so its range cannot be stretched.
    FlatSource,
    /// A rescaled value does not fit the map's integer types.
    OutOfRange,
    /// Heights were to be counted in steps of one over zero.
    NoResolution,
}

impl HeightMapError {
    /// A short description of the error.
    pub fn message(&self) -> (text: &'static str)
        ensures
            text@ == self.message_spec(),
    {
        match self {
            HeightMapError::Undecodable => "Can't read image",
            HeightMapError::NotSquare => "Not a square image",
            HeightMapError::Empty => "No height samples",
            HeightMapError::TooLarge => "Height map too large",
            HeightMapError::FlatSource => "Flat height map",
            HeightMapError::OutOfRange => "Height out of range",
            HeightMapError::NoResolution => "No height resolution",
        }
    }

    /// The characters of [`HeightMapError::message`].
    pub open spec fn message_spec(&self) -> Seq<char> {
        match self {
            HeightMapError::Undecodable => "Can't read image"@,
            HeightMapError::NotSquare => "Not a square image"@,
            HeightMapError::Empty => "No height samples"@,
            HeightMapError::TooLarge => "Height map too large"@,
            HeightMapError::FlatSource => "Flat height map"@,
            HeightMapError::OutOfRange => "Height out of range"@,
            HeightMapError::NoResolution => "No height resolution"@,
        }
    }
}

} // verus!
