//! The ways in which a conversion fails.

use vstd::prelude::*;

verus! {

/// Why an archive, or one lump of it, could not be converted.
#[derive(Clone, Copy, Debug, PartialEq, Eq, Structural)]
pub enum WadError {
    /// The archive does not begin with `IWAD` or `PWAD`.
    BadMagic,
    /// An offset points past the end of the archive, or a post reaches
    /// below the last row of its picture.
    OutOfRange,
    /// The archive ends before the bytes that a read asks for.
    Truncated,
    /// A lump name does not decode as text.
    NonTextName,
    /// The directory holds no lump named `PLAYPAL`.
    MissingPalette,
    /// The PNG encoder refused the image.
    Encode,
    /// The transparent palette index occurs among the decoded pixels.
    TransparencyAssumptionViolated,
    /// The scaled image has more pixels than this machine can address.
    TooLarge,
}

impl WadError {
    /// What `message` says of each kind of fault.
    pub open spec fn message_text(self) -> Seq<char> {
        match self {
            WadError::BadMagic => "the archive begins with neither IWAD nor PWAD"@,
            WadError::OutOfRange => "an offset or a post points outside of what it belongs to"@,
            WadError::Truncated => "the archive ends in the middle of a read"@,
            WadError::NonTextName => "a lump name is not text"@,
            WadError::MissingPalette => "the archive has no lump named PLAYPAL"@,
            WadError::Encode => "the PNG encoder refused the picture"@,
            WadError::TransparencyAssumptionViolated => "the transparent palette index is used by a picture"@,
            WadError::TooLarge => "the scaled picture is too large for this machine"@,
        }
    }

    /// A sentence for the user.
    pub fn message(&self) -> (text: &'static str)
        ensures
            text@ == self.message_text(),
    {
        match self {
            WadError::BadMagic => "the archive begins with neither IWAD nor PWAD",
            WadError::OutOfRange => "an offset or a post points outside of what it belongs to",
            WadError::Truncated => "the archive ends in the middle of a read",
            WadError::NonTextName => "a lump name is not text",
            WadError::MissingPalette => "the archive has no lump named PLAYPAL",
            WadError::Encode => "the PNG encoder refused the picture",
            WadError::TransparencyAssumptionViolated => "the transparent palette index is used by a picture",
            WadError::TooLarge => "the scaled picture is too large for this machine",
        }
    }
}

} // verus!
