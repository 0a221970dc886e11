//! Errors reported by the commit protocol.

use vstd::prelude::*;

verus! {

/// What went wrong while committing the shift-register image to the devices.
#[derive(Clone, Copy, Debug, PartialEq, Eq, Structural)]
pub enum Error {
    /// A latch transition failed.
    Lat,
    /// The serial transfer of the image failed.
    Spi,
}

impl Error {
    /// A short description of the error.
    pub fn description(&self) -> (s: &'static str)
        ensures
            *self == Error::Lat ==> s@ == "Error writing to latch."@,
            *self == Error::Spi ==> s@ == "Error writing to SPI."@,
    {
        match self {
            Error::Lat => "Error writing to latch.",
            Error::Spi => "Error writing to SPI.",
        }
    }

    /// The display text of the error.
    pub fn message(&self) -> (s: &'static str)
        ensures
            *self == Error::Lat ==> s@ == "Latch Write Error"@,
            *self == Error::Spi ==> s@ == "SPI Write Error"@,
    {
        match self {
            Error::Lat => "Latch Write Error",
            Error::Spi => "SPI Write Error",
        }
    }
}

} // verus!
