use vstd::prelude::*;

verus! {

/// What can go wrong while choosing a device, reading it, or reading the request.
#[derive(Debug, Clone, Copy, PartialEq, Eq, Structural)]
pub enum Error {
    /// A brightness attribute is missing, not a number, or out of range.
    ReadError,
    /// Writing a brightness level failed.
    WriteError,
    /// Toggling was asked of a device that is not a plain on/off device.
    CannotToggle,
    /// No device has the requested id.
    SpecifiedDeviceNotFound,
    /// No device was named and no backlight was found.
    SuitableDeviceNotFound,
    /// A brightness change was asked for without saying how.
    NoInput,
    /// The requested change is not a well-formed expression.
    ParseError,
}

impl Error {
    /// A message for the user.
    pub fn message(&self) -> (r: &'static str)
        ensures
            *self == Error::ReadError ==> r@ == "Failed to read brightness"@,
            *self == Error::WriteError ==> r@ == "Failed to write brightness"@,
            *self == Error::CannotToggle ==> r@ == "Device cannot be toggled: its maximum brightness is not 1"@,
            *self == Error::SpecifiedDeviceNotFound ==> r@ == "Specified device not found"@,
            *self == Error::SuitableDeviceNotFound ==> r@ == "No suitable device found"@,
            *self == Error::NoInput ==> r@ == "No input given"@,
            *self == Error::ParseError ==> r@ == "Failed to parse input"@,
    {
        match self {
            Error::ReadError => "Failed to read brightness",
            Error::WriteError => "Failed to write brightness",
            Error::CannotToggle => "Device cannot be toggled: its maximum brightness is not 1",
            Error::SpecifiedDeviceNotFound => "Specified device not found",
            Error::SuitableDeviceNotFound => "No suitable device found",
            Error::NoInput => "No input given",
            Error::ParseError => "Failed to parse input",
        }
    }
}

} // verus!
