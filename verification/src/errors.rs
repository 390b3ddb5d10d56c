//! The failure taxonomy of the engine, and the human-readable message each
//! failure carries across the response channel.

use vstd::prelude::*;

verus! {

/// Everything that can go wrong while listing or switching layouts.  The
/// variants that arise at the OS boundary carry the OS's own detail text.
#[derive(Debug, PartialEq, Eq)]
pub enum LayoutError {
    /// Every discovery source came back empty.
    NoLayouts,
    /// An identifier does not have the expected overall shape.
    InvalidFormat,
    /// A hex field does not parse as the expected unsigned value.
    InvalidHex,
    /// A GUID field of a composite identifier does not parse.
    InvalidGuid,
    /// The language field of a composite identifier does not parse.
    InvalidLangId,
    /// No window is in the foreground to receive a switch request.
    NoForegroundWindow,
    /// The text-services profile could not be set as the default.
    SetProfileFailed(String),
    /// The external enumeration utility could not be launched.
    SubprocessFailed(String),
    /// Posting the input-language-change message failed.
    PostMessageFailed(String),
    /// The OS refused to load a layout.
    LoadLayoutFailed,
}

pub open spec fn message_spec(e: LayoutError) -> Seq<char> {
    match e {
        LayoutError::NoLayouts => "No layouts found"@,
        LayoutError::InvalidFormat => "Invalid format"@,
        LayoutError::InvalidHex => "Invalid Hex"@,
        LayoutError::InvalidGuid => "Invalid GUID"@,
        LayoutError::InvalidLangId => "Invalid LangID"@,
        LayoutError::NoForegroundWindow => "No foreground window found"@,
        LayoutError::SetProfileFailed(d) => "Failed to SetDefaultLanguageProfile: "@ + d@,
        LayoutError::SubprocessFailed(d) => "Failed to run PowerShell: "@ + d@,
        LayoutError::PostMessageFailed(d) => "PostMessage failed: "@ + d@,
        LayoutError::LoadLayoutFailed => "Failed to load layout"@,
    }
}

impl LayoutError {
    /// The message text placed in an error response.
    pub fn message(&self) -> (r: String)
        ensures
            r@ == message_spec(*self),
    {
        match self {
            LayoutError::NoLayouts => String::from_str("No layouts found"),
            LayoutError::InvalidFormat => String::from_str("Invalid format"),
            LayoutError::InvalidHex => String::from_str("Invalid Hex"),
            LayoutError::InvalidGuid => String::from_str("Invalid GUID"),
            LayoutError::InvalidLangId => String::from_str("Invalid LangID"),
            LayoutError::NoForegroundWindow => String::from_str("No foreground window found"),
            LayoutError::SetProfileFailed(d) => String::from_str(
                "Failed to SetDefaultLanguageProfile: ",
            ).concat(d.as_str()),
            LayoutError::SubprocessFailed(d) => String::from_str(
                "Failed to run PowerShell: ",
            ).concat(d.as_str()),
            LayoutError::PostMessageFailed(d) => String::from_str("PostMessage failed: ").concat(
                d.as_str(),
            ),
            LayoutError::LoadLayoutFailed => String::from_str("Failed to load layout"),
        }
    }
}

} // verus!
