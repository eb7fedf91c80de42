use vstd::prelude::*;

verus! {

/// One of the three channels of an RGB color.
#[derive(Clone, Copy, Debug, PartialEq, Eq, Structural)]
pub enum Channel {
    Red,
    Green,
    Blue,
}

/// Every failure of palette construction, color lookup, marker expansion or
/// placeholder highlighting. All are fatal: no transform produces partial
/// output. Variants carry the offending token, key or text.
#[derive(Clone, Debug, PartialEq, Eq)]
pub enum ColorError {
    /// A palette key or variable name held a character outside `A-Z a-z _`,
    /// or was empty.
    InvalidKey(String),
    /// A variable assignment `key =` ended before its value token.
    UnterminatedAssignment(String),
    /// A variable's value token did not parse as a byte 0-255.
    InvalidVariableValue(String),
    /// A six-character color token was not six hex digits.
    InvalidHexDigits(String),
    /// A color entry ended before the named channel; carries the owning key.
    WrongChannelCount(Channel, String),
    /// A channel token was neither a known variable nor a byte 0-255.
    InvalidChannelValue(String),
    /// A template ended inside an open `«...» ` marker.
    UnterminatedColorCode,
    /// A marker's text matched no palette entry, hex code or RGB triple.
    UnresolvedColor(String),
    /// A template ended right after a `\` escape.
    UnterminatedEscape,
    /// A run ended inside an open `{...}` placeholder.
    UnterminatedPlaceholder,
}

/// The mathematical shadow of `ColorError`: the same variants over `Seq<char>`,
/// used by the spec functions that define each transform.
pub enum ErrModel {
    InvalidKey(Seq<char>),
    UnterminatedAssignment(Seq<char>),
    InvalidVariableValue(Seq<char>),
    InvalidHexDigits(Seq<char>),
    WrongChannelCount(Channel, Seq<char>),
    InvalidChannelValue(Seq<char>),
    UnterminatedColorCode,
    UnresolvedColor(Seq<char>),
    UnterminatedEscape,
    UnterminatedPlaceholder,
}

impl View for ColorError {
    type V = ErrModel;

    open spec fn view(&self) -> ErrModel {
        match self {
            ColorError::InvalidKey(s) => ErrModel::InvalidKey(s@),
            ColorError::UnterminatedAssignment(s) => ErrModel::UnterminatedAssignment(s@),
            ColorError::InvalidVariableValue(s) => ErrModel::InvalidVariableValue(s@),
            ColorError::InvalidHexDigits(s) => ErrModel::InvalidHexDigits(s@),
            ColorError::WrongChannelCount(c, s) => ErrModel::WrongChannelCount(*c, s@),
            ColorError::InvalidChannelValue(s) => ErrModel::InvalidChannelValue(s@),
            ColorError::UnterminatedColorCode => ErrModel::UnterminatedColorCode,
            ColorError::UnresolvedColor(s) => ErrModel::UnresolvedColor(s@),
            ColorError::UnterminatedEscape => ErrModel::UnterminatedEscape,
            ColorError::UnterminatedPlaceholder => ErrModel::UnterminatedPlaceholder,
        }
    }
}

/// An executable transform result agrees with its specification: same
/// success or failure, same text, same error.
pub open spec fn result_matches(r: Result<String, ColorError>, m: Result<Seq<char>, ErrModel>) -> bool {
    match r {
        Ok(s) => m == Ok::<Seq<char>, ErrModel>(s@),
        Err(e) => m == Err::<Seq<char>, ErrModel>(e@),
    }
}

} // verus!
